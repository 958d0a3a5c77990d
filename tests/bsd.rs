use mtu::bsd::{
    if_index, if_name_mtu, sockaddr, IfAddr, RouteMessage, RoutePlatform, AF_LINK, RTM_GET,
};
use mtu::bytes::{AddrBytes, ByteOrder};
use mtu::error::MtuError;

const LE: ByteOrder = ByteOrder::Little;

fn macos() -> RoutePlatform {
    RoutePlatform {
        header_len: 92,
        align: 4,
        version: 5,
        addrs: 1,
        af_inet6: 30,
        index_at: 4,
        addrs_at: 12,
        pid_at: 16,
        seq_at: 20,
        hdrlen_at: None,
    }
}

fn openbsd() -> RoutePlatform {
    RoutePlatform {
        header_len: 96,
        align: 8,
        version: 5,
        addrs: 1,
        af_inet6: 24,
        index_at: 6,
        addrs_at: 12,
        pid_at: 24,
        seq_at: 28,
        hdrlen_at: Some(4),
    }
}

fn v6_loopback() -> AddrBytes {
    let mut b = [0u8; 16];
    b[15] = 1;
    AddrBytes::V6(b)
}

fn reply(p: &RoutePlatform, version: u8, kind: u8, index: u16, pid: i32, seq: i32) -> Vec<u8> {
    let mut buf = vec![0u8; p.header_len + 16];
    buf[2] = version;
    buf[3] = kind;
    buf[p.index_at..p.index_at + 2].copy_from_slice(&index.to_le_bytes());
    buf[p.pid_at..p.pid_at + 4].copy_from_slice(&pid.to_le_bytes());
    buf[p.seq_at..p.seq_at + 4].copy_from_slice(&seq.to_le_bytes());
    buf
}

fn entry(family: u8, name: &str, mtu: Option<u64>) -> IfAddr {
    IfAddr { family, name: name.as_bytes().to_vec(), mtu }
}

#[test]
fn bsd_constants_match_libc() {
    assert_eq!(i32::from(mtu::bsd::AF_INET), libc::AF_INET);
    assert_eq!(
        usize::from(mtu::bsd::SOCKADDR_IN_LEN),
        std::mem::size_of::<libc::sockaddr_in>()
    );
    assert_eq!(
        usize::from(mtu::bsd::SOCKADDR_IN6_LEN),
        std::mem::size_of::<libc::sockaddr_in6>()
    );
}

#[test]
fn sockaddr_v4_bytes() {
    let sa = sockaddr(&AddrBytes::V4([127, 0, 0, 1]), 30);
    assert_eq!(sa, vec![16, 2, 0, 0, 127, 0, 0, 1, 0, 0, 0, 0, 0, 0, 0, 0]);
}

#[test]
fn sockaddr_v6_bytes() {
    let sa = sockaddr(&v6_loopback(), 30);
    assert_eq!(sa.len(), 28);
    assert_eq!(&sa[0..8], &[28, 30, 0, 0, 0, 0, 0, 0]);
    assert_eq!(sa[23], 1);
    assert_eq!(&sa[24..28], &[0, 0, 0, 0]);
}

#[test]
fn route_message_lengths_align_4() {
    let p = macos();
    let m4 = RouteMessage::new(&AddrBytes::V4([127, 0, 0, 1]), 3, &p);
    let b4 = m4.to_bytes(&p, LE);
    assert_eq!(m4.len(), 108);
    assert_eq!(b4.len(), 108);
    assert_eq!(u16::from_le_bytes([b4[0], b4[1]]), 108);
    assert_eq!(b4[2], 5);
    assert_eq!(b4[3], RTM_GET);
    assert_eq!(&b4[12..16], &1i32.to_le_bytes());
    assert_eq!(&b4[20..24], &3i32.to_le_bytes());
    assert_eq!(&b4[92..100], &[16, 2, 0, 0, 127, 0, 0, 1]);

    let m6 = RouteMessage::new(&v6_loopback(), 3, &p);
    let b6 = m6.to_bytes(&p, LE);
    assert_eq!(m6.len(), 120);
    assert_eq!(b6.len(), 120);
    assert_eq!(u16::from_le_bytes([b6[0], b6[1]]), 120);
}

#[test]
fn route_message_lengths_align_8() {
    let p = openbsd();
    let m4 = RouteMessage::new(&AddrBytes::V4([127, 0, 0, 1]), 3, &p);
    let b4 = m4.to_bytes(&p, LE);
    assert_eq!(b4.len(), 112);
    assert_eq!(u16::from_le_bytes([b4[0], b4[1]]), 112);
    assert_eq!(u16::from_le_bytes([b4[4], b4[5]]), 96);

    let m6 = RouteMessage::new(&v6_loopback(), 3, &p);
    let b6 = m6.to_bytes(&p, LE);
    assert_eq!(m6.len(), 128);
    assert_eq!(b6.len(), 128);
    assert_eq!(u16::from_le_bytes([b6[0], b6[1]]), 128);
    assert_eq!(&b6[124..128], &[0, 0, 0, 0]);
    assert_eq!(m6.version(), 5);
    assert_eq!(m6.kind(), RTM_GET);
}

#[test]
fn reply_to_our_query_gives_index() {
    let p = macos();
    let q = RouteMessage::new(&AddrBytes::V4([127, 0, 0, 1]), 42, &p);
    let r = reply(&p, 5, RTM_GET, 1, 1234, 42);
    assert_eq!(if_index(&r, &q, 1234, &p, LE).unwrap().unwrap(), 1);
}

#[test]
fn reply_to_others_is_skipped() {
    let p = macos();
    let q = RouteMessage::new(&AddrBytes::V4([127, 0, 0, 1]), 42, &p);
    assert!(if_index(&reply(&p, 5, RTM_GET, 1, 999, 42), &q, 1234, &p, LE).is_none());
    assert!(if_index(&reply(&p, 5, RTM_GET, 1, 1234, 41), &q, 1234, &p, LE).is_none());
    assert!(if_index(&reply(&p, 4, RTM_GET, 1, 1234, 42), &q, 1234, &p, LE).is_none());
}

#[test]
fn reply_of_other_type_is_error() {
    let p = macos();
    let q = RouteMessage::new(&AddrBytes::V4([127, 0, 0, 1]), 42, &p);
    let r = reply(&p, 5, 1, 1, 1234, 42);
    assert!(matches!(if_index(&r, &q, 1234, &p, LE), Some(Err(MtuError::NotFound))));
}

#[test]
fn short_reply_is_error() {
    let p = macos();
    let q = RouteMessage::new(&AddrBytes::V4([127, 0, 0, 1]), 42, &p);
    assert!(matches!(if_index(&[5u8; 40], &q, 1234, &p, LE), Some(Err(MtuError::NotFound))));
}

#[test]
fn loopback_mtu_from_link_entry() {
    let entries = vec![
        entry(2, "lo0", None),
        entry(AF_LINK, "en0", Some(1500)),
        entry(AF_LINK, "lo0", Some(16_384)),
    ];
    let mut name = b"lo0".to_vec();
    name.resize(16, 0);
    let (n, mtu) = if_name_mtu(&name, &entries).unwrap();
    assert_eq!(n, "lo0");
    assert_eq!(mtu, 16_384);
}

#[test]
fn ethernet_mtu_from_link_entry() {
    let entries = vec![entry(AF_LINK, "lo0", Some(16_384)), entry(AF_LINK, "en0", Some(1500))];
    let (n, mtu) = if_name_mtu(b"en0\0", &entries).unwrap();
    assert_eq!(n, "en0");
    assert_eq!(mtu, 1500);
}

#[test]
fn link_entry_without_data_is_error() {
    let entries = vec![entry(AF_LINK, "lo0", None), entry(AF_LINK, "lo0", Some(16_384))];
    assert!(matches!(if_name_mtu(b"lo0\0", &entries), Err(MtuError::NotFound)));
}

#[test]
fn missing_interface_is_error() {
    let entries = vec![entry(2, "lo0", Some(16_384)), entry(AF_LINK, "en0", Some(1500))];
    assert!(matches!(if_name_mtu(b"lo0\0", &entries), Err(MtuError::NotFound)));
    assert!(matches!(if_name_mtu(&[0xff, 0xfe, 0], &entries), Err(MtuError::InvalidName)));
}
