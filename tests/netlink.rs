use mtu::align::aligned_by;
use mtu::bytes::{AddrBytes, ByteOrder};
use mtu::error::MtuError;
use mtu::linux::{Phase, Resolver, Step, LINK_QUERY_SEQ, ROUTE_QUERY_SEQ};
use mtu::netlink::{
    if_index, if_name_mtu, parse_attrs, parse_c_int, read_msg_with_seq, IfIndexMsg, IfInfoMsg,
    NlMsgHdr, RtAttr, IFINFOMSG_LEN, IFLA_IFNAME, IFLA_MTU, NLMSGHDR_LEN, NLMSG_ERROR, RTATTR_LEN,
    RTA_DST, RTA_OIF, RTM_NEWLINK, RTM_NEWROUTE,
};

const LE: ByteOrder = ByteOrder::Little;

fn attr(kind: u16, value: &[u8]) -> Vec<u8> {
    let len = (4 + value.len()) as u16;
    let mut out = Vec::new();
    out.extend_from_slice(&len.to_le_bytes());
    out.extend_from_slice(&kind.to_le_bytes());
    out.extend_from_slice(value);
    while out.len() % 4 != 0 {
        out.push(0);
    }
    out
}

fn message(kind: u16, seq: u32, body: &[u8]) -> Vec<u8> {
    let len = (16 + body.len()) as u32;
    let mut out = Vec::new();
    out.extend_from_slice(&len.to_le_bytes());
    out.extend_from_slice(&kind.to_le_bytes());
    out.extend_from_slice(&0u16.to_le_bytes());
    out.extend_from_slice(&seq.to_le_bytes());
    out.extend_from_slice(&0u32.to_le_bytes());
    out.extend_from_slice(body);
    out
}

fn route_answer(seq: u32, oif: i32) -> Vec<u8> {
    let mut body = vec![2u8, 32, 0, 0, 254, 0, 0, 1, 0, 0, 0, 0];
    body.extend(attr(RTA_DST, &[127, 0, 0, 1]));
    body.extend(attr(RTA_OIF, &oif.to_le_bytes()));
    message(RTM_NEWROUTE, seq, &body)
}

fn link_answer(seq: u32, name: &[u8], mtu: i32) -> Vec<u8> {
    let mut body = vec![0u8; 16];
    body.extend(attr(IFLA_IFNAME, name));
    body.extend(attr(IFLA_MTU, &mtu.to_le_bytes()));
    message(RTM_NEWLINK, seq, &body)
}

fn run(remote: AddrBytes, datagrams: &[Vec<u8>]) -> (Vec<Vec<u8>>, Option<Result<(String, usize), MtuError>>) {
    let (mut resolver, first) = Resolver::start(remote, LE);
    let mut sent = vec![first];
    for d in datagrams {
        match resolver.on_datagram(d) {
            Step::Send(bytes) => sent.push(bytes),
            Step::Receive => {}
            Step::Done(result) => return (sent, Some(result)),
        }
    }
    (sent, None)
}

#[test]
fn constants_match_libc() {
    assert_eq!(mtu::netlink::RTM_GETROUTE, libc::RTM_GETROUTE);
    assert_eq!(mtu::netlink::RTM_NEWROUTE, libc::RTM_NEWROUTE);
    assert_eq!(mtu::netlink::RTM_GETLINK, libc::RTM_GETLINK);
    assert_eq!(mtu::netlink::RTM_NEWLINK, libc::RTM_NEWLINK);
    assert_eq!(i32::from(mtu::netlink::NLM_F_REQUEST), libc::NLM_F_REQUEST);
    assert_eq!(i32::from(mtu::netlink::NLM_F_ACK), libc::NLM_F_ACK);
    assert_eq!(i32::from(NLMSG_ERROR), libc::NLMSG_ERROR);
    assert_eq!(i32::from(mtu::netlink::AF_INET), libc::AF_INET);
    assert_eq!(i32::from(mtu::netlink::AF_INET6), libc::AF_INET6);
    assert_eq!(i32::from(mtu::netlink::AF_UNSPEC), libc::AF_UNSPEC);
    assert_eq!(mtu::netlink::RT_TABLE_MAIN, libc::RT_TABLE_MAIN);
    assert_eq!(mtu::netlink::RT_SCOPE_UNIVERSE, libc::RT_SCOPE_UNIVERSE);
    assert_eq!(mtu::netlink::RTN_UNICAST, libc::RTN_UNICAST);
    assert_eq!(RTA_DST, libc::RTA_DST);
    assert_eq!(RTA_OIF, libc::RTA_OIF);
    assert_eq!(mtu::netlink::ARPHRD_NONE, libc::ARPHRD_NONE);
    assert_eq!(IFLA_IFNAME, libc::IFLA_IFNAME);
    assert_eq!(IFLA_MTU, libc::IFLA_MTU);
    assert_eq!(NLMSGHDR_LEN, std::mem::size_of::<libc::nlmsghdr>());
    assert_eq!(IFINFOMSG_LEN, std::mem::size_of::<libc::ifinfomsg>());
    assert_eq!(RTATTR_LEN, std::mem::size_of::<libc::rtattr>());
}

#[test]
fn aligned_by_rounds_up() {
    assert_eq!(aligned_by(0, 4), 4);
    assert_eq!(aligned_by(1, 4), 4);
    assert_eq!(aligned_by(4, 4), 4);
    assert_eq!(aligned_by(5, 4), 8);
    assert_eq!(aligned_by(5, 8), 8);
    assert_eq!(aligned_by(17, 8), 24);
    assert_eq!(aligned_by(28, 8), 32);
    assert_eq!(aligned_by(28, 4), 28);
    assert_eq!(aligned_by(usize::MAX - 3, 4), usize::MAX - 3);
    assert_eq!(aligned_by(usize::MAX - 9, 8), usize::MAX - 7);
}

#[test]
fn route_query_v4_bytes() {
    let msg = IfIndexMsg::new(AddrBytes::V4([127, 0, 0, 1]), 1);
    assert_eq!(msg.len(), 36);
    assert_eq!(msg.seq(), 1);
    let bytes = msg.to_bytes(LE);
    assert_eq!(
        bytes,
        vec![
            36, 0, 0, 0, 26, 0, 5, 0, 1, 0, 0, 0, 0, 0, 0, 0, // header
            2, 32, 0, 0, 254, 0, 0, 1, 0, 0, 0, 0, // route message
            8, 0, 1, 0, // attribute header
            127, 0, 0, 1, // destination
        ]
    );
}

#[test]
fn route_query_v6_length() {
    let mut addr = [0u8; 16];
    addr[15] = 1;
    let msg = IfIndexMsg::new(AddrBytes::V6(addr), 7);
    let bytes = msg.to_bytes(LE);
    assert_eq!(msg.len(), 48);
    assert_eq!(bytes.len(), 48);
    assert_eq!(u32::from_le_bytes(bytes[0..4].try_into().unwrap()), 48);
    assert_eq!(bytes[16], 10);
    assert_eq!(bytes[17], 128);
    assert_eq!(&bytes[28..32], &[20, 0, 1, 0]);
    assert_eq!(bytes[47], 1);
}

#[test]
fn route_query_big_endian() {
    let bytes = IfIndexMsg::new(AddrBytes::V4([10, 0, 0, 1]), 1).to_bytes(ByteOrder::Big);
    assert_eq!(&bytes[0..8], &[0, 0, 0, 36, 0, 26, 0, 5]);
    assert_eq!(&bytes[8..12], &[0, 0, 0, 1]);
    assert_eq!(&bytes[28..32], &[0, 8, 0, 1]);
}

#[test]
fn link_query_bytes() {
    let msg = IfInfoMsg::new(3, 2);
    assert_eq!(msg.len(), 32);
    assert_eq!(msg.seq(), 2);
    assert_eq!(
        msg.to_bytes(LE),
        vec![
            32, 0, 0, 0, 18, 0, 5, 0, 2, 0, 0, 0, 0, 0, 0, 0, // header
            0, 0, 0xfe, 0xff, 3, 0, 0, 0, 0, 0, 0, 0, 0, 0, 0, 0, // link message
        ]
    );
}

#[test]
fn header_needs_sixteen_bytes() {
    assert!(matches!(NlMsgHdr::try_from(&[0u8; 15], LE), Err(MtuError::NotFound)));
    let bytes = message(RTM_NEWLINK, 9, &[]);
    let hdr = NlMsgHdr::try_from(&bytes, LE).unwrap();
    assert_eq!(hdr.len, 16);
    assert_eq!(hdr.kind, RTM_NEWLINK);
    assert_eq!(hdr.seq, 9);
}

#[test]
fn c_int_needs_four_bytes() {
    assert!(matches!(parse_c_int(&[1, 0, 0], LE), Err(MtuError::NotFound)));
    assert_eq!(parse_c_int(&[0xff, 0xff, 0xff, 0xff], LE).unwrap(), -1);
    assert_eq!(parse_c_int(&[0, 0, 1, 0, 9], LE).unwrap(), 65536);
}

#[test]
fn messages_of_other_requests_are_skipped() {
    let mut datagram = route_answer(5, 9);
    datagram.extend(message(NLMSG_ERROR, 1, &0i32.to_le_bytes()));
    datagram.extend(route_answer(1, 2));
    let (hdr, body) = read_msg_with_seq(&datagram, 1, RTM_NEWROUTE, LE).unwrap().unwrap();
    assert_eq!(hdr.seq, 1);
    assert_eq!(if_index(&body, LE).unwrap(), 2);
}

#[test]
fn datagram_without_answer_is_pending() {
    let datagram = route_answer(5, 9);
    assert!(read_msg_with_seq(&datagram, 1, RTM_NEWROUTE, LE).is_none());
    assert!(read_msg_with_seq(&[], 1, RTM_NEWROUTE, LE).is_none());
}

#[test]
fn kernel_error_is_reported() {
    let datagram = message(NLMSG_ERROR, 1, &(-13i32).to_le_bytes());
    assert!(matches!(
        read_msg_with_seq(&datagram, 1, RTM_NEWROUTE, LE),
        Some(Err(MtuError::Os(13)))
    ));
}

#[test]
fn message_longer_than_datagram_is_malformed() {
    let mut datagram = route_answer(1, 2);
    datagram.truncate(30);
    assert!(matches!(
        read_msg_with_seq(&datagram, 1, RTM_NEWROUTE, LE),
        Some(Err(MtuError::NotFound))
    ));
    let short = message(RTM_NEWROUTE, 1, &[]);
    let mut bad = short.clone();
    bad[0] = 8;
    assert!(matches!(
        read_msg_with_seq(&bad, 1, RTM_NEWROUTE, LE),
        Some(Err(MtuError::NotFound))
    ));
}

#[test]
fn attribute_shorter_than_header_is_error() {
    assert!(matches!(RtAttr::new(&[2, 0, 4, 0, 1, 0, 0, 0], LE), Err(MtuError::NotFound)));
    assert!(matches!(RtAttr::new(&[0, 0, 4, 0], LE), Err(MtuError::NotFound)));
    let mut body = vec![0u8; 12];
    body.extend_from_slice(&[2, 0, 4, 0]);
    body.extend(attr(RTA_OIF, &1i32.to_le_bytes()));
    assert!(matches!(if_index(&body, LE), Err(MtuError::NotFound)));
}

#[test]
fn attribute_longer_than_region_is_error() {
    assert!(matches!(RtAttr::new(&[12, 0, 4, 0, 1, 0, 0, 0], LE), Err(MtuError::NotFound)));
    assert!(matches!(parse_attrs(&[12, 0, 4, 0, 1, 0, 0, 0], LE), Err(MtuError::NotFound)));
}

#[test]
fn attributes_walk_by_aligned_length() {
    let mut region = attr(IFLA_IFNAME, b"lo\0");
    region.extend(attr(IFLA_MTU, &1500i32.to_le_bytes()));
    let attrs = parse_attrs(&region, LE).unwrap();
    assert_eq!(attrs.len(), 2);
    assert_eq!(attrs[0].hdr.kind, IFLA_IFNAME);
    assert_eq!(attrs[0].hdr.len, 7);
    assert_eq!(attrs[0].msg, b"lo\0".to_vec());
    assert_eq!(attrs[1].hdr.kind, IFLA_MTU);
    assert_eq!(attrs[1].msg, 1500i32.to_le_bytes().to_vec());
}

#[test]
fn route_answer_without_interface_is_error() {
    let mut body = vec![0u8; 12];
    body.extend(attr(RTA_DST, &[127, 0, 0, 1]));
    assert!(matches!(if_index(&body, LE), Err(MtuError::NotFound)));
    assert!(matches!(if_index(&[0u8; 4], LE), Err(MtuError::NotFound)));
}

#[test]
fn loopback_link_answer() {
    let datagram = link_answer(2, b"lo\0", 65_536);
    let (_, body) = read_msg_with_seq(&datagram, 2, RTM_NEWLINK, LE).unwrap().unwrap();
    let (name, mtu) = if_name_mtu(&body, LE).unwrap();
    assert_eq!(name, "lo");
    assert_eq!(mtu, 65_536);
}

#[test]
fn ethernet_link_answer() {
    let mut body = vec![0u8; 16];
    body.extend(attr(IFLA_MTU, &1500i32.to_le_bytes()));
    body.extend(attr(99, &[1, 2, 3]));
    body.extend(attr(IFLA_IFNAME, b"eth0\0"));
    let (name, mtu) = if_name_mtu(&body, LE).unwrap();
    assert_eq!(name, "eth0");
    assert_eq!(mtu, 1500);
}

#[test]
fn name_without_nul_is_whole_value() {
    let mut body = vec![0u8; 16];
    body.extend(attr(IFLA_IFNAME, b"wlan0"));
    body.extend(attr(IFLA_MTU, &1400i32.to_le_bytes()));
    let (name, mtu) = if_name_mtu(&body, LE).unwrap();
    assert_eq!(name, "wlan0");
    assert_eq!(mtu, 1400);
}

#[test]
fn link_answer_errors() {
    let mut body = vec![0u8; 16];
    body.extend(attr(IFLA_IFNAME, &[0xff, 0xfe, 0]));
    body.extend(attr(IFLA_MTU, &1500i32.to_le_bytes()));
    assert!(matches!(if_name_mtu(&body, LE), Err(MtuError::InvalidName)));

    let mut body = vec![0u8; 16];
    body.extend(attr(IFLA_IFNAME, b"lo\0"));
    body.extend(attr(IFLA_MTU, &(-1i32).to_le_bytes()));
    assert!(matches!(if_name_mtu(&body, LE), Err(MtuError::Unlikely(_))));

    let mut body = vec![0u8; 16];
    body.extend(attr(IFLA_IFNAME, b"lo\0"));
    assert!(matches!(if_name_mtu(&body, LE), Err(MtuError::NotFound)));
    assert!(matches!(if_name_mtu(&[0u8; 8], LE), Err(MtuError::NotFound)));
}

#[test]
fn resolver_loopback_v4() {
    let (sent, result) = run(
        AddrBytes::V4([127, 0, 0, 1]),
        &[route_answer(ROUTE_QUERY_SEQ, 1), link_answer(LINK_QUERY_SEQ, b"lo\0", 65_536)],
    );
    assert_eq!(sent.len(), 2);
    assert_eq!(sent[0], IfIndexMsg::new(AddrBytes::V4([127, 0, 0, 1]), 1).to_bytes(LE));
    assert_eq!(sent[1], IfInfoMsg::new(1, 2).to_bytes(LE));
    let (name, mtu) = result.unwrap().unwrap();
    assert_eq!(name, "lo");
    assert_eq!(mtu, 65_536);
}

#[test]
fn resolver_skips_unrelated_datagrams() {
    let (_, result) = run(
        AddrBytes::V4([104, 16, 132, 229]),
        &[
            route_answer(77, 5),
            route_answer(ROUTE_QUERY_SEQ, 2),
            link_answer(99, b"other\0", 9000),
            link_answer(LINK_QUERY_SEQ, b"eth0\0", 1500),
        ],
    );
    let (name, mtu) = result.unwrap().unwrap();
    assert_eq!(name, "eth0");
    assert_eq!(mtu, 1500);
}

#[test]
fn resolver_twice_same_result() {
    let answers = [route_answer(ROUTE_QUERY_SEQ, 3), link_answer(LINK_QUERY_SEQ, b"eth1\0", 1500)];
    let (sent1, first) = run(AddrBytes::V4([192, 0, 2, 1]), &answers);
    let (sent2, second) = run(AddrBytes::V4([192, 0, 2, 1]), &answers);
    assert_eq!(sent1, sent2);
    assert_eq!(first.unwrap().unwrap(), second.unwrap().unwrap());
}

#[test]
fn resolver_loopback_v4_and_v6_agree() {
    let mut v6 = [0u8; 16];
    v6[15] = 1;
    let answers = [route_answer(ROUTE_QUERY_SEQ, 1), link_answer(LINK_QUERY_SEQ, b"lo\0", 65_536)];
    let (sent4, r4) = run(AddrBytes::V4([127, 0, 0, 1]), &answers);
    let (sent6, r6) = run(AddrBytes::V6(v6), &answers);
    assert_ne!(sent4[0], sent6[0]);
    assert_eq!(sent4[1], sent6[1]);
    assert_eq!(r4.unwrap().unwrap(), r6.unwrap().unwrap());
}

#[test]
fn resolver_kernel_error_ends_lookup() {
    let (mut resolver, _) = Resolver::start(AddrBytes::V4([127, 0, 0, 1]), LE);
    let step = resolver.on_datagram(&message(NLMSG_ERROR, ROUTE_QUERY_SEQ, &(-101i32).to_le_bytes()));
    assert!(matches!(step, Step::Done(Err(MtuError::Os(101)))));
    assert!(matches!(resolver.phase, Phase::Finished));
}

#[test]
fn resolver_waits_while_pending() {
    let (mut resolver, _) = Resolver::start(AddrBytes::V4([127, 0, 0, 1]), LE);
    assert!(matches!(resolver.on_datagram(&route_answer(9, 1)), Step::Receive));
    assert!(matches!(resolver.phase, Phase::RouteQuerySent));
}

#[test]
fn resolver_empty_read_fails() {
    let (mut resolver, _) = Resolver::start(AddrBytes::V4([127, 0, 0, 1]), LE);
    assert!(matches!(resolver.on_datagram(&[]), Step::Done(Err(MtuError::NoData))));
    assert!(matches!(resolver.phase, Phase::Finished));
}

#[test]
fn attribute_padding_past_end_is_error() {
    assert!(matches!(RtAttr::new(&[5, 0, 1, 0, 9, 9], LE), Err(MtuError::NotFound)));
    assert!(matches!(parse_attrs(&[5, 0, 1, 0, 9, 9], LE), Err(MtuError::NotFound)));
    assert!(RtAttr::new(&[5, 0, 1, 0, 9, 0, 0, 0], LE).is_ok());
}

#[test]
fn short_attribute_after_whole_ones_is_error() {
    let mut body = vec![0u8; 16];
    body.extend(attr(IFLA_IFNAME, b"lo\0"));
    body.extend_from_slice(&[0, 0, 9, 0]);
    body.extend(attr(IFLA_MTU, &65_536i32.to_le_bytes()));
    assert!(matches!(if_name_mtu(&body, LE), Err(MtuError::NotFound)));
}
