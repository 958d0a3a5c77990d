//! The lookup on macOS and the BSDs: a route query on a routing socket,
//! the matching of its answer, and the interface's MTU from the list of
//! interface addresses.
use vstd::prelude::*;
use crate::align::{aligned, aligned_by};
use crate::bytes::{
    i32_at, push_all, push_u16, push_u32, push_zeros, read_i32, read_u16, u16_at, u16_bytes,
    u32_bytes, AddrBytes, ByteOrder,
};
use crate::error::{default_err, MtuError};
use crate::text::{name_string, until_nul};
use vstd::utf8::{decode_utf8, valid_utf8};

verus! {

pub const AF_INET: u8 = 2;

pub const AF_LINK: u8 = 18;

pub const RTM_GET: u8 = 4;

/// Length of a `sockaddr_in`.
pub const SOCKADDR_IN_LEN: u8 = 16;

/// Length of a `sockaddr_in6`.
pub const SOCKADDR_IN6_LEN: u8 = 28;

/// What differs between the routing sockets of the family: the size and
/// field offsets of the route message header, its alignment and constants.
pub struct RoutePlatform {
    /// Size of the route message header.
    pub header_len: usize,
    /// Alignment of the addresses that follow the header.
    pub align: usize,
    /// Version of the routing socket protocol.
    pub version: u8,
    /// The address slots that a query carries.
    pub addrs: i32,
    /// The address family of IPv6.
    pub af_inet6: u8,
    /// Offset of the interface index (`u16`).
    pub index_at: usize,
    /// Offset of the bitmask of address slots (`int`).
    pub addrs_at: usize,
    /// Offset of the sender's process id (`pid_t`).
    pub pid_at: usize,
    /// Offset of the sequence number (`int`).
    pub seq_at: usize,
    /// Offset of the header's own length (`u16`), where the header has one.
    pub hdrlen_at: Option<usize>,
}

impl RoutePlatform {
    /// The layout fits: the fields lie in the header past its first four
    /// bytes (length, version and type), and the header is aligned.
    pub open spec fn wf(self) -> bool {
        &&& self.align > 0
        &&& self.align <= 16
        &&& 16 <= self.header_len <= 1024
        &&& self.header_len % self.align == 0
        &&& 4 <= self.index_at && self.index_at + 2 <= self.header_len
        &&& 4 <= self.addrs_at && self.addrs_at + 4 <= self.header_len
        &&& 4 <= self.pid_at && self.pid_at + 4 <= self.header_len
        &&& 4 <= self.seq_at && self.seq_at + 4 <= self.header_len
        &&& (self.hdrlen_at matches Some(h) ==> 4 <= h && h + 2 <= self.header_len)
    }
}

impl RoutePlatform {
    /// Whether the layout fits (see `wf`).
    pub fn is_wf(&self) -> (r: bool)
        ensures
            r == self.wf(),
    {
        let fields_fit = 4 <= self.index_at && self.index_at <= 1024 && 4 <= self.addrs_at
            && self.addrs_at <= 1024 && 4 <= self.pid_at && self.pid_at <= 1024 && 4
            <= self.seq_at && self.seq_at <= 1024;
        let hdrlen_fits = match self.hdrlen_at {
            Some(h) => 4 <= h && h <= 1024 && h + 2 <= self.header_len,
            None => true,
        };
        self.align > 0 && self.align <= 16 && 16 <= self.header_len && self.header_len <= 1024
            && self.header_len % self.align == 0 && fields_fit && self.index_at + 2
            <= self.header_len && self.addrs_at + 4 <= self.header_len && self.pid_at + 4
            <= self.header_len && self.seq_at + 4 <= self.header_len && hdrlen_fits
    }
}

/// `s` with `b` written over it from `at` on.
pub open spec fn put(s: Seq<u8>, at: int, b: Seq<u8>) -> Seq<u8> {
    s.subrange(0, at) + b + s.subrange(at + b.len(), s.len() as int)
}

/// Writes `src` over `buf` from `at` on.
pub fn put_bytes(buf: &mut Vec<u8>, at: usize, src: &[u8])
    requires
        at + src@.len() <= old(buf)@.len(),
    ensures
        final(buf)@ == put(old(buf)@, at as int, src@),
{
    let n = buf.len();
    let mut i: usize = 0;
    while i < src.len()
        invariant
            n == old(buf)@.len(),
            at + src@.len() <= old(buf)@.len(),
            buf@.len() == old(buf)@.len(),
            i <= src@.len(),
            forall|j: int| 0 <= j < at ==> buf@[j] == old(buf)@[j],
            forall|j: int| at + src@.len() <= j < buf@.len() ==> buf@[j] == old(buf)@[j],
            forall|j: int| 0 <= j < i ==> buf@[at + j] == src@[j],
            forall|j: int| at + i <= j < at + src@.len() ==> buf@[j] == old(buf)@[j],
        decreases src@.len() - i,
    {
        buf.set(at + i, src[i]);
        i = i + 1;
    }
    assert(buf@ =~= put(old(buf)@, at as int, src@));
}

/// The socket address of a destination: length, family, a zero port, the
/// address, and zeros for the remaining fields.
pub open spec fn sockaddr_bytes(remote: AddrBytes, af_inet6: u8) -> Seq<u8> {
    match remote {
        AddrBytes::V4(b) => seq![SOCKADDR_IN_LEN, AF_INET, 0u8, 0u8] + b@ + Seq::new(
            8,
            |i: int| 0u8,
        ),
        AddrBytes::V6(b) => seq![SOCKADDR_IN6_LEN, af_inet6, 0u8, 0u8, 0u8, 0u8, 0u8, 0u8] + b@
            + Seq::new(4, |i: int| 0u8),
    }
}

/// Builds the socket address of a destination.
pub fn sockaddr(remote: &AddrBytes, af_inet6: u8) -> (r: Vec<u8>)
    ensures
        r@ == sockaddr_bytes(*remote, af_inet6),
        r@.len() == r@[0],
        r@.len() <= SOCKADDR_IN6_LEN,
{
    let mut out: Vec<u8> = Vec::new();
    let addr = remote.to_vec();
    match remote {
        AddrBytes::V4(_) => {
            out.push(SOCKADDR_IN_LEN);
            out.push(AF_INET);
            push_zeros(&mut out, 2);
            push_all(&mut out, addr.as_slice());
            push_zeros(&mut out, 8);
        },
        AddrBytes::V6(_) => {
            out.push(SOCKADDR_IN6_LEN);
            out.push(af_inet6);
            push_zeros(&mut out, 6);
            push_all(&mut out, addr.as_slice());
            push_zeros(&mut out, 4);
        },
    }
    assert(out@ =~= sockaddr_bytes(*remote, af_inet6));
    out
}

/// A route query: the header fields that this library sets.
pub struct RouteMessage {
    pub msglen: u16,
    pub version: u8,
    pub kind: u8,
    pub addrs: i32,
    pub seq: i32,
    /// The destination's socket address.
    pub sa: Vec<u8>,
}

impl RouteMessage {
    pub open spec fn spec_msglen(remote: AddrBytes, p: RoutePlatform) -> nat {
        (p.header_len + aligned(sockaddr_bytes(remote, p.af_inet6).len(), p.align as nat)) as nat
    }

    /// The header as sent: zeros but for the fields set.
    pub open spec fn header(self, p: RoutePlatform, order: ByteOrder) -> Seq<u8> {
        let h0 = put(
            Seq::new(p.header_len as nat, |i: int| 0u8),
            0,
            u16_bytes(self.msglen, order) + seq![self.version, self.kind],
        );
        let h1 = put(h0, p.addrs_at as int, u32_bytes(self.addrs as u32, order));
        let h2 = put(h1, p.seq_at as int, u32_bytes(self.seq as u32, order));
        match p.hdrlen_at {
            Some(at) => put(h2, at as int, u16_bytes(p.header_len as u16, order)),
            None => h2,
        }
    }

    /// The bytes sent: the header, then the socket address padded to the
    /// alignment.
    pub open spec fn serialized(self, p: RoutePlatform, order: ByteOrder) -> Seq<u8> {
        self.header(p, order) + self.sa@ + Seq::new(
            (aligned(self.sa@.len(), p.align as nat) - self.sa@.len()) as nat,
            |i: int| 0u8,
        )
    }

    pub fn new(remote: &AddrBytes, seq: i32, p: &RoutePlatform) -> (r: RouteMessage)
        requires
            p.wf(),
        ensures
            r.msglen == RouteMessage::spec_msglen(*remote, *p),
            r.version == p.version,
            r.kind == RTM_GET,
            r.addrs == p.addrs,
            r.seq == seq,
            r.sa@ == sockaddr_bytes(*remote, p.af_inet6),
    {
        let sa = sockaddr(remote, p.af_inet6);
        let sa_len = sa.len();
        proof {
            crate::align::lemma_aligned_least(sa_len as nat, p.align as nat);
        }
        let msglen = p.header_len + aligned_by(sa_len, p.align);
        RouteMessage { msglen: msglen as u16, version: p.version, kind: RTM_GET, addrs: p.addrs, seq, sa }
    }

    pub fn version(&self) -> (r: u8)
        ensures
            r == self.version,
    {
        self.version
    }

    pub fn kind(&self) -> (r: u8)
        ensures
            r == self.kind,
    {
        self.kind
    }

    pub fn len(&self) -> (r: usize)
        ensures
            r == self.msglen,
    {
        self.msglen as usize
    }

    /// The header as sent.
    pub fn header_bytes(&self, p: &RoutePlatform, order: ByteOrder) -> (r: Vec<u8>)
        requires
            p.wf(),
        ensures
            r@ == self.header(*p, order),
    {
        let ghost h = Seq::new(p.header_len as nat, |i: int| 0u8);
        let mut out: Vec<u8> = Vec::new();
        push_zeros(&mut out, p.header_len);
        assert(out@ =~= h);
        let mut field: Vec<u8> = Vec::new();
        push_u16(&mut field, self.msglen, order);
        field.push(self.version);
        field.push(self.kind);
        assert(field@ =~= u16_bytes(self.msglen, order) + seq![self.version, self.kind]);
        put_bytes(&mut out, 0, field.as_slice());
        let mut field: Vec<u8> = Vec::new();
        push_u32(&mut field, self.addrs as u32, order);
        assert(field@ =~= u32_bytes(self.addrs as u32, order));
        put_bytes(&mut out, p.addrs_at, field.as_slice());
        let mut field: Vec<u8> = Vec::new();
        push_u32(&mut field, self.seq as u32, order);
        assert(field@ =~= u32_bytes(self.seq as u32, order));
        put_bytes(&mut out, p.seq_at, field.as_slice());
        match p.hdrlen_at {
            Some(at) => {
                let mut field: Vec<u8> = Vec::new();
                push_u16(&mut field, p.header_len as u16, order);
                assert(field@ =~= u16_bytes(p.header_len as u16, order));
                put_bytes(&mut out, at, field.as_slice());
            },
            None => {},
        }
        out
    }

    /// The bytes to send. The socket address's length must fit its own
    /// length byte.
    pub fn to_bytes(&self, p: &RoutePlatform, order: ByteOrder) -> (r: Vec<u8>)
        requires
            p.wf(),
            self.sa@.len() <= 255,
        ensures
            r@ == self.serialized(*p, order),
    {
        let mut out = self.header_bytes(p, order);
        push_all(&mut out, self.sa.as_slice());
        proof {
            crate::align::lemma_aligned_least(self.sa@.len(), p.align as nat);
        }
        let padded = aligned_by(self.sa.len(), p.align);
        push_zeros(&mut out, padded - self.sa.len());
        out
    }
}

/// Writing at `at` leaves the bytes outside the written range as they were.
pub proof fn lemma_put_keeps(s: Seq<u8>, at: int, b: Seq<u8>, i: int)
    requires
        0 <= at,
        at + b.len() <= s.len(),
        0 <= i < s.len(),
        i < at || i >= at + b.len(),
    ensures
        put(s, at, b).len() == s.len(),
        put(s, at, b)[i] == s[i],
{
}

/// A route query, as `RouteMessage::new` builds it, is sent as exactly as
/// many bytes as it declares, for an IPv4 and an IPv6 destination alike and
/// whatever the platform's alignment; that length is the header's size plus
/// the socket address rounded up to the alignment, and the length field read
/// back from the bytes holds it.
pub proof fn lemma_route_message_length(
    m: RouteMessage,
    remote: AddrBytes,
    p: RoutePlatform,
    order: ByteOrder,
)
    requires
        p.wf(),
        m.msglen == RouteMessage::spec_msglen(remote, p),
        m.sa@ == sockaddr_bytes(remote, p.af_inet6),
    ensures
        m.serialized(p, order).len() == m.msglen,
        m.msglen as nat == RouteMessage::spec_msglen(remote, p),
        u16_at(m.serialized(p, order), 0, order) == m.msglen,
        m.serialized(p, order).len() % (p.align as nat) == 0,
{
    let sa = sockaddr_bytes(remote, p.af_inet6);
    crate::align::lemma_aligned_least(sa.len(), p.align as nat);
    let h0 = put(
        Seq::new(p.header_len as nat, |i: int| 0u8),
        0,
        u16_bytes(m.msglen, order) + seq![m.version, m.kind],
    );
    let h1 = put(h0, p.addrs_at as int, u32_bytes(m.addrs as u32, order));
    let h2 = put(h1, p.seq_at as int, u32_bytes(m.seq as u32, order));
    let h = m.header(p, order);
    crate::bytes::lemma_u16_round_trip(m.msglen, order);
    assert forall|i: int| 0 <= i < 2 implies h[i] == u16_bytes(m.msglen, order)[i] by {
        assert(h0[i] == u16_bytes(m.msglen, order)[i]);
        lemma_put_keeps(h0, p.addrs_at as int, u32_bytes(m.addrs as u32, order), i);
        lemma_put_keeps(h1, p.seq_at as int, u32_bytes(m.seq as u32, order), i);
        match p.hdrlen_at {
            Some(at) => {
                lemma_put_keeps(h2, at as int, u16_bytes(p.header_len as u16, order), i);
            },
            None => {},
        }
    }
    let bytes = m.serialized(p, order);
    assert(bytes[0] == h[0] && bytes[1] == h[1]);
    assert(u16_at(bytes, 0, order) == u16_at(u16_bytes(m.msglen, order), 0, order));
    let c = p.align as int;
    let a = p.header_len as int;
    let b = aligned(sa.len(), p.align as nat) as int;
    vstd::arithmetic::div_mod::lemma_fundamental_div_mod(a, c);
    vstd::arithmetic::div_mod::lemma_fundamental_div_mod(b, c);
    vstd::arithmetic::mul::lemma_mul_is_distributive_add(c, a / c, b / c);
    vstd::arithmetic::mul::lemma_mul_is_commutative(c, a / c + b / c);
    vstd::arithmetic::div_mod::lemma_mod_multiples_basic(a / c + b / c, c);
}

/// The answer is to our query: same protocol version, our process, our
/// sequence number.
pub open spec fn is_our_reply(s: Seq<u8>, p: RoutePlatform, order: ByteOrder, version: u8, seq: i32, pid: i32) -> bool {
    &&& s[2] == version
    &&& i32_at(s, p.pid_at as int, order) == pid
    &&& i32_at(s, p.seq_at as int, order) == seq
}

/// Looks at one message read from the routing socket. `None` means that it
/// answers another query or another process and the next one is to be read;
/// an answer to ours gives its interface index where it has the query's
/// type.
pub fn if_index(reply: &[u8], query: &RouteMessage, pid: i32, p: &RoutePlatform, order: ByteOrder) -> (r: Option<Result<u16, MtuError>>)
    requires
        p.wf(),
    ensures
        reply@.len() < p.header_len ==> r == Some(Err::<u16, MtuError>(MtuError::NotFound)),
        reply@.len() >= p.header_len ==> if is_our_reply(reply@, *p, order, query.version, query.seq, pid) {
            if reply@[3] == query.kind {
                r == Some(Ok::<u16, MtuError>(u16_at(reply@, p.index_at as int, order)))
            } else {
                r == Some(Err::<u16, MtuError>(MtuError::NotFound))
            }
        } else {
            r is None
        },
{
    if reply.len() < p.header_len {
        return Some(Err(default_err()));
    }
    let version = reply[2];
    let kind = reply[3];
    let reply_pid = read_i32(reply, p.pid_at, order);
    let reply_seq = read_i32(reply, p.seq_at, order);
    if version == query.version() && reply_pid == pid && reply_seq == query.seq {
        if kind == query.kind() {
            Some(Ok(read_u16(reply, p.index_at, order)))
        } else {
            Some(Err(default_err()))
        }
    } else {
        None
    }
}

/// An entry of the list of interface addresses.
pub struct IfAddr {
    /// The family of the entry's address; `AF_LINK` for a link-layer entry.
    pub family: u8,
    /// The interface name.
    pub name: Vec<u8>,
    /// The MTU in the entry's interface data, where it has such data.
    pub mtu: Option<u64>,
}

/// The entry is the link-layer entry of the interface `name`.
pub open spec fn is_link_of(e: IfAddr, name: Seq<u8>) -> bool {
    e.family == AF_LINK && e.name@ == name
}

/// The index of the first link-layer entry of the interface `name`.
pub open spec fn link_index(entries: Seq<IfAddr>, name: Seq<u8>) -> Option<int> {
    if exists|i: int| 0 <= i < entries.len() && is_link_of(#[trigger] entries[i], name) {
        Some(
            choose|i: int|
                0 <= i < entries.len() && is_link_of(#[trigger] entries[i], name) && forall|j: int|
                    0 <= j < i ==> !is_link_of(#[trigger] entries[j], name),
        )
    } else {
        None
    }
}

/// Compares two byte strings.
pub fn bytes_eq(a: &[u8], b: &[u8]) -> (r: bool)
    ensures
        r == (a@ == b@),
{
    if a.len() != b.len() {
        return false;
    }
    let mut i: usize = 0;
    while i < a.len()
        invariant
            a@.len() == b@.len(),
            i <= a@.len(),
            forall|j: int| 0 <= j < i ==> a@[j] == b@[j],
        decreases a@.len() - i,
    {
        if a[i] != b[i] {
            return false;
        }
        i = i + 1;
    }
    assert(a@ =~= b@);
    true
}

/// Finds the first link-layer entry of the interface `name`.
pub fn find_link(entries: &Vec<IfAddr>, name: &[u8]) -> (r: Option<usize>)
    ensures
        r matches Some(k) ==> link_index(entries@, name@) == Some(k as int) && k < entries@.len(),
        r is None ==> link_index(entries@, name@) is None,
{
    let mut i: usize = 0;
    while i < entries.len()
        invariant
            i <= entries@.len(),
            forall|j: int| 0 <= j < i ==> !is_link_of(#[trigger] entries@[j], name@),
        decreases entries@.len() - i,
    {
        if entries[i].family == AF_LINK && bytes_eq(entries[i].name.as_slice(), name) {
            let ghost s = entries@;
            assert(is_link_of(s[i as int], name@));
            let ghost k = choose|k: int|
                0 <= k < s.len() && is_link_of(#[trigger] s[k], name@) && forall|j: int|
                    0 <= j < k ==> !is_link_of(#[trigger] s[j], name@);
            assert(exists|k: int|
                0 <= k < s.len() && is_link_of(#[trigger] s[k], name@) && forall|j: int|
                    0 <= j < k ==> !is_link_of(#[trigger] s[j], name@));
            assert(k == i) by {
                if k < i {
                    assert(!is_link_of(s[k], name@));
                } else if k > i {
                    assert(!is_link_of(s[i as int], name@));
                }
            }
            return Some(i);
        }
        i = i + 1;
    }
    None
}

/// The outcome of looking up the MTU of interface `name` (the bytes of its
/// name up to the first NUL) in the list of interface addresses: the first
/// link-layer entry of that name decides.
pub open spec fn link_mtu_result(name: Seq<u8>, entries: Seq<IfAddr>, r: Result<(String, usize), MtuError>) -> bool {
    if !valid_utf8(name) {
        r == Err::<(String, usize), MtuError>(MtuError::InvalidName)
    } else {
        match link_index(entries, name) {
            None => r == Err::<(String, usize), MtuError>(MtuError::NotFound),
            Some(i) => match entries[i].mtu {
                Some(x) => if x <= usize::MAX {
                    r matches Ok((s, m)) && s@ == decode_utf8(name) && m == x
                } else {
                    r == Err::<(String, usize), MtuError>(MtuError::NotFound)
                },
                None => r == Err::<(String, usize), MtuError>(MtuError::NotFound),
            },
        }
    }
}

/// Name and MTU of the interface whose name `if_indextoname` wrote into
/// `name_buf`, with the MTU taken from the interface's link-layer entry in
/// the list of interface addresses.
pub fn if_name_mtu(name_buf: &[u8], entries: &Vec<IfAddr>) -> (r: Result<(String, usize), MtuError>)
    ensures
        link_mtu_result(until_nul(name_buf@), entries@, r),
{
    let name = crate::text::strip_nul(name_buf);
    let s = match name_string(name.as_slice()) {
        Some(s) => s,
        None => {
            return Err(MtuError::InvalidName);
        },
    };
    match find_link(entries, name.as_slice()) {
        Some(i) => match entries[i].mtu {
            Some(x) => if x <= usize::MAX as u64 {
                Ok((s, x as usize))
            } else {
                Err(default_err())
            },
            None => Err(default_err()),
        },
        None => Err(default_err()),
    }
}

} // verus!
