//! The netlink messages of a route lookup (Linux): the queries, and the
//! walk over the answers and their attributes.
use vstd::prelude::*;
use crate::align::{aligned, aligned_by};
use crate::bytes::{
    i32_at, push_u16, push_u32, push_zeros, read_i32, read_u16, read_u32, u16_at, u16_bytes,
    u32_at, u32_bytes, AddrBytes, ByteOrder,
};
use crate::error::{default_err, unlikely_err, MtuError};
use crate::text::{name_string, strip_nul, until_nul};
use vstd::utf8::{decode_utf8, valid_utf8};

verus! {

/// Size of a netlink message header.
pub const NLMSGHDR_LEN: usize = 16;

/// Size of the body of a route message.
pub const RTMSG_LEN: usize = 12;

/// Size of a route attribute header.
pub const RTATTR_LEN: usize = 4;

/// Size of the body of a link message.
pub const IFINFOMSG_LEN: usize = 16;

/// Alignment of route attributes.
pub const RTA_ALIGNTO: usize = 4;

/// Size of the buffer that one read of the socket fills (see netlink(7)).
pub const NETLINK_BUFFER_SIZE: usize = 8192;

pub const AF_UNSPEC: u8 = 0;

pub const AF_INET: u8 = 2;

pub const AF_INET6: u8 = 10;

pub const NLMSG_ERROR: u16 = 2;

pub const NLM_F_REQUEST: u16 = 1;

pub const NLM_F_ACK: u16 = 4;

pub const RTM_NEWLINK: u16 = 16;

pub const RTM_GETLINK: u16 = 18;

pub const RTM_NEWROUTE: u16 = 24;

pub const RTM_GETROUTE: u16 = 26;

pub const RT_TABLE_MAIN: u8 = 254;

pub const RT_SCOPE_UNIVERSE: u8 = 0;

pub const RTN_UNICAST: u8 = 1;

pub const RTA_DST: u16 = 1;

pub const RTA_OIF: u16 = 4;

pub const ARPHRD_NONE: u16 = 0xFFFE;

pub const IFLA_IFNAME: u16 = 3;

pub const IFLA_MTU: u16 = 4;

/// A netlink message header.
pub struct NlMsgHdr {
    pub len: u32,
    pub kind: u16,
    pub flags: u16,
    pub seq: u32,
    pub pid: u32,
}

impl NlMsgHdr {
    pub open spec fn bytes(self, order: ByteOrder) -> Seq<u8> {
        u32_bytes(self.len, order) + u16_bytes(self.kind, order) + u16_bytes(self.flags, order)
            + u32_bytes(self.seq, order) + u32_bytes(self.pid, order)
    }

    /// The header stored at `s[i..i + NLMSGHDR_LEN]`.
    pub open spec fn at(s: Seq<u8>, i: int, order: ByteOrder) -> NlMsgHdr {
        NlMsgHdr {
            len: u32_at(s, i, order),
            kind: u16_at(s, i + 4, order),
            flags: u16_at(s, i + 6, order),
            seq: u32_at(s, i + 8, order),
            pid: u32_at(s, i + 12, order),
        }
    }

    pub fn encode(&self, out: &mut Vec<u8>, order: ByteOrder)
        ensures
            final(out)@ == old(out)@ + self.bytes(order),
    {
        push_u32(out, self.len, order);
        push_u16(out, self.kind, order);
        push_u16(out, self.flags, order);
        push_u32(out, self.seq, order);
        push_u32(out, self.pid, order);
        assert(final(out)@ =~= old(out)@ + self.bytes(order));
    }

    /// Reads the header at `buf[i..i + NLMSGHDR_LEN]`.
    pub fn read_at(buf: &[u8], i: usize, order: ByteOrder) -> (r: NlMsgHdr)
        requires
            i + NLMSGHDR_LEN <= buf@.len(),
        ensures
            r == NlMsgHdr::at(buf@, i as int, order),
    {
        let n = buf.len();
        assert(i + NLMSGHDR_LEN <= n);
        NlMsgHdr {
            len: read_u32(buf, i, order),
            kind: read_u16(buf, i + 4, order),
            flags: read_u16(buf, i + 6, order),
            seq: read_u32(buf, i + 8, order),
            pid: read_u32(buf, i + 12, order),
        }
    }

    /// The header at the start of `buf`, where `buf` is long enough to hold one.
    pub fn try_from(buf: &[u8], order: ByteOrder) -> (r: Result<NlMsgHdr, MtuError>)
        ensures
            buf@.len() < NLMSGHDR_LEN ==> r == Err::<NlMsgHdr, MtuError>(MtuError::NotFound),
            buf@.len() >= NLMSGHDR_LEN ==> r == Ok::<NlMsgHdr, MtuError>(NlMsgHdr::at(buf@, 0, order)),
    {
        if buf.len() < NLMSGHDR_LEN {
            return Err(default_err());
        }
        Ok(NlMsgHdr::read_at(buf, 0, order))
    }
}

/// The body of a route message.
pub struct RtMsg {
    pub family: u8,
    pub dst_len: u8,
    pub src_len: u8,
    pub tos: u8,
    pub table: u8,
    pub protocol: u8,
    pub scope: u8,
    pub kind: u8,
    pub flags: u32,
}

impl RtMsg {
    pub open spec fn bytes(self, order: ByteOrder) -> Seq<u8> {
        seq![
            self.family,
            self.dst_len,
            self.src_len,
            self.tos,
            self.table,
            self.protocol,
            self.scope,
            self.kind,
        ] + u32_bytes(self.flags, order)
    }

    pub fn encode(&self, out: &mut Vec<u8>, order: ByteOrder)
        ensures
            final(out)@ == old(out)@ + self.bytes(order),
    {
        out.push(self.family);
        out.push(self.dst_len);
        out.push(self.src_len);
        out.push(self.tos);
        out.push(self.table);
        out.push(self.protocol);
        out.push(self.scope);
        out.push(self.kind);
        push_u32(out, self.flags, order);
        assert(final(out)@ =~= old(out)@ + self.bytes(order));
    }
}

/// A route attribute header: the attribute's length, header included, and
/// its type.
pub struct RtAttrHdr {
    pub len: u16,
    pub kind: u16,
}

impl RtAttrHdr {
    pub open spec fn bytes(self, order: ByteOrder) -> Seq<u8> {
        u16_bytes(self.len, order) + u16_bytes(self.kind, order)
    }

    pub fn encode(&self, out: &mut Vec<u8>, order: ByteOrder)
        ensures
            final(out)@ == old(out)@ + self.bytes(order),
    {
        push_u16(out, self.len, order);
        push_u16(out, self.kind, order);
        assert(final(out)@ =~= old(out)@ + self.bytes(order));
    }
}

/// The body of a link message.
pub struct IfInfoHdr {
    pub family: u8,
    pub kind: u16,
    pub index: i32,
    pub flags: u32,
    pub change: u32,
}

impl IfInfoHdr {
    pub open spec fn bytes(self, order: ByteOrder) -> Seq<u8> {
        seq![self.family, 0u8] + u16_bytes(self.kind, order) + u32_bytes(self.index as u32, order)
            + u32_bytes(self.flags, order) + u32_bytes(self.change, order)
    }

    pub fn encode(&self, out: &mut Vec<u8>, order: ByteOrder)
        ensures
            final(out)@ == old(out)@ + self.bytes(order),
    {
        out.push(self.family);
        out.push(0u8);
        push_u16(out, self.kind, order);
        push_u32(out, self.index as u32, order);
        push_u32(out, self.flags, order);
        push_u32(out, self.change, order);
        assert(final(out)@ =~= old(out)@ + self.bytes(order));
    }
}

/// The query for the interface index towards a destination: a route request
/// that carries the destination as its one attribute.
pub struct IfIndexMsg {
    pub nlmsg: NlMsgHdr,
    pub rtm: RtMsg,
    pub rt: RtAttrHdr,
    pub addr: AddrBytes,
}

impl IfIndexMsg {
    /// The message as laid out in memory, with room for an IPv6 address.
    pub open spec fn image(self, order: ByteOrder) -> Seq<u8> {
        self.nlmsg.bytes(order) + self.rtm.bytes(order) + self.rt.bytes(order) + self.addr.padded()
    }

    /// The bytes that are sent: the image up to the declared length.
    pub open spec fn serialized(self, order: ByteOrder) -> Seq<u8> {
        self.image(order).take(self.nlmsg.len as int)
    }

    pub open spec fn spec_new(remote: AddrBytes, nlmsg_seq: u32) -> IfIndexMsg {
        IfIndexMsg {
            nlmsg: NlMsgHdr {
                len: (NLMSGHDR_LEN + RTMSG_LEN + RTATTR_LEN + remote.spec_len()) as u32,
                kind: RTM_GETROUTE,
                flags: NLM_F_REQUEST | NLM_F_ACK,
                seq: nlmsg_seq,
                pid: 0,
            },
            rtm: RtMsg {
                family: match remote {
                    AddrBytes::V4(_) => AF_INET,
                    AddrBytes::V6(_) => AF_INET6,
                },
                dst_len: match remote {
                    AddrBytes::V4(_) => 32u8,
                    AddrBytes::V6(_) => 128u8,
                },
                src_len: 0,
                tos: 0,
                table: RT_TABLE_MAIN,
                protocol: 0,
                scope: RT_SCOPE_UNIVERSE,
                kind: RTN_UNICAST,
                flags: 0,
            },
            rt: RtAttrHdr { len: (RTATTR_LEN + remote.spec_len()) as u16, kind: RTA_DST },
            addr: remote,
        }
    }

    pub fn new(remote: AddrBytes, nlmsg_seq: u32) -> (r: IfIndexMsg)
        ensures
            r == IfIndexMsg::spec_new(remote, nlmsg_seq),
    {
        let addr_len = remote.len();
        let (family, dst_len) = match remote {
            AddrBytes::V4(_) => (AF_INET, 32u8),
            AddrBytes::V6(_) => (AF_INET6, 128u8),
        };
        IfIndexMsg {
            nlmsg: NlMsgHdr {
                len: (NLMSGHDR_LEN + RTMSG_LEN + RTATTR_LEN + addr_len) as u32,
                kind: RTM_GETROUTE,
                flags: NLM_F_REQUEST | NLM_F_ACK,
                seq: nlmsg_seq,
                pid: 0,
            },
            rtm: RtMsg {
                family,
                dst_len,
                src_len: 0,
                tos: 0,
                table: RT_TABLE_MAIN,
                protocol: 0,
                scope: RT_SCOPE_UNIVERSE,
                kind: RTN_UNICAST,
                flags: 0,
            },
            rt: RtAttrHdr { len: (RTATTR_LEN + addr_len) as u16, kind: RTA_DST },
            addr: remote,
        }
    }

    pub open spec fn spec_len(self) -> nat {
        self.nlmsg.len as nat
    }

    /// The declared length of the message.
    pub fn len(&self) -> (r: usize)
        ensures
            r == self.spec_len(),
    {
        self.nlmsg.len as usize
    }

    /// The sequence number of the message.
    pub fn seq(&self) -> (r: u32)
        ensures
            r == self.nlmsg.seq,
    {
        self.nlmsg.seq
    }

    /// The bytes to send.
    pub fn to_bytes(&self, order: ByteOrder) -> (r: Vec<u8>)
        requires
            self.spec_len() <= NLMSGHDR_LEN + RTMSG_LEN + RTATTR_LEN + 16,
        ensures
            r@ == self.serialized(order),
    {
        let mut out: Vec<u8> = Vec::new();
        self.nlmsg.encode(&mut out, order);
        self.rtm.encode(&mut out, order);
        self.rt.encode(&mut out, order);
        let addr = self.addr.to_vec();
        crate::bytes::push_all(&mut out, addr.as_slice());
        push_zeros(&mut out, 16 - self.addr.len());
        assert(out@ =~= self.image(order));
        out.truncate(self.len());
        assert(out@ =~= self.serialized(order));
        out
    }
}

/// The query for the name and MTU of an interface, by its index.
pub struct IfInfoMsg {
    pub nlmsg: NlMsgHdr,
    pub ifim: IfInfoHdr,
}

impl IfInfoMsg {
    pub open spec fn image(self, order: ByteOrder) -> Seq<u8> {
        self.nlmsg.bytes(order) + self.ifim.bytes(order)
    }

    pub open spec fn serialized(self, order: ByteOrder) -> Seq<u8> {
        self.image(order).take(self.nlmsg.len as int)
    }

    pub open spec fn spec_new(if_index: i32, nlmsg_seq: u32) -> IfInfoMsg {
        IfInfoMsg {
            nlmsg: NlMsgHdr {
                len: (NLMSGHDR_LEN + IFINFOMSG_LEN) as u32,
                kind: RTM_GETLINK,
                flags: NLM_F_REQUEST | NLM_F_ACK,
                seq: nlmsg_seq,
                pid: 0,
            },
            ifim: IfInfoHdr {
                family: AF_UNSPEC,
                kind: ARPHRD_NONE,
                index: if_index,
                flags: 0,
                change: 0,
            },
        }
    }

    pub fn new(if_index: i32, nlmsg_seq: u32) -> (r: IfInfoMsg)
        ensures
            r == IfInfoMsg::spec_new(if_index, nlmsg_seq),
    {
        IfInfoMsg {
            nlmsg: NlMsgHdr {
                len: (NLMSGHDR_LEN + IFINFOMSG_LEN) as u32,
                kind: RTM_GETLINK,
                flags: NLM_F_REQUEST | NLM_F_ACK,
                seq: nlmsg_seq,
                pid: 0,
            },
            ifim: IfInfoHdr {
                family: AF_UNSPEC,
                kind: ARPHRD_NONE,
                index: if_index,
                flags: 0,
                change: 0,
            },
        }
    }

    pub open spec fn spec_len(self) -> nat {
        self.nlmsg.len as nat
    }

    /// The declared length of the message.
    pub fn len(&self) -> (r: usize)
        ensures
            r == self.spec_len(),
    {
        self.nlmsg.len as usize
    }

    /// The sequence number of the message.
    pub fn seq(&self) -> (r: u32)
        ensures
            r == self.nlmsg.seq,
    {
        self.nlmsg.seq
    }

    /// The bytes to send.
    pub fn to_bytes(&self, order: ByteOrder) -> (r: Vec<u8>)
        requires
            self.spec_len() <= NLMSGHDR_LEN + IFINFOMSG_LEN,
        ensures
            r@ == self.serialized(order),
    {
        let mut out: Vec<u8> = Vec::new();
        self.nlmsg.encode(&mut out, order);
        self.ifim.encode(&mut out, order);
        assert(out@ =~= self.image(order));
        out.truncate(self.len());
        assert(out@ =~= self.serialized(order));
        out
    }
}

/// Reads a C `int` from the start of `buf`.
pub fn parse_c_int(buf: &[u8], order: ByteOrder) -> (r: Result<i32, MtuError>)
    ensures
        buf@.len() < 4 ==> r == Err::<i32, MtuError>(MtuError::NotFound),
        buf@.len() >= 4 ==> r == Ok::<i32, MtuError>(i32_at(buf@, 0, order)),
{
    if buf.len() < 4 {
        return Err(default_err());
    }
    Ok(read_i32(buf, 0, order))
}

/// The error for an error report of the kernel that carries `code`, the
/// negated `errno`.
pub open spec fn kernel_error(code: i32) -> MtuError {
    if code == i32::MIN {
        MtuError::NotFound
    } else {
        MtuError::Os(-code as i32)
    }
}

/// What the messages of one datagram say about an outstanding request.
pub enum Received {
    /// No message answers the request: read on.
    Pending,
    /// The answer: its header and what follows the header.
    Message(NlMsgHdr, Seq<u8>),
    /// The kernel reported this (negated) error code for the request.
    Kernel(i32),
    /// A message is cut short or declares a length that does not fit.
    Malformed,
}

/// Walks the messages in `s` for the answer to the request with sequence
/// number `seq`, of type `kind`. Messages with another sequence number, and
/// acknowledgements, are passed over.
pub open spec fn scan(s: Seq<u8>, seq: u32, kind: u16, order: ByteOrder) -> Received
    decreases s.len(),
{
    if s.len() < NLMSGHDR_LEN {
        Received::Pending
    } else {
        let h = NlMsgHdr::at(s, 0, order);
        if h.len < NLMSGHDR_LEN || h.len > s.len() {
            Received::Malformed
        } else {
            let body = s.subrange(NLMSGHDR_LEN as int, h.len as int);
            let rest = s.subrange(h.len as int, s.len() as int);
            if h.seq != seq {
                scan(rest, seq, kind, order)
            } else if h.kind == NLMSG_ERROR {
                if body.len() < 4 {
                    Received::Malformed
                } else if i32_at(body, 0, order) != 0 {
                    Received::Kernel(i32_at(body, 0, order))
                } else {
                    scan(rest, seq, kind, order)
                }
            } else if h.kind == kind {
                Received::Message(h, body)
            } else {
                scan(rest, seq, kind, order)
            }
        }
    }
}

/// Looks through the messages of one datagram for the answer to the request
/// with sequence number `seq`, of type `kind`. `None` means that the
/// datagram holds no answer and the next one is to be read.
pub fn read_msg_with_seq(buf: &[u8], seq: u32, kind: u16, order: ByteOrder) -> (r: Option<
    Result<(NlMsgHdr, Vec<u8>), MtuError>,
>)
    ensures
        match scan(buf@, seq, kind, order) {
            Received::Pending => r is None,
            Received::Message(h, body) => r matches Some(Ok((h2, v))) && h2 == h && v@ == body,
            Received::Kernel(code) => r == Some(
                Err::<(NlMsgHdr, Vec<u8>), MtuError>(kernel_error(code)),
            ),
            Received::Malformed => r == Some(Err::<(NlMsgHdr, Vec<u8>), MtuError>(MtuError::NotFound)),
        },
{
    let n = buf.len();
    let mut pos: usize = 0;
    assert(buf@.subrange(0, n as int) =~= buf@);
    while n - pos >= NLMSGHDR_LEN
        invariant
            n == buf@.len(),
            pos <= n,
            scan(buf@, seq, kind, order) == scan(buf@.subrange(pos as int, n as int), seq, kind, order),
        decreases n - pos,
    {
        let ghost s = buf@.subrange(pos as int, n as int);
        let hdr = NlMsgHdr::read_at(buf, pos, order);
        assert(hdr == NlMsgHdr::at(s, 0, order));
        if (hdr.len as usize) < NLMSGHDR_LEN || (hdr.len as usize) > n - pos {
            return Some(Err(default_err()));
        }
        let end = pos + hdr.len as usize;
        let body = vstd::slice::slice_subrange(buf, pos + NLMSGHDR_LEN, end);
        assert(body@ =~= s.subrange(NLMSGHDR_LEN as int, hdr.len as int));
        assert(buf@.subrange(end as int, n as int) =~= s.subrange(hdr.len as int, s.len() as int));
        if hdr.seq == seq {
            if hdr.kind == NLMSG_ERROR {
                let code = match parse_c_int(body, order) {
                    Ok(c) => c,
                    Err(e) => {
                        return Some(Err(e));
                    },
                };
                if code != 0 {
                    if code == i32::MIN {
                        return Some(Err(default_err()));
                    }
                    return Some(Err(MtuError::Os(-code)));
                }
            } else if hdr.kind == kind {
                let v = vstd::slice::slice_to_vec(body);
                return Some(Ok((hdr, v)));
            }
        }
        pos = end;
    }
    None
}

/// A route attribute: its header and its value.
pub struct RtAttr {
    pub hdr: RtAttrHdr,
    pub msg: Vec<u8>,
}

impl RtAttr {
    /// The attribute's type and value.
    pub open spec fn model(self) -> (u16, Seq<u8>) {
        (self.hdr.kind, self.msg@)
    }

    /// The attribute at the start of `bytes`. Its declared length must cover
    /// its own header, and that length rounded up to the attribute alignment
    /// must fit in `bytes`.
    pub fn new(bytes: &[u8], order: ByteOrder) -> (r: Result<RtAttr, MtuError>)
        ensures
            r is Ok <==> (bytes@.len() >= RTATTR_LEN && RTATTR_LEN <= u16_at(bytes@, 0, order)
                && aligned(u16_at(bytes@, 0, order) as nat, RTA_ALIGNTO as nat) <= bytes@.len()),
            r matches Ok(a) ==> a.hdr == (RtAttrHdr {
                len: u16_at(bytes@, 0, order),
                kind: u16_at(bytes@, 2, order),
            }) && a.msg@ == bytes@.subrange(RTATTR_LEN as int, a.hdr.len as int),
            r matches Err(e) ==> e is NotFound,
    {
        let n = bytes.len();
        if n < RTATTR_LEN {
            return Err(default_err());
        }
        let len = read_u16(bytes, 0, order);
        let kind = read_u16(bytes, 2, order);
        if (len as usize) < RTATTR_LEN || aligned_by(len as usize, RTA_ALIGNTO) > n {
            return Err(default_err());
        }
        proof {
            crate::align::lemma_aligned_least(len as nat, RTA_ALIGNTO as nat);
        }
        let msg = vstd::slice::slice_to_vec(
            vstd::slice::slice_subrange(bytes, RTATTR_LEN, len as usize),
        );
        Ok(RtAttr { hdr: RtAttrHdr { len, kind }, msg })
    }
}

/// The models of a list of attributes.
pub open spec fn models(v: Seq<RtAttr>) -> Seq<(u16, Seq<u8>)> {
    v.map_values(|a: RtAttr| a.model())
}

/// The attributes (type and value) in `s`, one after another, each starting
/// at the previous one's length rounded up to four bytes. `None` where an
/// attribute declares a length shorter than its header, or one that, rounded
/// up, runs past the end of `s`.
pub open spec fn attr_walk(s: Seq<u8>, order: ByteOrder) -> Option<Seq<(u16, Seq<u8>)>>
    decreases s.len(),
{
    if s.len() < RTATTR_LEN {
        Some(Seq::empty())
    } else {
        let len = u16_at(s, 0, order);
        let next = aligned(len as nat, RTA_ALIGNTO as nat);
        if len < RTATTR_LEN || next > s.len() {
            None
        } else {
            let attr = (u16_at(s, 2, order), s.subrange(RTATTR_LEN as int, len as int));
            // `next` is at least `len`, hence positive; the test makes the
            // walk's progress evident to the termination check.
            if next == 0 {
                None
            } else {
                match attr_walk(s.subrange(next as int, s.len() as int), order) {
                    Some(t) => Some(seq![attr] + t),
                    None => None,
                }
            }
        }
    }
}

/// Puts `head` in front of the attributes of `tail`, if there are any.
pub open spec fn prepend(head: Seq<(u16, Seq<u8>)>, tail: Option<Seq<(u16, Seq<u8>)>>) -> Option<
    Seq<(u16, Seq<u8>)>,
> {
    match tail {
        Some(t) => Some(head + t),
        None => None,
    }
}

/// Parses all attributes of `buf`.
pub fn parse_attrs(buf: &[u8], order: ByteOrder) -> (r: Result<Vec<RtAttr>, MtuError>)
    ensures
        match attr_walk(buf@, order) {
            Some(t) => r matches Ok(v) && models(v@) == t,
            None => r == Err::<Vec<RtAttr>, MtuError>(MtuError::NotFound),
        },
{
    let n = buf.len();
    let mut pos: usize = 0;
    let mut out: Vec<RtAttr> = Vec::new();
    proof {
        assert(buf@.subrange(0, n as int) =~= buf@);
        assert(models(out@) =~= Seq::empty());
    }
    while n - pos >= RTATTR_LEN
        invariant
            n == buf@.len(),
            pos <= n,
            attr_walk(buf@, order) == prepend(models(out@), attr_walk(buf@.subrange(pos as int, n as int), order)),
        decreases n - pos,
    {
        let ghost s = buf@.subrange(pos as int, n as int);
        let attr = match RtAttr::new(vstd::slice::slice_subrange(buf, pos, n), order) {
            Ok(a) => a,
            Err(e) => {
                return Err(e);
            },
        };
        let next = aligned_by(attr.hdr.len as usize, RTA_ALIGNTO);
        proof {
            crate::align::lemma_aligned_least(attr.hdr.len as nat, RTA_ALIGNTO as nat);
            assert(buf@.subrange((pos + next) as int, n as int) =~= s.subrange(next as int, s.len() as int));
            let tail = attr_walk(buf@.subrange((pos + next) as int, n as int), order);
            assert(models(out@.push(attr)) =~= models(out@) + seq![attr.model()]);
            match tail {
                Some(t) => {
                    assert(models(out@) + (seq![attr.model()] + t) =~= (models(out@) + seq![attr.model()]) + t);
                },
                None => {},
            }
        }
        out.push(attr);
        pos = pos + next;
    }
    proof {
        let s = buf@.subrange(pos as int, n as int);
        assert(models(out@) + Seq::<(u16, Seq<u8>)>::empty() =~= models(out@));
    }
    Ok(out)
}

/// The value of the first attribute of type `kind`.
pub open spec fn first_of_kind(attrs: Seq<(u16, Seq<u8>)>, kind: u16) -> Option<Seq<u8>>
    decreases attrs.len(),
{
    if attrs.len() == 0 {
        None
    } else if attrs[0].0 == kind {
        Some(attrs[0].1)
    } else {
        first_of_kind(attrs.drop_first(), kind)
    }
}

/// The output interface index in the body of a route answer: the first
/// output-interface attribute, read as a C `int`.
pub open spec fn route_if_index(reply: Seq<u8>, order: ByteOrder) -> Option<i32> {
    if reply.len() < RTMSG_LEN {
        None
    } else {
        match attr_walk(reply.subrange(RTMSG_LEN as int, reply.len() as int), order) {
            None => None,
            Some(attrs) => match first_of_kind(attrs, RTA_OIF) {
                None => None,
                Some(v) => if v.len() < 4 {
                    None
                } else {
                    Some(i32_at(v, 0, order))
                },
            },
        }
    }
}

/// Finds the first attribute of type `kind`.
pub fn find_attr(attrs: &Vec<RtAttr>, kind: u16) -> (r: Option<usize>)
    ensures
        match first_of_kind(models(attrs@), kind) {
            Some(v) => r matches Some(i) && i < attrs@.len() && attrs@[i as int].msg@ == v,
            None => r is None,
        },
{
    let ghost m = models(attrs@);
    let mut i: usize = 0;
    assert(m.subrange(0, m.len() as int) =~= m);
    while i < attrs.len()
        invariant
            i <= attrs@.len(),
            m == models(attrs@),
            first_of_kind(m, kind) == first_of_kind(m.subrange(i as int, m.len() as int), kind),
        decreases attrs@.len() - i,
    {
        let ghost rest = m.subrange(i as int, m.len() as int);
        assert(rest[0] == attrs@[i as int].model());
        if attrs[i].hdr.kind == kind {
            return Some(i);
        }
        assert(rest.drop_first() =~= m.subrange(i + 1, m.len() as int));
        i = i + 1;
    }
    None
}

/// The interface index in the body of an answer to an `IfIndexMsg` (what
/// follows the netlink header).
pub fn if_index(reply: &[u8], order: ByteOrder) -> (r: Result<i32, MtuError>)
    ensures
        match route_if_index(reply@, order) {
            Some(i) => r == Ok::<i32, MtuError>(i),
            None => r == Err::<i32, MtuError>(MtuError::NotFound),
        },
{
    let n = reply.len();
    if n < RTMSG_LEN {
        return Err(default_err());
    }
    let attrs = parse_attrs(vstd::slice::slice_subrange(reply, RTMSG_LEN, n), order)?;
    match find_attr(&attrs, RTA_OIF) {
        Some(i) => parse_c_int(attrs[i].msg.as_slice(), order),
        None => Err(default_err()),
    }
}

/// What the attributes of a link answer give.
pub enum LinkInfo {
    /// The interface name's bytes and the MTU.
    Found(Seq<u8>, nat),
    /// Name or MTU is missing, or the MTU attribute is cut short.
    Missing,
    /// The MTU is negative.
    NegativeMtu,
    /// The name is not valid UTF-8.
    BadName,
}

/// Walks link attributes, with the name and MTU seen so far, until both are
/// known. A name attribute's value is read up to its first NUL, if it holds
/// one.
pub open spec fn link_info(
    attrs: Seq<(u16, Seq<u8>)>,
    order: ByteOrder,
    name: Option<Seq<u8>>,
    mtu: Option<nat>,
) -> LinkInfo
    decreases attrs.len(),
{
    if attrs.len() == 0 {
        LinkInfo::Missing
    } else {
        let (k, v) = attrs[0];
        if k == IFLA_IFNAME && !valid_utf8(until_nul(v)) {
            LinkInfo::BadName
        } else if k == IFLA_MTU && v.len() < 4 {
            LinkInfo::Missing
        } else if k == IFLA_MTU && i32_at(v, 0, order) < 0 {
            LinkInfo::NegativeMtu
        } else {
            let name2 = if k == IFLA_IFNAME {
                Some(until_nul(v))
            } else {
                name
            };
            let mtu2 = if k == IFLA_MTU {
                Some(i32_at(v, 0, order) as nat)
            } else {
                mtu
            };
            if name2 is Some && mtu2 is Some {
                LinkInfo::Found(name2->0, mtu2->0)
            } else {
                link_info(attrs.drop_first(), order, name2, mtu2)
            }
        }
    }
}

/// Name and MTU in the body of an answer to an `IfInfoMsg` (what follows
/// the netlink header).
pub open spec fn link_name_mtu(reply: Seq<u8>, order: ByteOrder) -> LinkInfo {
    if reply.len() < IFINFOMSG_LEN {
        LinkInfo::Missing
    } else {
        match attr_walk(reply.subrange(IFINFOMSG_LEN as int, reply.len() as int), order) {
            None => LinkInfo::Missing,
            Some(attrs) => link_info(attrs, order, None, None),
        }
    }
}

/// The error that a link answer without a usable name and MTU gives.
pub open spec fn link_error_matches(info: LinkInfo, e: MtuError) -> bool {
    match info {
        LinkInfo::Found(_, _) => false,
        LinkInfo::Missing => e is NotFound,
        LinkInfo::NegativeMtu => e is Unlikely,
        LinkInfo::BadName => e is InvalidName,
    }
}

/// The interface name and MTU in the body of an answer to an `IfInfoMsg`.
pub fn if_name_mtu(reply: &[u8], order: ByteOrder) -> (r: Result<(String, usize), MtuError>)
    ensures
        match link_name_mtu(reply@, order) {
            LinkInfo::Found(name, mtu) => r matches Ok((s, m)) && s@ == decode_utf8(name) && m
                == mtu,
            info => r matches Err(e) && link_error_matches(info, e),
        },
{
    let n = reply.len();
    if n < IFINFOMSG_LEN {
        return Err(default_err());
    }
    let region = vstd::slice::slice_subrange(reply, IFINFOMSG_LEN, n);
    let attrs = match parse_attrs(region, order) {
        Ok(a) => a,
        Err(e) => {
            return Err(e);
        },
    };
    let ghost m = models(attrs@);
    assert(link_name_mtu(reply@, order) == link_info(m, order, None, None));
    let mut ifname: Option<String> = None;
    let ghost mut name_bytes: Option<Seq<u8>> = None;
    let mut mtu: Option<usize> = None;
    let mut i: usize = 0;
    assert(m.subrange(0, m.len() as int) =~= m);
    while i < attrs.len()
        invariant
            i <= attrs@.len(),
            m == models(attrs@),
            link_name_mtu(reply@, order) == link_info(m, order, None, None),
            ifname is Some <==> name_bytes is Some,
            ifname matches Some(s) ==> s@ == decode_utf8(name_bytes->0),
            !(ifname is Some && mtu is Some),
            link_info(m, order, None, None) == link_info(
                m.subrange(i as int, m.len() as int),
                order,
                name_bytes,
                match mtu {
                    Some(x) => Some(x as nat),
                    None => None,
                },
            ),
        decreases attrs@.len() - i,
    {
        let ghost rest = m.subrange(i as int, m.len() as int);
        let ghost mtu_seen = match mtu {
            Some(x) => Some(x as nat),
            None => None,
        };
        assert(rest.len() > 0 && rest[0] == attrs@[i as int].model());
        let attr = &attrs[i];
        if attr.hdr.kind == IFLA_IFNAME {
            let bytes = strip_nul(attr.msg.as_slice());
            match name_string(bytes.as_slice()) {
                Some(s) => {
                    ifname = Some(s);
                    proof {
                        name_bytes = Some(bytes@);
                    }
                },
                None => {
                    assert(link_info(rest, order, name_bytes, mtu_seen) is BadName);
                    return Err(MtuError::InvalidName);
                },
            }
        } else if attr.hdr.kind == IFLA_MTU {
            let v = match parse_c_int(attr.msg.as_slice(), order) {
                Ok(v) => v,
                Err(e) => {
                    assert(link_info(rest, order, name_bytes, mtu_seen) is Missing);
                    return Err(e);
                },
            };
            if v < 0 {
                return Err(unlikely_err("negative MTU".to_string()));
            }
            mtu = Some(v as usize);
        }
        match (&ifname, mtu) {
            (Some(s), Some(x)) => {
                return Ok((s.clone(), x));
            },
            _ => {},
        }
        assert(rest.drop_first() =~= m.subrange(i + 1, m.len() as int));
        i = i + 1;
    }
    Err(default_err())
}

/// A route query is sent as exactly as many bytes as its header declares,
/// for an IPv4 and an IPv6 destination alike; that length is a multiple of
/// the attribute alignment, and the header read back from the bytes holds it.
pub proof fn lemma_route_query_length(remote: AddrBytes, seq: u32, order: ByteOrder)
    ensures
        ({
            let m = IfIndexMsg::spec_new(remote, seq);
            let bytes = m.serialized(order);
            &&& bytes.len() == m.nlmsg.len
            &&& NlMsgHdr::at(bytes, 0, order) == m.nlmsg
            &&& m.nlmsg.len as nat == aligned(m.nlmsg.len as nat, RTA_ALIGNTO as nat)
            &&& m.rt.len == RTATTR_LEN + remote.octets().len()
        }),
{
    let m = IfIndexMsg::spec_new(remote, seq);
    let h = m.nlmsg;
    crate::bytes::lemma_u32_round_trip(h.len, order);
    crate::bytes::lemma_u16_round_trip(h.kind, order);
    crate::bytes::lemma_u16_round_trip(h.flags, order);
    crate::bytes::lemma_u32_round_trip(h.seq, order);
    crate::bytes::lemma_u32_round_trip(h.pid, order);
    let bytes = m.serialized(order);
    assert(bytes.subrange(0, 4) =~= u32_bytes(h.len, order));
    assert(bytes.subrange(4, 6) =~= u16_bytes(h.kind, order));
    assert(bytes.subrange(6, 8) =~= u16_bytes(h.flags, order));
    assert(bytes.subrange(8, 12) =~= u32_bytes(h.seq, order));
    assert(bytes.subrange(12, 16) =~= u32_bytes(h.pid, order));
    crate::align::lemma_aligned_least(h.len as nat, RTA_ALIGNTO as nat);
}

/// A link query is sent as exactly as many bytes as its header declares; that
/// length is a multiple of the attribute alignment, and the header read back
/// from the bytes holds it.
pub proof fn lemma_link_query_length(if_index: i32, seq: u32, order: ByteOrder)
    ensures
        ({
            let m = IfInfoMsg::spec_new(if_index, seq);
            let bytes = m.serialized(order);
            &&& bytes.len() == m.nlmsg.len
            &&& NlMsgHdr::at(bytes, 0, order) == m.nlmsg
            &&& m.nlmsg.len as nat == aligned(m.nlmsg.len as nat, RTA_ALIGNTO as nat)
        }),
{
    let m = IfInfoMsg::spec_new(if_index, seq);
    let h = m.nlmsg;
    crate::bytes::lemma_u32_round_trip(h.len, order);
    crate::bytes::lemma_u16_round_trip(h.kind, order);
    crate::bytes::lemma_u16_round_trip(h.flags, order);
    crate::bytes::lemma_u32_round_trip(h.seq, order);
    crate::bytes::lemma_u32_round_trip(h.pid, order);
    let bytes = m.serialized(order);
    assert(bytes.subrange(0, 4) =~= u32_bytes(h.len, order));
    assert(bytes.subrange(4, 6) =~= u16_bytes(h.kind, order));
    assert(bytes.subrange(6, 8) =~= u16_bytes(h.flags, order));
    assert(bytes.subrange(8, 12) =~= u32_bytes(h.seq, order));
    assert(bytes.subrange(12, 16) =~= u32_bytes(h.pid, order));
    crate::align::lemma_aligned_least(h.len as nat, RTA_ALIGNTO as nat);
}

/// `s` is a run of whole attributes: each declares a length that covers its
/// header, and the last one's padding ends exactly at the end of `s`.
pub open spec fn whole_attrs(s: Seq<u8>, order: ByteOrder) -> bool
    decreases s.len(),
{
    if s.len() == 0 {
        true
    } else if s.len() < RTATTR_LEN {
        false
    } else {
        let len = u16_at(s, 0, order);
        let next = aligned(len as nat, RTA_ALIGNTO as nat);
        if len < RTATTR_LEN || next > s.len() || next == 0 {
            false
        } else {
            whole_attrs(s.subrange(next as int, s.len() as int), order)
        }
    }
}

/// An attribute that declares a length shorter than its own header is a
/// protocol error wherever it stands: after any run of whole attributes
/// `before`, it makes the walk fail without reading past the record.
pub proof fn lemma_short_attribute(before: Seq<u8>, bad: Seq<u8>, order: ByteOrder)
    requires
        whole_attrs(before, order),
        bad.len() >= RTATTR_LEN,
        u16_at(bad, 0, order) < RTATTR_LEN,
    ensures
        attr_walk(before + bad, order) is None,
    decreases before.len(),
{
    let s = before + bad;
    if before.len() == 0 {
        assert(s =~= bad);
    } else {
        let len = u16_at(before, 0, order);
        let next = aligned(len as nat, RTA_ALIGNTO as nat);
        assert(u16_at(s, 0, order) == len);
        let rest = before.subrange(next as int, before.len() as int);
        assert(s.subrange(next as int, s.len() as int) =~= rest + bad);
        lemma_short_attribute(rest, bad, order);
    }
}

/// A route answer with an attribute shorter than its header, after any run
/// of whole attributes, gives no interface index.
pub proof fn lemma_short_route_attribute(
    head: Seq<u8>,
    before: Seq<u8>,
    bad: Seq<u8>,
    order: ByteOrder,
)
    requires
        head.len() == RTMSG_LEN,
        whole_attrs(before, order),
        bad.len() >= RTATTR_LEN,
        u16_at(bad, 0, order) < RTATTR_LEN,
    ensures
        route_if_index(head + before + bad, order) is None,
{
    let reply = head + before + bad;
    assert(reply.subrange(RTMSG_LEN as int, reply.len() as int) =~= before + bad);
    lemma_short_attribute(before, bad, order);
}

/// A link answer with an attribute shorter than its header, after any run of
/// whole attributes, gives neither name nor MTU.
pub proof fn lemma_short_link_attribute(
    head: Seq<u8>,
    before: Seq<u8>,
    bad: Seq<u8>,
    order: ByteOrder,
)
    requires
        head.len() == IFINFOMSG_LEN,
        whole_attrs(before, order),
        bad.len() >= RTATTR_LEN,
        u16_at(bad, 0, order) < RTATTR_LEN,
    ensures
        link_name_mtu(head + before + bad, order) is Missing,
{
    let reply = head + before + bad;
    assert(reply.subrange(IFINFOMSG_LEN as int, reply.len() as int) =~= before + bad);
    lemma_short_attribute(before, bad, order);
}

} // verus!
