//! The lookup on Linux, as a state machine over netlink messages: first the
//! route towards the destination, which names the output interface, then
//! that interface's link, which gives its name and MTU. The caller owns the
//! socket: it sends what a step asks for and hands back each datagram read.
use vstd::prelude::*;
use crate::bytes::{AddrBytes, ByteOrder};
use crate::error::{default_err, MtuError};
use crate::netlink::{
    if_index, if_name_mtu, kernel_error, link_error_matches, link_name_mtu, read_msg_with_seq,
    route_if_index, scan, IfIndexMsg, IfInfoMsg, LinkInfo, Received, RTM_NEWLINK, RTM_NEWROUTE,
};
use vstd::utf8::decode_utf8;

verus! {

/// Sequence number of the route query.
pub const ROUTE_QUERY_SEQ: u32 = 1;

/// Sequence number of the link query.
pub const LINK_QUERY_SEQ: u32 = 2;

/// Where a lookup stands.
pub enum Phase {
    /// The route query was sent; its answer is awaited.
    RouteQuerySent,
    /// The link query was sent; its answer is awaited.
    LinkQuerySent,
    /// The lookup is over.
    Finished,
}

/// What the caller is to do next.
pub enum Step {
    /// Send these bytes, then read the answer.
    Send(Vec<u8>),
    /// Read the next datagram.
    Receive,
    /// The lookup is over, with this outcome.
    Done(Result<(String, usize), MtuError>),
}

/// A lookup of the interface name and MTU towards one destination.
pub struct Resolver {
    pub phase: Phase,
    pub order: ByteOrder,
}

/// The step that a datagram `buf` gives while the route query is awaited,
/// apart from the bytes of a link query.
pub open spec fn route_step(buf: Seq<u8>, order: ByteOrder, r: Step, phase: Phase) -> bool {
    if buf.len() == 0 {
        r == Step::Done(Err(MtuError::NoData)) && phase is Finished
    } else {
        match scan(buf, ROUTE_QUERY_SEQ, RTM_NEWROUTE, order) {
            Received::Pending => r is Receive && phase is RouteQuerySent,
            Received::Message(_, body) => match route_if_index(body, order) {
                Some(i) => r matches Step::Send(b) && b@ == IfInfoMsg::spec_new(
                    i,
                    LINK_QUERY_SEQ,
                ).serialized(order) && phase is LinkQuerySent,
                None => r == Step::Done(Err(MtuError::NotFound)) && phase is Finished,
            },
            Received::Kernel(code) => r == Step::Done(Err(kernel_error(code))) && phase is Finished,
            Received::Malformed => r == Step::Done(Err(MtuError::NotFound)) && phase is Finished,
        }
    }
}

/// The step that a datagram `buf` gives while the link query is awaited.
pub open spec fn link_step(buf: Seq<u8>, order: ByteOrder, r: Step, phase: Phase) -> bool {
    if buf.len() == 0 {
        r == Step::Done(Err(MtuError::NoData)) && phase is Finished
    } else {
        match scan(buf, LINK_QUERY_SEQ, RTM_NEWLINK, order) {
            Received::Pending => r is Receive && phase is LinkQuerySent,
            Received::Message(_, body) => phase is Finished && match link_name_mtu(body, order) {
                LinkInfo::Found(name, mtu) => r matches Step::Done(Ok((s, m))) && s@ == decode_utf8(
                    name,
                ) && m == mtu,
                info => r matches Step::Done(Err(e)) && link_error_matches(info, e),
            },
            Received::Kernel(code) => r == Step::Done(Err(kernel_error(code))) && phase is Finished,
            Received::Malformed => r == Step::Done(Err(MtuError::NotFound)) && phase is Finished,
        }
    }
}

impl Resolver {
    /// Starts a lookup towards `remote`: returns the lookup and the route
    /// query to send.
    pub fn start(remote: AddrBytes, order: ByteOrder) -> (r: (Resolver, Vec<u8>))
        ensures
            r.0.phase is RouteQuerySent,
            r.0.order == order,
            r.1@ == IfIndexMsg::spec_new(remote, ROUTE_QUERY_SEQ).serialized(order),
    {
        let msg = IfIndexMsg::new(remote, ROUTE_QUERY_SEQ);
        let bytes = msg.to_bytes(order);
        (Resolver { phase: Phase::RouteQuerySent, order }, bytes)
    }

    /// Takes the next datagram read from the socket. An empty one is a
    /// failure of the socket, since every query is answered.
    pub fn on_datagram(&mut self, buf: &[u8]) -> (r: Step)
        requires
            !(old(self).phase is Finished),
        ensures
            final(self).order == old(self).order,
            old(self).phase is RouteQuerySent ==> route_step(buf@, old(self).order, r, final(self).phase),
            old(self).phase is LinkQuerySent ==> link_step(buf@, old(self).order, r, final(self).phase),
    {
        let order = self.order;
        if buf.len() == 0 {
            self.phase = Phase::Finished;
            return Step::Done(Err(MtuError::NoData));
        }
        match self.phase {
            Phase::RouteQuerySent => {
                match read_msg_with_seq(buf, ROUTE_QUERY_SEQ, RTM_NEWROUTE, order) {
                    None => Step::Receive,
                    Some(Err(e)) => {
                        self.phase = Phase::Finished;
                        Step::Done(Err(e))
                    },
                    Some(Ok((_hdr, body))) => match if_index(body.as_slice(), order) {
                        Ok(idx) => {
                            self.phase = Phase::LinkQuerySent;
                            Step::Send(IfInfoMsg::new(idx, LINK_QUERY_SEQ).to_bytes(order))
                        },
                        Err(e) => {
                            self.phase = Phase::Finished;
                            Step::Done(Err(e))
                        },
                    },
                }
            },
            Phase::LinkQuerySent => {
                match read_msg_with_seq(buf, LINK_QUERY_SEQ, RTM_NEWLINK, order) {
                    None => Step::Receive,
                    Some(Err(e)) => {
                        self.phase = Phase::Finished;
                        Step::Done(Err(e))
                    },
                    Some(Ok((_hdr, body))) => {
                        self.phase = Phase::Finished;
                        Step::Done(if_name_mtu(body.as_slice(), order))
                    },
                }
            },
            Phase::Finished => Step::Done(Err(default_err())),
        }
    }
}

/// Two lookups that are handed the same datagram take the same step: the
/// same bytes to send, the same interface name and MTU, or the same error
/// (save the message of an internal one). Resolving one destination twice,
/// with no change of route in between, thus gives the same name and MTU.
pub proof fn lemma_same_answer_same_step(
    buf: Seq<u8>,
    order: ByteOrder,
    waiting_for_link: bool,
    r1: Step,
    phase1: Phase,
    r2: Step,
    phase2: Phase,
)
    requires
        !waiting_for_link ==> route_step(buf, order, r1, phase1) && route_step(buf, order, r2, phase2),
        waiting_for_link ==> link_step(buf, order, r1, phase1) && link_step(buf, order, r2, phase2),
    ensures
        phase1 == phase2,
        r1 is Receive <==> r2 is Receive,
        r1 matches Step::Send(b1) ==> (r2 matches Step::Send(b2) && b1@ == b2@),
        r1 matches Step::Done(Ok((s1, m1))) ==> (r2 matches Step::Done(Ok((s2, m2))) && s1@ == s2@
            && m1 == m2),
        r1 matches Step::Done(Err(e1)) ==> (r2 matches Step::Done(Err(e2)) && (e1 is NotFound
            <==> e2 is NotFound) && (e1 is InvalidName <==> e2 is InvalidName) && (e1 is Unlikely
            <==> e2 is Unlikely) && (e1 is NoData <==> e2 is NoData) && (e1 is Os ==> e2 == e1)),
{
}

/// The link query depends on the interface index alone, not on the
/// destination: two destinations whose route answers name the same
/// interface (as the IPv4 and IPv6 loopback addresses both name the loopback
/// interface) lead to the same link query, and so to the same name and MTU.
pub proof fn lemma_link_query_by_index_alone(
    buf1: Seq<u8>,
    buf2: Seq<u8>,
    order: ByteOrder,
    r1: Step,
    phase1: Phase,
    r2: Step,
    phase2: Phase,
)
    requires
        route_step(buf1, order, r1, phase1),
        route_step(buf2, order, r2, phase2),
        scan(buf1, ROUTE_QUERY_SEQ, RTM_NEWROUTE, order) is Message,
        scan(buf2, ROUTE_QUERY_SEQ, RTM_NEWROUTE, order) is Message,
        route_if_index(
            scan(buf1, ROUTE_QUERY_SEQ, RTM_NEWROUTE, order)->Message_1,
            order,
        ) is Some,
        route_if_index(scan(buf1, ROUTE_QUERY_SEQ, RTM_NEWROUTE, order)->Message_1, order)
            == route_if_index(scan(buf2, ROUTE_QUERY_SEQ, RTM_NEWROUTE, order)->Message_1, order),
    ensures
        phase1 is LinkQuerySent && phase2 is LinkQuerySent,
        r1 matches Step::Send(b1) && r2 matches Step::Send(b2) && b1@ == b2@,
{
}

} // verus!
