use vstd::prelude::*;
use crate::icmp::{
    build_echo_reply, echo_packet, echo_template, lemma_short_input_fits, parse_echo_reply,
    parse_echo_request, spec_parse_echo_reply, spec_parse_echo_request, Reply, Request,
    ICMP_ECHO_REPLY,
};

verus! {

/// The kinds of socket error that the ping logic tells apart.
#[derive(Clone, Copy, Debug, PartialEq, Eq, Structural)]
pub enum IoErrorKind {
    WouldBlock,
    TimedOut,
    PermissionDenied,
    Other,
}

/// Whether an error of this kind means that the wait for a packet ran out.
pub fn is_timeout(kind: IoErrorKind) -> (timed_out: bool)
    ensures
        timed_out <==> (kind == IoErrorKind::WouldBlock || kind == IoErrorKind::TimedOut),
{
    match kind {
        IoErrorKind::WouldBlock | IoErrorKind::TimedOut => true,
        _ => false,
    }
}

/// The echo reply that `packet` holds if it answers the request with the
/// given identifier and sequence number; `None` for any other packet, which
/// the receiver skips.
pub fn reply_matching(packet: &[u8], identifier: u16, sequence: u16) -> (reply: Option<Reply>)
    ensures
        reply == (match spec_parse_echo_reply(packet@) {
            Some(r) => if r.identifier == identifier && r.sequence == sequence {
                Some(r)
            } else {
                None
            },
            None => None,
        }),
{
    if let Some(reply) = parse_echo_reply(packet) {
        if reply.identifier == identifier && reply.sequence == sequence {
            return Some(reply);
        }
    }
    None
}


/// Longest packet the responder answers: any echo reply built for a request
/// read from it keeps its checksum sum within 32 bits.
pub const MAX_ANSWERED_PACKET_LEN: usize = 131070;

/// The responder's decision on a received packet: an echo request from an
/// IPv4 sender is answered with an echo reply that carries its identifier,
/// sequence number and payload; anything else is left unanswered.
pub fn reply_for(packet: &[u8], from_ipv4: bool) -> (answer: Option<(Request<'_>, Vec<u8>)>)
    requires
        packet@.len() <= MAX_ANSWERED_PACKET_LEN,
    ensures
        answer is Some <==> (from_ipv4 && spec_parse_echo_request(packet@) is Some),
        answer matches Some((request, reply)) ==> ({
            &&& spec_parse_echo_request(packet@) == Some(request@)
            &&& reply@ == echo_packet(
                ICMP_ECHO_REPLY,
                request.identifier,
                request.sequence,
                request.payload@,
            )
        }),
{
    let request = match parse_echo_request(packet) {
        Some(request) => request,
        None => return None,
    };
    if !from_ipv4 {
        return None;
    }
    proof {
        lemma_short_input_fits(
            echo_template(ICMP_ECHO_REPLY, request.identifier, request.sequence, request.payload@),
        );
    }
    let reply = build_echo_reply(request.identifier, request.sequence, request.payload);
    Some((request, reply))
}

} // verus!
