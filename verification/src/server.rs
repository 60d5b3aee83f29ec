//! The server's part in a request: which packets are worked on, and where.

use vstd::prelude::*;
use crate::addr::Ipv4Addr;
use crate::dns::{DnsError, Query, QueryView};
use crate::dns;
use crate::dns_laws;

verus! {

/// The largest packet that is received.
pub const MAX_PACKET: usize = 4096;

/// Why a packet is not worked on.
#[derive(Debug, Clone, Copy, PartialEq, Eq, Structural)]
pub enum Rejection {
    /// It cannot be read.
    Malformed(DnsError),
    /// It is no standard query.
    NotAQuery,
}

/// The query in a packet that is worked on, or why it is not: only standard
/// queries are.
pub open spec fn admitted(raw: Seq<u8>) -> Result<QueryView, Rejection> {
    match dns::query_of(raw) {
        Ok(q) => if q.header.spec_is_query() && q.header.spec_opcode() == 0 {
            Ok(q)
        } else {
            Err(Rejection::NotAQuery)
        },
        Err(e) => Err(Rejection::Malformed(e)),
    }
}

/// Read a packet and decide whether it is worked on.
pub fn handle_request(raw: &[u8]) -> (r: Result<Query, Rejection>)
    ensures
        match r {
            Ok(q) => admitted(raw@) == Ok::<QueryView, Rejection>(q@),
            Err(e) => admitted(raw@) == Err::<QueryView, Rejection>(e),
        },
{
    let query = match dns::parse_query(raw) {
        Ok(q) => q,
        Err(e) => return Err(Rejection::Malformed(e)),
    };
    if !query.header.is_query() || query.header.opcode() != 0 {
        return Err(Rejection::NotAQuery);
    }
    Ok(query)
}

/// Whether as many requests as may be are under way. A limit of 0 counts as 1.
pub open spec fn is_full(inflight: nat, max_inflight: nat) -> bool {
    inflight >= max_inflight && inflight >= 1
}

/// Another request gets a thread of its own exactly as long as there are then no
/// more of them than may be, which is one at least.
pub proof fn law_threads_are_bounded(inflight: nat, max_inflight: nat)
    ensures
        !is_full(inflight, max_inflight) <==> inflight + 1 <= max_inflight || inflight == 0,
{
}

/// Whether a request is worked on by the loop itself rather than by a thread of
/// its own: as many as may be are under way. A limit of 0 counts as 1.
pub fn runs_inline(inflight: usize, max_inflight: usize) -> (r: bool)
    ensures
        r == (inflight >= max_inflight && inflight >= 1),
        r == is_full(inflight as nat, max_inflight as nat),
{
    inflight >= max_inflight && inflight >= 1
}

/// The server does not work on its own responses, should they come back to it.
pub proof fn law_own_responses_are_not_admitted(
    raw: Seq<u8>,
    ip: Ipv4Addr,
    ttl: u32,
    rcode: u8,
    authoritative: bool,
)
    ensures
        admitted(raw) matches Ok(q) ==> {
            &&& admitted(dns::a_response(q, ip, ttl, authoritative)) == Err::<QueryView, Rejection>(
                Rejection::NotAQuery,
            )
            &&& admitted(dns::error_response(q, rcode, authoritative)) == Err::<
                QueryView,
                Rejection,
            >(Rejection::NotAQuery)
        },
{
    if let Ok(q) = admitted(raw) {
        dns_laws::law_answers_to_packets_echo_the_question(raw, ip, ttl, rcode, authoritative);
        dns_laws::law_response_flags(q.header.flags, authoritative, rcode);
        dns_laws::law_response_flags(q.header.flags, authoritative, dns::RCODE_NOERROR);
    }
}

} // verus!
