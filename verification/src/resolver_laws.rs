//! What holds of every answer of the resolver.

use vstd::prelude::*;
use crate::addr::Ipv4Addr;
use crate::cache::CacheView;
use crate::cache;
use crate::clock::NANOS_PER_SEC;
use crate::config;
use crate::dns::QueryView;
use crate::dns;
use crate::dns_laws;
use crate::resolver::{LOCAL_TTL, ResolverView, Source, Stage, StepView};
use crate::resolver;
use crate::watch::{BlockStoreView, LeaseStoreView};

verus! {

// ---------------------------------------------------------------------------
// Captive mode
// ---------------------------------------------------------------------------

/// In captive mode every query for an address is answered with the captive
/// address, at once and whatever else is known; every other query is forwarded.
pub proof fn law_captive_mode(
    r: ResolverView,
    q: QueryView,
    stage: Stage,
    now: u64,
    unix_now: u64,
)
    requires
        r.config.captive,
    ensures
        r.next(q, stage, now, unix_now) == if resolver::is_a_in(q) {
            StepView::Reply(
                dns::a_response(q, r.config.captive_ip, LOCAL_TTL, true),
                Source::Captive(r.config.captive_ip),
            )
        } else {
            StepView::Forward
        },
{
}

// ---------------------------------------------------------------------------
// Local names
// ---------------------------------------------------------------------------

/// The full name of the router has the router's address, whatever the records,
/// the leases, the list of blocked domains and the cache hold.
pub proof fn law_router_has_its_address(
    r: ResolverView,
    q: QueryView,
    stage: Stage,
    now: u64,
    unix_now: u64,
)
    requires
        !r.config.captive,
        resolver::is_a_in(q),
        q.question.name == r.config.router_name + seq!['.'] + r.config.domain,
    ensures
        r.next(q, stage, now, unix_now) == StepView::Reply(
            dns::a_response(q, r.config.router_ip, LOCAL_TTL, true),
            Source::Local(r.config.router_ip),
        ),
{
    assert(q.question.name =~= config::full_router_name(r.config));
}

/// A static record is answered with its own address and time to live, unless the
/// name is that of the router or an earlier record has it. Neither a lease nor the
/// list of blocked domains nor the cache has a say.
pub proof fn law_static_records_win(
    r: ResolverView,
    i: int,
    q: QueryView,
    stage: Stage,
    now: u64,
    unix_now: u64,
)
    requires
        !r.config.captive,
        resolver::is_a_in(q),
        q.question.name != config::full_router_name(r.config),
        0 <= i < r.config.records.len(),
        r.config.records[i].name == q.question.name,
        forall|j: int| 0 <= j < i ==> (#[trigger] r.config.records[j]).name != q.question.name,
    ensures
        r.next(q, stage, now, unix_now) == StepView::Reply(
            dns::a_response(q, r.config.records[i].ip, r.config.records[i].ttl, true),
            Source::Local(r.config.records[i].ip),
        ),
{
    lemma_first_record(r.config.records, q.question.name, i);
}

/// The first record of a name is the one that no other of the name precedes.
proof fn lemma_first_record(records: Seq<config::RecordView>, name: Seq<char>, i: int)
    requires
        0 <= i < records.len(),
        records[i].name == name,
        forall|j: int| 0 <= j < i ==> (#[trigger] records[j]).name != name,
    ensures
        resolver::first_record(records, name) == Some(records[i]),
    decreases records.len(),
{
    if i > 0 {
        assert(records[0].name != name);
        let rest = records.skip(1);
        assert forall|j: int| 0 <= j < i - 1 implies (#[trigger] rest[j]).name != name by {
            assert(rest[j] == records[j + 1]);
        }
        lemma_first_record(rest, name, i - 1);
    }
}

/// A host with a lease that has not expired has the address of the lease, under
/// its name in the local zone, where the configuration gives that name no other.
/// Neither the list of blocked domains nor the cache has a say.
pub proof fn law_leased_hosts_have_their_address(
    r: ResolverView,
    host: Seq<char>,
    q: QueryView,
    now: u64,
    unix_now: u64,
)
    requires
        !r.config.captive,
        resolver::is_a_in(q),
        q.question.name == host + seq!['.'] + r.config.domain,
        resolver::configured_a(r.config, q.question.name) is None,
        r.leases.table.contains_key(host),
        r.leases.table[host].holds_at(unix_now),
    ensures
        r.answer(q, now, unix_now) == StepView::Reply(
            dns::a_response(q, r.leases.table[host].ip, LOCAL_TTL, true),
            Source::Local(r.leases.table[host].ip),
        ),
        r.next(q, Stage::LeasesChecked, now, unix_now) == r.answer(q, now, unix_now),
{
    let name = q.question.name;
    let suffix = resolver::zone_suffix(r.config.domain);
    assert(name.skip(host.len() as int) =~= suffix);
    assert(name.take(host.len() as int) =~= host);
    assert(resolver::host_of(r.config, name) == Some(host));
}

/// A lease that has expired is as good as none.
pub proof fn law_expired_leases_are_not_resolved(
    r: ResolverView,
    host: Seq<char>,
    q: QueryView,
    now: u64,
    unix_now: u64,
)
    requires
        r.leases.table.contains_key(host),
        r.leases.table[host].expires_at != 0,
        r.leases.table[host].expires_at <= unix_now,
    ensures
        r.answer(q, now, unix_now) == (ResolverView {
            leases: LeaseStoreView { table: r.leases.table.remove(host), ..r.leases },
            ..r
        }).answer(q, now, unix_now),
{
}

/// Outside captive mode no query for an address in the local zone is forwarded.
/// Where nothing is known of the name, the answer is that it does not exist.
pub proof fn law_local_zone_stays_inside(
    r: ResolverView,
    q: QueryView,
    stage: Stage,
    now: u64,
    unix_now: u64,
)
    requires
        !r.config.captive,
        resolver::is_a_in(q),
        resolver::in_local_zone(r.config, q.question.name),
    ensures
        r.next(q, stage, now, unix_now) != StepView::Forward,
        ({
            &&& resolver::local_a(r.config, r.leases.table, q.question.name, unix_now) is None
            &&& !r.blocklist.list.blocks(q.question.name)
            &&& r.cache.lookup(
                cache::cache_key(q.question.name, q.question.qtype, q.question.qclass),
                now,
            ) is None
        }) ==> r.answer(q, now, unix_now) == StepView::Reply(
            dns::error_response(q, dns::RCODE_NXDOMAIN, true),
            Source::NoRecord,
        ),
{
}

// ---------------------------------------------------------------------------
// Blocked names
// ---------------------------------------------------------------------------

/// Outside captive mode a blocked name is never forwarded, so nothing is cached
/// for it, and what the cache holds does not matter for it. Unless it is a local
/// name that is asked for its address, it gets the answer for blocked domains.
pub proof fn law_blocked_names_stay_inside(
    r: ResolverView,
    cache: CacheView,
    q: QueryView,
    stage: Stage,
    now: u64,
    unix_now: u64,
)
    requires
        !r.config.captive,
        r.blocklist.list.blocks(q.question.name),
    ensures
        r.next(q, stage, now, unix_now) != StepView::Forward,
        r.after(q, stage, now, unix_now).cache == r.cache,
        r.answer(q, now, unix_now) == (ResolverView { cache, ..r }).answer(q, now, unix_now),
        !(resolver::is_a_in(q) && resolver::local_a(
            r.config,
            r.leases.table,
            q.question.name,
            unix_now,
        ) is Some) ==> r.answer(q, now, unix_now) == StepView::Reply(
            resolver::blocked_response(r.config, q),
            Source::Blocked,
        ),
{
}

/// The list of blocked domains has no say in what the address of a local name is.
pub proof fn law_local_names_beat_the_blocklist(
    r: ResolverView,
    blocklist: BlockStoreView,
    q: QueryView,
    now: u64,
    unix_now: u64,
)
    requires
        resolver::is_a_in(q),
        resolver::local_a(r.config, r.leases.table, q.question.name, unix_now) is Some,
    ensures
        r.answer(q, now, unix_now) == (ResolverView { blocklist, ..r }).answer(q, now, unix_now),
        !r.config.captive ==> ({
            let (ip, ttl) = resolver::local_a(
                r.config,
                r.leases.table,
                q.question.name,
                unix_now,
            ).unwrap();
            r.answer(q, now, unix_now) == StepView::Reply(
                dns::a_response(q, ip, ttl, true),
                Source::Local(ip),
            )
        }),
{
}

// ---------------------------------------------------------------------------
// Forwarding and the cache
// ---------------------------------------------------------------------------

/// The reply of an upstream server is passed on unchanged. Where none replied,
/// the response says so, not authoritatively, and the resolver stays as it is.
pub proof fn law_forwarding(
    before: ResolverView,
    raw: Seq<u8>,
    reply: Option<Seq<u8>>,
    now: u64,
    after: ResolverView,
)
    ensures
        dns::query_of(raw) matches Ok(q) ==> before.after_forward(q, reply, now, after) ==> {
            &&& reply is Some ==> ResolverView::forwarded(q, reply) == reply.unwrap()
            &&& reply is None ==> after == before
            &&& reply is None ==> dns::query_of(ResolverView::forwarded(q, reply)) == Ok::<
                QueryView,
                dns::DnsError,
            >(
                QueryView {
                    header: dns_laws::response_header(q, 0, dns::RCODE_SERVFAIL, false),
                    question: q.question,
                },
            )
        },
{
    let any = Ipv4Addr { a: 0, b: 0, c: 0, d: 0 };
    dns_laws::law_answers_to_packets_echo_the_question(raw, any, 0, dns::RCODE_SERVFAIL, false);
}

/// With the cache on, the reply of an upstream server is the answer to later
/// queries with the same question, under their own id, until it expires; as long
/// as the name is neither local nor blocked.
pub proof fn law_replies_are_found_again(
    before: ResolverView,
    q: QueryView,
    reply: Seq<u8>,
    now: u64,
    after: ResolverView,
    q2: QueryView,
    later: u64,
    unix_later: u64,
)
    requires
        before.after_forward(q, Some(reply), now, after),
        q2.question == q.question,
        before.cache.enabled,
        !before.config.captive,
        resolver::is_a_in(q) ==> resolver::local_a(
            before.config,
            before.leases.table,
            q.question.name,
            unix_later,
        ) is None,
        !before.blocklist.list.blocks(q.question.name),
        later < now + before.cache.ttl,
    ensures
        after.answer(q2, later, unix_later) == StepView::Reply(
            resolver::with_id(reply, q2.header.id),
            Source::Cached,
        ),
{
    cache::law_stored_is_found_until_it_expires(
        before.cache,
        cache::cache_key(q.question.name, q.question.qtype, q.question.qclass),
        reply,
        now,
        after.cache,
        later,
    );
}

/// With the cache off, no reply is ever used again: outside captive mode what is
/// neither local nor blocked nor in the local zone is forwarded each time.
pub proof fn law_without_cache_all_is_forwarded(
    r: ResolverView,
    q: QueryView,
    now: u64,
    unix_now: u64,
)
    requires
        !r.cache.enabled,
        !r.config.captive,
        !r.blocklist.list.blocks(q.question.name),
        resolver::is_a_in(q) ==> {
            &&& resolver::local_a(r.config, r.leases.table, q.question.name, unix_now) is None
            &&& !resolver::in_local_zone(r.config, q.question.name)
        },
    ensures
        r.answer(q, now, unix_now) == StepView::Forward,
{
}

// ---------------------------------------------------------------------------
// Responses
// ---------------------------------------------------------------------------

/// Whether a response is one that the server gives on its own authority to the
/// query: it has the id and the question of the query and is authoritative.
pub open spec fn is_own_answer(q: QueryView, response: Seq<u8>) -> bool {
    match dns::query_of(response) {
        Ok(read) => {
            &&& read.question == q.question
            &&& read.header.id == q.header.id
            &&& read.header.flags >= 0x8000
            &&& read.header.flags / 0x400 % 2 == 1
            &&& read.header.flags / 0x100 % 2 == q.header.flags / 0x100 % 2
        },
        Err(_) => false,
    }
}

/// A response to a query that came out of a packet is either the cached one under
/// the id of the query, or an answer of the server's own to that very question.
pub proof fn law_replies_answer_the_query(
    r: ResolverView,
    raw: Seq<u8>,
    stage: Stage,
    now: u64,
    unix_now: u64,
)
    ensures
        dns::query_of(raw) matches Ok(q) ==> match r.next(q, stage, now, unix_now) {
            StepView::Reply(response, source) => if source == Source::Cached {
                r.cache.lookup(
                    cache::cache_key(q.question.name, q.question.qtype, q.question.qclass),
                    now,
                ) matches Some(cached) && response == resolver::with_id(cached, q.header.id)
            } else {
                is_own_answer(q, response)
            },
            _ => true,
        },
{
    if let Ok(q) = dns::query_of(raw) {
        assert forall|ip: Ipv4Addr, ttl: u32| #[trigger]
            is_own_answer(q, dns::a_response(q, ip, ttl, true)) by {
            dns_laws::law_answers_to_packets_echo_the_question(
                raw,
                ip,
                ttl,
                dns::RCODE_NXDOMAIN,
                true,
            );
            dns_laws::law_response_flags(q.header.flags, true, dns::RCODE_NOERROR);
        }
        assert(is_own_answer(q, dns::error_response(q, dns::RCODE_NXDOMAIN, true))) by {
            let any = Ipv4Addr { a: 0, b: 0, c: 0, d: 0 };
            dns_laws::law_answers_to_packets_echo_the_question(
                raw,
                any,
                0,
                dns::RCODE_NXDOMAIN,
                true,
            );
            dns_laws::law_response_flags(q.header.flags, true, dns::RCODE_NXDOMAIN);
        }
    }
}

/// Under another id a response is the same but for the id, which is read back.
pub proof fn law_id_is_replaced(response: Seq<u8>, id: u16)
    requires
        response.len() >= 2,
    ensures
        resolver::with_id(response, id).len() == response.len(),
        dns::u16_at(resolver::with_id(response, id), 0) == id,
        resolver::with_id(response, id).skip(2) == response.skip(2),
{
    assert(resolver::with_id(response, id).skip(2) =~= response.skip(2));
}

// ---------------------------------------------------------------------------
// Files
// ---------------------------------------------------------------------------

/// Deciding what is to be done changes nothing but when the files were last looked
/// at.
pub proof fn law_deciding_changes_no_data(
    r: ResolverView,
    q: QueryView,
    stage: Stage,
    now: u64,
    unix_now: u64,
)
    ensures
        ({
            let after = r.after(q, stage, now, unix_now);
            &&& after.config == r.config
            &&& after.leases.table == r.leases.table
            &&& after.leases.watch.path == r.leases.watch.path
            &&& after.leases.watch.last_mtime == r.leases.watch.last_mtime
            &&& after.blocklist.list == r.blocklist.list
            &&& after.blocklist.watch.path == r.blocklist.watch.path
            &&& after.blocklist.watch.last_mtime == r.blocklist.watch.last_mtime
            &&& after.cache == r.cache
        }),
{
}

/// The lease file is asked for only at the beginning, and the block file only
/// before it was looked at: after two looks at most there is an answer.
pub proof fn law_answer_comes_after_two_looks(
    r1: ResolverView,
    r2: ResolverView,
    q: QueryView,
    now: u64,
    unix_now: u64,
)
    ensures
        !(r1.next(q, Stage::LeasesChecked, now, unix_now) is CheckLeases),
        r2.next(q, Stage::BlocklistChecked, now, unix_now) == r2.answer(q, now, unix_now),
        r2.answer(q, now, unix_now) is Reply || r2.answer(q, now, unix_now) is Forward,
{
}

/// Between two looks at the same file lie two seconds at least.
pub proof fn law_files_are_looked_at_every_two_seconds(
    r: ResolverView,
    q: QueryView,
    stage: Stage,
    now: u64,
    unix_now: u64,
    q2: QueryView,
    stage2: Stage,
    later: u64,
    unix_later: u64,
)
    ensures
        ({
            let first = r.next(q, stage, now, unix_now);
            let second = r.after(q, stage, now, unix_now).next(q2, stage2, later, unix_later);
            &&& first is CheckLeases && second is CheckLeases ==> later - now >= 2 * NANOS_PER_SEC
            &&& first is CheckBlocklist && second is CheckBlocklist ==> later - now >= 2
                * NANOS_PER_SEC
        }),
{
}

} // verus!
