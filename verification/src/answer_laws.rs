//! Which answer each query gets, said in terms of the configuration, the leases,
//! the list of blocked domains and the cache alone. The cases leave none out.

use vstd::prelude::*;
use crate::cache;
use crate::config::{BlockResponse, ConfigView, RecordView};
use crate::config;
use crate::dns::QueryView;
use crate::dns;
use crate::file_laws;
use crate::resolver::{ResolverView, Source, Stage, StepView};
use crate::resolver;

verus! {

/// Whether a query asks for an address: type 1, class 1.
pub open spec fn asks_address(q: QueryView) -> bool {
    q.question.qtype == 1 && q.question.qclass == 1
}

/// Whether a name is that of the router: its name, a dot, and the local zone.
pub open spec fn is_router(c: ConfigView, name: Seq<char>) -> bool {
    name == c.router_name + seq!['.'] + c.domain
}

/// Whether no static record has a name.
pub open spec fn has_no_record(c: ConfigView, name: Seq<char>) -> bool {
    forall|i: int| 0 <= i < c.records.len() ==> (#[trigger] c.records[i]).name != name
}

/// Whether every lease that gives a name has expired.
pub open spec fn has_no_lease(r: ResolverView, name: Seq<char>, unix_now: u64) -> bool {
    forall|host: Seq<char>|
        name == (#[trigger] (host + seq!['.'])) + r.config.domain && r.leases.table.contains_key(host)
            ==> 0 < r.leases.table[host].expires_at <= unix_now
}

/// Whether a name has no address of its own.
pub open spec fn has_no_address(r: ResolverView, name: Seq<char>, unix_now: u64) -> bool {
    !is_router(r.config, name) && has_no_record(r.config, name) && has_no_lease(r, name, unix_now)
}

/// Whether the cache holds a response to a question that has not expired.
pub open spec fn is_cached(r: ResolverView, q: QueryView, now: u64) -> bool {
    let key = cache::cache_key(q.question.name, q.question.qtype, q.question.qclass);
    r.cache.enabled && r.cache.entries.contains_key(key) && now < r.cache.entries[key].expires_at
}

/// Whether nothing local answers: outside captive mode, and the query asks for
/// something else or for a name without an address of its own.
pub open spec fn is_not_local(r: ResolverView, q: QueryView, unix_now: u64) -> bool {
    !r.config.captive && (asks_address(q) ==> has_no_address(r, q.question.name, unix_now))
}

/// Without a record of a name there is no first one.
proof fn lemma_no_record(records: Seq<RecordView>, name: Seq<char>)
    requires
        forall|i: int| 0 <= i < records.len() ==> (#[trigger] records[i]).name != name,
    ensures
        resolver::first_record(records, name) is None,
    decreases records.len(),
{
    if records.len() > 0 {
        assert(records[0].name != name);
        let rest = records.skip(1);
        assert forall|i: int| 0 <= i < rest.len() implies (#[trigger] rest[i]).name != name by {
            assert(rest[i] == records[i + 1]);
        }
        lemma_no_record(rest, name);
    }
}

/// The first record of a name is the one that no other of the name precedes.
proof fn lemma_record(records: Seq<RecordView>, name: Seq<char>, i: int)
    requires
        0 <= i < records.len(),
        records[i].name == name,
        forall|j: int| 0 <= j < i ==> (#[trigger] records[j]).name != name,
    ensures
        resolver::first_record(records, name) == Some(records[i]),
    decreases records.len(),
{
    if i > 0 {
        assert(records[0].name != name);
        let rest = records.skip(1);
        assert forall|j: int| 0 <= j < i - 1 implies (#[trigger] rest[j]).name != name by {
            assert(rest[j] == records[j + 1]);
        }
        lemma_record(rest, name, i - 1);
    }
}

/// The router is known by its full name.
proof fn lemma_router(c: ConfigView, name: Seq<char>)
    ensures
        is_router(c, name) <==> name == config::full_router_name(c),
{
    assert(config::full_router_name(c) =~= c.router_name + seq!['.'] + c.domain);
}

/// A host is known by its name in the local zone.
proof fn lemma_host(c: ConfigView, host: Seq<char>)
    ensures
        resolver::host_of(c, host + seq!['.'] + c.domain) == Some(host),
{
    let name = host + seq!['.'] + c.domain;
    let suffix = resolver::zone_suffix(c.domain);
    assert(name.skip(host.len() as int) =~= suffix);
    assert(name.take(host.len() as int) =~= host);
}

/// A name without an address of its own has none.
proof fn lemma_no_address(r: ResolverView, name: Seq<char>, unix_now: u64)
    requires
        has_no_address(r, name, unix_now),
    ensures
        resolver::local_a(r.config, r.leases.table, name, unix_now) is None,
        resolver::configured_a(r.config, name) is None,
{
    lemma_router(r.config, name);
    lemma_no_record(r.config.records, name);
    if let Some(host) = resolver::host_of(r.config, name) {
        let suffix = resolver::zone_suffix(r.config.domain);
        assert(name =~= name.take(name.len() - suffix.len()) + name.skip(
            name.len() - suffix.len(),
        ));
        assert(name =~= (host + seq!['.']) + r.config.domain);
    }
}

// ---------------------------------------------------------------------------
// The cases
// ---------------------------------------------------------------------------

/// In captive mode, at every stage: an address is the captive one, for 60 seconds;
/// everything else is forwarded.
pub proof fn law_answer_in_captive_mode(
    r: ResolverView,
    q: QueryView,
    stage: Stage,
    now: u64,
    unix_now: u64,
)
    requires
        r.config.captive,
    ensures
        asks_address(q) ==> r.next(q, stage, now, unix_now) == StepView::Reply(
            dns::a_response(q, r.config.captive_ip, 60, true),
            Source::Captive(r.config.captive_ip),
        ),
        !asks_address(q) ==> r.next(q, stage, now, unix_now) == StepView::Forward,
{
}

/// The address of the router, at every stage, for 60 seconds.
pub proof fn law_answer_for_the_router(
    r: ResolverView,
    q: QueryView,
    stage: Stage,
    now: u64,
    unix_now: u64,
)
    requires
        !r.config.captive,
        asks_address(q),
        is_router(r.config, q.question.name),
    ensures
        r.next(q, stage, now, unix_now) == StepView::Reply(
            dns::a_response(q, r.config.router_ip, 60, true),
            Source::Local(r.config.router_ip),
        ),
{
    lemma_router(r.config, q.question.name);
}

/// The address of a static record, at every stage, for as long as it says: of the
/// first record with the name.
pub proof fn law_answer_from_a_static_record(
    r: ResolverView,
    i: int,
    q: QueryView,
    stage: Stage,
    now: u64,
    unix_now: u64,
)
    requires
        !r.config.captive,
        asks_address(q),
        !is_router(r.config, q.question.name),
        0 <= i < r.config.records.len(),
        r.config.records[i].name == q.question.name,
        forall|j: int| 0 <= j < i ==> (#[trigger] r.config.records[j]).name != q.question.name,
    ensures
        r.next(q, stage, now, unix_now) == StepView::Reply(
            dns::a_response(q, r.config.records[i].ip, r.config.records[i].ttl, true),
            Source::Local(r.config.records[i].ip),
        ),
{
    lemma_router(r.config, q.question.name);
    lemma_record(r.config.records, q.question.name, i);
}

/// The address of a lease that has not expired, for 60 seconds, once the lease file
/// was looked at where it was due.
pub proof fn law_answer_from_a_lease(
    r: ResolverView,
    host: Seq<char>,
    q: QueryView,
    stage: Stage,
    now: u64,
    unix_now: u64,
)
    requires
        !r.config.captive,
        asks_address(q),
        q.question.name == host + seq!['.'] + r.config.domain,
        !is_router(r.config, q.question.name),
        has_no_record(r.config, q.question.name),
        r.leases.table.contains_key(host),
        r.leases.table[host].expires_at == 0 || unix_now < r.leases.table[host].expires_at,
    ensures
        r.answer(q, now, unix_now) == StepView::Reply(
            dns::a_response(q, r.leases.table[host].ip, 60, true),
            Source::Local(r.leases.table[host].ip),
        ),
        stage != Stage::Begin || !r.leases.watch.due(now) ==> r.next(q, stage, now, unix_now)
            == r.answer(q, now, unix_now),
{
    lemma_router(r.config, q.question.name);
    lemma_no_record(r.config.records, q.question.name);
    lemma_host(r.config, host);
}

/// A blocked name that nothing local answers for: where the configuration answers
/// with an address and one is asked for, that very address for 60 seconds; else
/// that the name does not exist.
pub proof fn law_answer_for_a_blocked_name(r: ResolverView, q: QueryView, now: u64, unix_now: u64)
    requires
        is_not_local(r, q, unix_now),
        r.blocklist.list.blocks(q.question.name),
    ensures
        r.config.block_response matches BlockResponse::Ip(ip) ==> asks_address(q) ==> r.answer(
            q,
            now,
            unix_now,
        ) == StepView::Reply(dns::a_response(q, ip, 60, true), Source::Blocked),
        r.config.block_response == BlockResponse::NxDomain || !asks_address(q) ==> r.answer(
            q,
            now,
            unix_now,
        ) == StepView::Reply(dns::error_response(q, 3, true), Source::Blocked),
        r.next(q, Stage::BlocklistChecked, now, unix_now) == r.answer(q, now, unix_now),
{
    if asks_address(q) {
        lemma_no_address(r, q.question.name, unix_now);
    }
}

/// A question whose answer is cached: the cached response, with the id of the query
/// in its first two octets.
pub proof fn law_answer_from_the_cache(r: ResolverView, q: QueryView, now: u64, unix_now: u64)
    requires
        is_not_local(r, q, unix_now),
        !r.blocklist.list.blocks(q.question.name),
        is_cached(r, q, now),
    ensures
        ({
            let key = cache::cache_key(q.question.name, q.question.qtype, q.question.qclass);
            let cached = r.cache.entries[key].response;
            match r.answer(q, now, unix_now) {
                StepView::Reply(response, source) => {
                    &&& source == Source::Cached
                    &&& response.len() == cached.len()
                    &&& cached.len() >= 2 ==> response[0] * 256 + response[1] == q.header.id
                    &&& forall|i: int|
                        2 <= i < cached.len() ==> #[trigger] response[i] == cached[i]
                    &&& cached.len() < 2 ==> response == cached
                },
                _ => false,
            }
        }),
{
    if asks_address(q) {
        lemma_no_address(r, q.question.name, unix_now);
    }
}

/// An address in the local zone, the zone itself or what lies below it, that nothing
/// is known of: the name does not exist.
pub proof fn law_answer_in_the_local_zone(r: ResolverView, q: QueryView, now: u64, unix_now: u64)
    requires
        is_not_local(r, q, unix_now),
        !r.blocklist.list.blocks(q.question.name),
        !is_cached(r, q, now),
        asks_address(q),
        q.question.name == r.config.domain || file_laws::is_below(
            q.question.name,
            r.config.domain,
        ),
    ensures
        r.answer(q, now, unix_now) == StepView::Reply(
            dns::error_response(q, 3, true),
            Source::NoRecord,
        ),
{
    lemma_no_address(r, q.question.name, unix_now);
    file_laws::lemma_below(q.question.name, r.config.domain);
}

/// Everything else is forwarded: what is no address, and what lies outside the local
/// zone, where it is neither local nor blocked nor cached.
pub proof fn law_everything_else_is_forwarded(r: ResolverView, q: QueryView, now: u64, unix_now: u64)
    requires
        is_not_local(r, q, unix_now),
        !r.blocklist.list.blocks(q.question.name),
        !is_cached(r, q, now),
        !(asks_address(q) && (q.question.name == r.config.domain || file_laws::is_below(
            q.question.name,
            r.config.domain,
        ))),
    ensures
        r.answer(q, now, unix_now) == StepView::Forward,
{
    if asks_address(q) {
        lemma_no_address(r, q.question.name, unix_now);
        file_laws::lemma_below(q.question.name, r.config.domain);
    }
}

// ---------------------------------------------------------------------------
// Files on the way
// ---------------------------------------------------------------------------

/// The lease file is looked at first exactly where a lease may decide and the file
/// is due: at the beginning, outside captive mode, for an address of a name below
/// the local zone that is neither the router nor a static record. The look is noted.
pub proof fn law_when_the_lease_file_comes_first(
    r: ResolverView,
    q: QueryView,
    stage: Stage,
    now: u64,
    unix_now: u64,
)
    ensures
        ({
            let wanted = {
                &&& stage == Stage::Begin
                &&& !r.config.captive
                &&& asks_address(q)
                &&& !is_router(r.config, q.question.name)
                &&& has_no_record(r.config, q.question.name)
                &&& file_laws::is_below(q.question.name, r.config.domain)
                &&& r.leases.watch.due(now)
            };
            let after = r.after(q, stage, now, unix_now);
            &&& r.next(q, stage, now, unix_now) is CheckLeases <==> wanted
            &&& wanted ==> r.next(q, stage, now, unix_now) == StepView::CheckLeases(
                r.leases.watch.path.unwrap(),
            )
            &&& wanted ==> after.leases.watch.last_check == now
            &&& !wanted ==> after.leases == r.leases
        }),
{
    lemma_router(r.config, q.question.name);
    file_laws::lemma_below(q.question.name, r.config.domain);
    if has_no_record(r.config, q.question.name) {
        lemma_no_record(r.config.records, q.question.name);
    } else {
        lemma_some_record(r.config.records, q.question.name);
    }
}

/// Where a record has a name, there is a first one.
proof fn lemma_some_record(records: Seq<RecordView>, name: Seq<char>)
    requires
        exists|i: int| 0 <= i < records.len() && (#[trigger] records[i]).name == name,
    ensures
        resolver::first_record(records, name) is Some,
    decreases records.len(),
{
    let i = choose|i: int| 0 <= i < records.len() && (#[trigger] records[i]).name == name;
    if records[0].name != name {
        let rest = records.skip(1);
        assert(rest[i - 1] == records[i]);
        lemma_some_record(rest, name);
    }
}

/// The block file is looked at first where nothing local answers, it was not looked
/// at yet, and it is due; unless the lease file comes before it. The look is noted.
/// Where neither file is due, there is the answer.
pub proof fn law_when_the_block_file_comes_first(
    r: ResolverView,
    q: QueryView,
    stage: Stage,
    now: u64,
    unix_now: u64,
)
    ensures
        ({
            let step = r.next(q, stage, now, unix_now);
            let after = r.after(q, stage, now, unix_now);
            let wanted = {
                &&& !(step is CheckLeases)
                &&& is_not_local(r, q, unix_now)
                &&& stage != Stage::BlocklistChecked
                &&& r.blocklist.watch.due(now)
            };
            &&& wanted ==> step == StepView::CheckBlocklist(r.blocklist.watch.path.unwrap())
            &&& wanted ==> after.blocklist.watch.last_check == now
            &&& !(step is CheckBlocklist) ==> after.blocklist == r.blocklist
            &&& !r.blocklist.watch.due(now) || stage == Stage::BlocklistChecked || r.config.captive
                ==> !(step is CheckBlocklist)
            &&& !(step is CheckLeases) && !(step is CheckBlocklist) ==> step == r.answer(
                q,
                now,
                unix_now,
            )
        }),
{
    if is_not_local(r, q, unix_now) && asks_address(q) {
        lemma_no_address(r, q.question.name, unix_now);
    }
}

// ---------------------------------------------------------------------------
// Upstream
// ---------------------------------------------------------------------------

/// The reply of an upstream server is the response as it is. Without one the
/// response has the code 2 and is not authoritative.
pub proof fn law_response_after_forwarding(q: QueryView, reply: Seq<u8>)
    ensures
        ResolverView::forwarded(q, Some(reply)) == reply,
        ResolverView::forwarded(q, None) == dns::error_response(q, 2, false),
{
}

/// The reply of an upstream server is stored for its question, for as long as the
/// cache keeps responses, where the cache is on; nothing else changes.
pub proof fn law_replies_are_stored(
    before: ResolverView,
    q: QueryView,
    reply: Option<Seq<u8>>,
    now: u64,
    after: ResolverView,
)
    requires
        before.after_forward(q, reply, now, after),
    ensures
        after.config == before.config,
        after.leases == before.leases,
        after.blocklist == before.blocklist,
        reply is None || !before.cache.enabled ==> after.cache == before.cache,
        before.cache.enabled ==> (reply matches Some(response) ==> {
            let key = cache::cache_key(q.question.name, q.question.qtype, q.question.qclass);
            &&& after.cache.enabled
            &&& after.cache.entries.contains_key(key)
            &&& after.cache.entries[key].response == response
            &&& after.cache.entries[key].expires_at == now + before.cache.ttl
        }),
{
}

/// A resolver begins with its own configuration, with the files that it names, which
/// count as looked at and not as read, and with an empty cache of the size that is
/// configured, one entry at least, for as many seconds as are configured.
pub proof fn law_how_a_resolver_begins(r: ResolverView, c: ConfigView, now: u64)
    requires
        r.starts_with(c, now),
    ensures
        r.config == c,
        r.leases.watch.path == c.lease_file,
        r.leases.watch.last_check == now,
        r.leases.watch.last_mtime is None,
        forall|host: Seq<char>| !r.leases.table.contains_key(host),
        r.blocklist.watch.path == c.block_file,
        r.blocklist.watch.last_check == now,
        r.blocklist.watch.last_mtime is None,
        forall|name: Seq<char>| !r.blocklist.list.blocks(name),
        r.cache.enabled == c.cache,
        r.cache.max_entries == c.cache_max_entries || r.cache.max_entries == 1
            && c.cache_max_entries == 0,
        r.cache.max_entries >= 1,
        r.cache.ttl == c.cache_ttl * 1_000_000_000,
        forall|key: Seq<char>| !r.cache.entries.contains_key(key),
{
}

} // verus!
