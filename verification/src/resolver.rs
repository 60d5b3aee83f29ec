//! The resolver: decides how a query is answered.
//!
//! In this order:
//!   1. captive mode, if it is on;
//!   2. the name of the router;
//!   3. the static records;
//!   4. the leases;
//!   5. the list of blocked domains;
//!   6. the cache, if it is on;
//!   7. an upstream server, but for addresses in the local zone;
//!   8. SERVFAIL where no upstream server answers, NXDOMAIN in the local zone.
//!
//! The resolver touches neither files nor the network. It says what is to be
//! done, one [`Step`] at a time, and is told what came of it.

use vstd::prelude::*;
use crate::addr::Ipv4Addr;
use crate::blocklist::BlocklistView;
use crate::blocklist;
use crate::cache::{Cache, CacheView};
use crate::cache;
use crate::clock::Clock;
use crate::clock;
use crate::config::{BlockResponse, Config, ConfigView, RecordView};
use crate::config;
use crate::dns::{Query, QueryView};
use crate::dns;
use crate::leases::LeaseView;
use crate::leases;
use crate::text;
use crate::watch::{BlockStore, BlockStoreView, LeaseStore, LeaseStoreView};

verus! {

/// The time to live of records that have none of their own, in seconds.
pub const LOCAL_TTL: u32 = 60;

/// Which files were already looked at on the way to an answer.
#[derive(Debug, Clone, Copy, PartialEq, Eq, Structural)]
pub enum Stage {
    /// None.
    Begin,
    /// The lease file.
    LeasesChecked,
    /// The lease file, where it was due, and the block file.
    BlocklistChecked,
}

/// Where a response comes from.
#[derive(Debug, Clone, Copy, PartialEq, Eq, Structural)]
pub enum Source {
    /// Captive mode, with this address.
    Captive(Ipv4Addr),
    /// A local name, with this address.
    Local(Ipv4Addr),
    /// The list of blocked domains.
    Blocked,
    /// The cache.
    Cached,
    /// The local zone, which has no such name.
    NoRecord,
}

/// What is to be done next for a query.
pub enum Step {
    /// Send this response, which comes from this source.
    Reply(Vec<u8>, Source),
    /// Look at the lease file at this path, read it where
    /// [`Resolver::leases_changed`] says so, and go on with
    /// [`Stage::LeasesChecked`].
    CheckLeases(String),
    /// Look at the block file at this path, read it where
    /// [`Resolver::blocklist_changed`] says so, and go on with
    /// [`Stage::BlocklistChecked`].
    CheckBlocklist(String),
    /// Ask the upstream servers, and go on with
    /// [`Resolver::forward_or_servfail`].
    Forward,
}

/// What a [`Step`] holds.
pub enum StepView {
    Reply(Seq<u8>, Source),
    CheckLeases(Seq<char>),
    CheckBlocklist(Seq<char>),
    Forward,
}

/// The resolver.
pub struct Resolver {
    config: Config,
    leases: LeaseStore,
    blocklist: BlockStore,
    cache: Cache,
    router_fqdn: String,
}

/// What a [`Resolver`] holds.
pub struct ResolverView {
    pub config: ConfigView,
    pub leases: LeaseStoreView,
    pub blocklist: BlockStoreView,
    pub cache: CacheView,
}

impl View for Step {
    type V = StepView;

    open spec fn view(&self) -> StepView {
        match self {
            Step::Reply(b, s) => StepView::Reply(b@, *s),
            Step::CheckLeases(p) => StepView::CheckLeases(p@),
            Step::CheckBlocklist(p) => StepView::CheckBlocklist(p@),
            Step::Forward => StepView::Forward,
        }
    }
}

impl View for Resolver {
    type V = ResolverView;

    closed spec fn view(&self) -> ResolverView {
        ResolverView {
            config: self.config@,
            leases: self.leases@,
            blocklist: self.blocklist@,
            cache: self.cache@,
        }
    }
}

// ---------------------------------------------------------------------------
// What the answer is
// ---------------------------------------------------------------------------

/// Whether a query asks for IPv4 addresses in the Internet.
pub open spec fn is_a_in(q: QueryView) -> bool {
    q.question.qtype == dns::TYPE_A && q.question.qclass == dns::CLASS_IN
}

/// The ending of the names in a zone.
pub open spec fn zone_suffix(domain: Seq<char>) -> Seq<char> {
    seq!['.'] + domain
}

/// Whether a name lies in the local zone: the zone itself or a name below it.
pub open spec fn in_local_zone(c: ConfigView, name: Seq<char>) -> bool {
    name == c.domain || text::has_suffix(name, zone_suffix(c.domain))
}

/// The first record of a name.
pub open spec fn first_record(records: Seq<RecordView>, name: Seq<char>) -> Option<RecordView>
    decreases records.len(),
{
    if records.len() == 0 {
        None
    } else if records[0].name == name {
        Some(records[0])
    } else {
        first_record(records.skip(1), name)
    }
}

/// The address and the time to live that the configuration gives a name: that of
/// the router, or a static record.
pub open spec fn configured_a(c: ConfigView, name: Seq<char>) -> Option<(Ipv4Addr, u32)> {
    if name == config::full_router_name(c) {
        Some((c.router_ip, LOCAL_TTL))
    } else {
        match first_record(c.records, name) {
            Some(record) => Some((record.ip, record.ttl)),
            None => None,
        }
    }
}

/// The host that a name in the local zone stands for.
pub open spec fn host_of(c: ConfigView, name: Seq<char>) -> Option<Seq<char>> {
    let suffix = zone_suffix(c.domain);
    if text::has_suffix(name, suffix) {
        Some(name.take(name.len() - suffix.len()))
    } else {
        None
    }
}

/// The address and the time to live that a lease gives a name: one that has not
/// expired.
pub open spec fn leased_a(
    c: ConfigView,
    leases: Map<Seq<char>, LeaseView>,
    name: Seq<char>,
    unix_now: u64,
) -> Option<(Ipv4Addr, u32)> {
    match host_of(c, name) {
        Some(host) => if leases.contains_key(host) && leases[host].holds_at(unix_now) {
            Some((leases[host].ip, LOCAL_TTL))
        } else {
            None
        },
        None => None,
    }
}

/// The address and the time to live that a name has locally: from the
/// configuration, else from a lease.
pub open spec fn local_a(
    c: ConfigView,
    leases: Map<Seq<char>, LeaseView>,
    name: Seq<char>,
    unix_now: u64,
) -> Option<(Ipv4Addr, u32)> {
    match configured_a(c, name) {
        Some(a) => Some(a),
        None => leased_a(c, leases, name, unix_now),
    }
}

/// The response for a blocked name.
pub open spec fn blocked_response(c: ConfigView, q: QueryView) -> Seq<u8> {
    match c.block_response {
        BlockResponse::Ip(ip) if is_a_in(q) => dns::a_response(q, ip, LOCAL_TTL, true),
        _ => dns::error_response(q, dns::RCODE_NXDOMAIN, true),
    }
}

/// A response with another id.
pub open spec fn with_id(response: Seq<u8>, id: u16) -> Seq<u8> {
    if response.len() >= 2 {
        dns::be16(id) + response.skip(2)
    } else {
        response
    }
}

impl ResolverView {
    /// The answer to a query from what is known: the response, or the decision to
    /// ask upstream.
    pub open spec fn answer(self, q: QueryView, now: u64, unix_now: u64) -> StepView {
        let c = self.config;
        let name = q.question.name;
        let local = local_a(c, self.leases.table, name, unix_now);
        let key = cache::cache_key(name, q.question.qtype, q.question.qclass);
        let cached = self.cache.lookup(key, now);
        if c.captive && is_a_in(q) {
            StepView::Reply(
                dns::a_response(q, c.captive_ip, LOCAL_TTL, true),
                Source::Captive(c.captive_ip),
            )
        } else if c.captive {
            StepView::Forward
        } else if is_a_in(q) && local is Some {
            StepView::Reply(
                dns::a_response(q, local.unwrap().0, local.unwrap().1, true),
                Source::Local(local.unwrap().0),
            )
        } else if self.blocklist.list.blocks(name) {
            StepView::Reply(blocked_response(c, q), Source::Blocked)
        } else if cached is Some {
            StepView::Reply(with_id(cached.unwrap(), q.header.id), Source::Cached)
        } else if is_a_in(q) && in_local_zone(c, name) {
            StepView::Reply(dns::error_response(q, dns::RCODE_NXDOMAIN, true), Source::NoRecord)
        } else {
            StepView::Forward
        }
    }

    /// Whether the lease file is to be looked at first: a lease may decide, and the
    /// time of the file has come.
    pub open spec fn wants_leases(self, q: QueryView, stage: Stage, now: u64) -> bool {
        &&& stage == Stage::Begin
        &&& !self.config.captive
        &&& is_a_in(q)
        &&& configured_a(self.config, q.question.name) is None
        &&& host_of(self.config, q.question.name) is Some
        &&& self.leases.watch.due(now)
    }

    /// Whether the block file is to be looked at first: the list may decide, and
    /// the time of the file has come.
    pub open spec fn wants_blocklist(
        self,
        q: QueryView,
        stage: Stage,
        now: u64,
        unix_now: u64,
    ) -> bool {
        &&& stage != Stage::BlocklistChecked
        &&& !self.config.captive
        &&& !(is_a_in(q) && local_a(self.config, self.leases.table, q.question.name, unix_now) is Some)
        &&& self.blocklist.watch.due(now)
    }

    /// What is to be done next for a query.
    pub open spec fn next(self, q: QueryView, stage: Stage, now: u64, unix_now: u64) -> StepView {
        if self.wants_leases(q, stage, now) {
            StepView::CheckLeases(self.leases.watch.path.unwrap())
        } else if self.wants_blocklist(q, stage, now, unix_now) {
            StepView::CheckBlocklist(self.blocklist.watch.path.unwrap())
        } else {
            self.answer(q, now, unix_now)
        }
    }

    /// The resolver afterwards: it knows of the look at a file.
    pub open spec fn after(self, q: QueryView, stage: Stage, now: u64, unix_now: u64) -> Self {
        if self.wants_leases(q, stage, now) {
            ResolverView {
                leases: LeaseStoreView {
                    watch: self.leases.watch.checked(now),
                    table: self.leases.table,
                },
                ..self
            }
        } else if self.wants_blocklist(q, stage, now, unix_now) {
            ResolverView {
                blocklist: BlockStoreView {
                    watch: self.blocklist.watch.checked(now),
                    list: self.blocklist.list,
                },
                ..self
            }
        } else {
            self
        }
    }

    /// The response once the upstream servers were asked.
    pub open spec fn forwarded(q: QueryView, reply: Option<Seq<u8>>) -> Seq<u8> {
        match reply {
            Some(response) => response,
            None => dns::error_response(q, dns::RCODE_SERVFAIL, false),
        }
    }

    /// What the reply of an upstream server makes of the resolver: it is stored in
    /// the cache. Without a reply everything stays.
    pub open spec fn after_forward(
        self,
        q: QueryView,
        reply: Option<Seq<u8>>,
        now: u64,
        after: ResolverView,
    ) -> bool {
        &&& after == (ResolverView { cache: after.cache, ..self })
        &&& match reply {
            Some(response) => self.cache.stored(
                cache::cache_key(q.question.name, q.question.qtype, q.question.qclass),
                response,
                now,
                after.cache,
            ),
            None => after.cache == self.cache,
        }
    }
}

// ---------------------------------------------------------------------------
// Deciding it
// ---------------------------------------------------------------------------

impl Resolver {
    /// The resolver is in order: the cache and the list are, and the name of the
    /// router is that of the configuration.
    pub closed spec fn wf(self) -> bool {
        &&& self.cache.wf()
        &&& self.blocklist.list.wf()
        &&& self.router_fqdn@ == config::full_router_name(self.config@)
    }

    /// The clock of the resolver, which is that of its cache.
    pub closed spec fn own_clock(self) -> Clock {
        self.cache.own_clock()
    }

    /// Whether the two resolvers measure time on the same clock.
    pub open spec fn same_clock(self, other: Self) -> bool {
        self.own_clock() == other.own_clock()
    }

    /// A resolver for a configuration, with no file read yet. The files count as
    /// looked at when the resolver is made.
    pub fn new(config: Config) -> (r: Self)
        ensures
            r.wf(),
            exists|now: u64| #[trigger] r@.starts_with(config@, now),
    {
        let cache = Cache::new(config.cache, config.cache_max_entries, config.cache_ttl);
        let now = cache.now();
        let leases = LeaseStore::new(config.lease_file.clone(), now);
        let blocklist = BlockStore::new(config.block_file.clone(), now);
        let router_fqdn = config.router_fqdn();
        let r = Resolver { config, leases, blocklist, cache, router_fqdn };
        assert(r@.starts_with(config@, now));
        r
    }

    /// The configuration.
    pub fn config(&self) -> (r: &Config)
        ensures
            r@ == self@.config,
    {
        &self.config
    }

    /// Whether the lease file, with this modification time, is to be read again.
    pub fn leases_changed(&self, mtime: Option<i128>) -> (r: bool)
        ensures
            r == (mtime != self@.leases.watch.last_mtime),
    {
        self.leases.watch.changed(mtime)
    }

    /// Whether the block file, with this modification time, is to be read again.
    pub fn blocklist_changed(&self, mtime: Option<i128>) -> (r: bool)
        ensures
            r == (mtime != self@.blocklist.watch.last_mtime),
    {
        self.blocklist.watch.changed(mtime)
    }

    /// Take over the contents of the lease file, which could be read or not: the
    /// leases that have not expired at the moment `unix_now`.
    pub fn reload_leases(&mut self, mtime: Option<i128>, contents: Option<&str>, unix_now: u64)
        requires
            old(self).wf(),
        ensures
            final(self).wf(),
            final(self).same_clock(*old(self)),
            final(self)@ == (ResolverView {
                leases: LeaseStoreView {
                    watch: old(self)@.leases.watch.read(mtime),
                    table: match contents {
                        Some(t) => leases::leases_of(text::lines(t@), unix_now),
                        None => Map::empty(),
                    },
                },
                ..old(self)@
            }),
    {
        self.leases.reload(mtime, contents, unix_now);
    }

    /// Take over the contents of the block file, which could be read or not.
    pub fn reload_blocklist(&mut self, mtime: Option<i128>, contents: Option<&str>)
        requires
            old(self).wf(),
        ensures
            final(self).wf(),
            final(self).same_clock(*old(self)),
            final(self)@ == (ResolverView {
                blocklist: BlockStoreView {
                    watch: old(self)@.blocklist.watch.read(mtime),
                    list: match contents {
                        Some(t) => blocklist::list_of(text::lines(t@)),
                        None => BlocklistView::empty(),
                    },
                },
                ..old(self)@
            }),
    {
        self.blocklist.reload(mtime, contents);
    }

    /// How many entries the list of blocked domains holds.
    pub fn blocked_entries(&self) -> (r: usize)
        requires
            self.wf(),
        ensures
            r == self@.blocklist.list.size(),
    {
        self.blocklist.list.len()
    }

    /// The suffix of the names in the local zone.
    fn local_suffix(&self) -> (r: Vec<char>)
        ensures
            r@ == zone_suffix(self@.config.domain),
    {
        let mut suffix: Vec<char> = Vec::new();
        suffix.push('.');
        let mut domain = text::chars_of(self.config.domain.as_str());
        suffix.append(&mut domain);
        assert(suffix@ =~= zone_suffix(self@.config.domain));
        suffix
    }

    /// Whether a name lies in the local zone: the zone itself or a name below it.
    pub fn is_local_zone(&self, name: &str) -> (r: bool)
        ensures
            r == in_local_zone(self@.config, name@),
    {
        if text::same_string(name, self.config.domain.as_str()) {
            return true;
        }
        let chars = text::chars_of(name);
        let suffix = self.local_suffix();
        text::ends_with(chars.as_slice(), suffix.as_slice())
    }

    /// Whether a name is blocked.
    pub fn is_blocked(&self, name: &str) -> (r: bool)
        ensures
            r == self@.blocklist.list.blocks(name@),
    {
        self.blocklist.list.is_blocked(name)
    }

    /// The address and the time to live that the configuration gives a name.
    fn configured_a(&self, name: &str) -> (r: Option<(Ipv4Addr, u32)>)
        requires
            self.wf(),
        ensures
            r == configured_a(self@.config, name@),
    {
        if text::same_string(name, self.router_fqdn.as_str()) {
            return Some((self.config.router_ip, LOCAL_TTL));
        }
        let ghost records = self@.config.records;
        assert(records.skip(0) =~= records);
        for i in 0..self.config.records.len()
            invariant
                records == self@.config.records,
                name@ != config::full_router_name(self@.config),
                first_record(records, name@) == first_record(records.skip(i as int), name@),
        {
            assert(records.skip(i as int)[0] == self.config.records@[i as int]@);
            assert(records.skip(i as int).skip(1) =~= records.skip(i + 1));
            let record = &self.config.records[i];
            if text::same_string(record.name.as_str(), name) {
                return Some((record.ip, record.ttl));
            }
        }
        None
    }

    /// The host that a name in the local zone stands for.
    fn host_of(&self, name: &str) -> (r: Option<String>)
        ensures
            config::text_of(r) == host_of(self@.config, name@),
    {
        let chars = text::chars_of(name);
        let suffix = self.local_suffix();
        if text::ends_with(chars.as_slice(), suffix.as_slice()) {
            let end: usize = chars.len() - suffix.len();
            let host = text::string_of(
                vstd::slice::slice_subrange(chars.as_slice(), 0, end),
            );
            assert(host@ =~= name@.take(end as int));
            Some(host)
        } else {
            None
        }
    }

    /// The address and the time to live that a lease gives a host.
    fn leased_to(&self, host: &str, unix_now: u64) -> (r: Option<(Ipv4Addr, u32)>)
        ensures
            r == (if self@.leases.table.contains_key(host@)
                && self@.leases.table[host@].holds_at(unix_now) {
                Some((self@.leases.table[host@].ip, LOCAL_TTL))
            } else {
                None
            }),
    {
        match self.leases.table.get(host) {
            Some(lease) => if lease.holds_at(unix_now) {
                Some((lease.ip, LOCAL_TTL))
            } else {
                None
            },
            None => None,
        }
    }

    /// The address and the time to live that a name has locally: the router, a
    /// static record, or a lease that has not expired at the moment `unix_now`.
    pub fn local_a(&self, name: &str, unix_now: u64) -> (r: Option<(Ipv4Addr, u32)>)
        requires
            self.wf(),
        ensures
            r == local_a(self@.config, self@.leases.table, name@, unix_now),
    {
        match self.configured_a(name) {
            Some(a) => Some(a),
            None => match self.host_of(name) {
                Some(host) => self.leased_to(host.as_str(), unix_now),
                None => None,
            },
        }
    }

    /// What is to be done next for a query, by the clocks.
    ///
    /// For some moments of the two clocks, this is what [`Resolver::resolve_at`]
    /// does at them.
    pub fn resolve(&mut self, query: &Query, stage: Stage) -> (r: Step)
        requires
            old(self).wf(),
        ensures
            final(self).wf(),
            final(self).same_clock(*old(self)),
            exists|now: u64, unix_now: u64|
                {
                    &&& r@ == #[trigger] old(self)@.next(query@, stage, now, unix_now)
                    &&& final(self)@ == old(self)@.after(query@, stage, now, unix_now)
                },
    {
        let now = self.cache.now();
        let unix_now = clock::unix_now();
        self.resolve_at(query, stage, now, unix_now)
    }

    /// What is to be done next for a query at the moment `now` of the resolver's
    /// clock, in nanoseconds, and `unix_now` of the calendar, in seconds.
    pub fn resolve_at(&mut self, query: &Query, stage: Stage, now: u64, unix_now: u64) -> (r: Step)
        requires
            old(self).wf(),
        ensures
            final(self).wf(),
            final(self).same_clock(*old(self)),
            r@ == old(self)@.next(query@, stage, now, unix_now),
            final(self)@ == old(self)@.after(query@, stage, now, unix_now),
    {
        let name = query.question.name.as_str();
        let qtype = query.question.qtype;
        let qclass = query.question.qclass;
        let asks_a_in = qtype == dns::TYPE_A && qclass == dns::CLASS_IN;

        // In captive mode every query for an address gets the same one; others are
        // forwarded.
        if self.config.captive {
            if asks_a_in {
                return Step::Reply(
                    dns::build_a_response(query, self.config.captive_ip, LOCAL_TTL, true),
                    Source::Captive(self.config.captive_ip),
                );
            }
            return Step::Forward;
        }
        // Local names come before the list of blocked domains, so that no service of
        // one's own is ever blocked.

        if asks_a_in {
            if let Some((ip, ttl)) = self.configured_a(name) {
                return Step::Reply(dns::build_a_response(query, ip, ttl, true), Source::Local(ip));
            }
            if let Some(host) = self.host_of(name) {
                if stage == Stage::Begin {
                    if let Some(path) = self.leases.maybe_reload(now) {
                        return Step::CheckLeases(path);
                    }
                }
                if let Some((ip, ttl)) = self.leased_to(host.as_str(), unix_now) {
                    return Step::Reply(
                        dns::build_a_response(query, ip, ttl, true),
                        Source::Local(ip),
                    );
                }
            }
        }
        // A blocked name is neither forwarded nor cached.

        if stage != Stage::BlocklistChecked {
            if let Some(path) = self.blocklist.maybe_reload(now) {
                return Step::CheckBlocklist(path);
            }
        }
        if self.is_blocked(name) {
            let response = match self.config.block_response {
                BlockResponse::Ip(ip) => if asks_a_in {
                    dns::build_a_response(query, ip, LOCAL_TTL, true)
                } else {
                    dns::build_error_response(query, dns::RCODE_NXDOMAIN, true)
                },
                BlockResponse::NxDomain => dns::build_error_response(
                    query,
                    dns::RCODE_NXDOMAIN,
                    true,
                ),
            };
            return Step::Reply(response, Source::Blocked);
        }
        if let Some(cached) = self.cache.get_at(now, name, qtype, qclass) {
            return Step::Reply(replace_id(cached, query.header.id), Source::Cached);
        }
        // A name in the local zone that has no record does not exist: it is not
        // asked for elsewhere.

        if asks_a_in && self.is_local_zone(name) {
            return Step::Reply(
                dns::build_error_response(query, dns::RCODE_NXDOMAIN, true),
                Source::NoRecord,
            );
        }
        Step::Forward
    }

    /// The response to a query, once the upstream servers were asked: the reply of
    /// one of them, which is stored in the cache, or SERVFAIL where none replied.
    ///
    /// For some moment of the clock, this is what
    /// [`Resolver::forward_or_servfail_at`] does at it.
    pub fn forward_or_servfail(&mut self, query: &Query, reply: Option<Vec<u8>>) -> (r: Vec<u8>)
        requires
            old(self).wf(),
        ensures
            final(self).wf(),
            final(self).same_clock(*old(self)),
            r@ == ResolverView::forwarded(query@, cache::octets_of(reply)),
            exists|now: u64| #[trigger]
                old(self)@.after_forward(query@, cache::octets_of(reply), now, final(self)@),
    {
        let now = self.cache.now();
        self.forward_or_servfail_at(query, reply, now)
    }

    /// The response to a query, once the upstream servers were asked, at the moment
    /// `now` of the resolver's clock.
    pub fn forward_or_servfail_at(&mut self, query: &Query, reply: Option<Vec<u8>>, now: u64) -> (r:
        Vec<u8>)
        requires
            old(self).wf(),
        ensures
            final(self).wf(),
            final(self).same_clock(*old(self)),
            r@ == ResolverView::forwarded(query@, cache::octets_of(reply)),
            old(self)@.after_forward(query@, cache::octets_of(reply), now, final(self)@),
    {
        match reply {
            Some(response) => {
                let copy = vstd::slice::slice_to_vec(response.as_slice());
                self.cache.put_at(
                    now,
                    query.question.name.as_str(),
                    query.question.qtype,
                    query.question.qclass,
                    copy,
                );
                response
            },
            // Not authoritative: nothing is known of the name.
            None => dns::build_error_response(query, dns::RCODE_SERVFAIL, false),
        }
    }
}

impl ResolverView {
    /// The resolver when it is made: nothing was read from a file, nothing is
    /// cached, and the files count as looked at.
    pub open spec fn starts_with(self, c: ConfigView, now: u64) -> bool {
        &&& self.config == c
        &&& self.leases.table == Map::<Seq<char>, LeaseView>::empty()
        &&& self.leases.watch.path == c.lease_file
        &&& self.leases.watch.last_check == now
        &&& self.leases.watch.last_mtime is None
        &&& self.blocklist.list == BlocklistView::empty()
        &&& self.blocklist.watch.path == c.block_file
        &&& self.blocklist.watch.last_check == now
        &&& self.blocklist.watch.last_mtime is None
        &&& self.cache == (CacheView {
            enabled: c.cache,
            max_entries: if c.cache_max_entries == 0 {
                1
            } else {
                c.cache_max_entries
            },
            ttl: c.cache_ttl * clock::NANOS_PER_SEC as nat,
            entries: Map::empty(),
        })
    }
}

/// The cache of a resolver that is in order has a limit of one entry at least, and
/// keeps it.
pub proof fn law_resolver_cache_is_bounded(r: &Resolver)
    requires
        r.wf(),
    ensures
        r@.cache.max_entries >= 1,
        r@.cache.entries.dom().finite(),
        r@.cache.entries.len() <= r@.cache.max_entries,
{
    cache::law_cache_is_bounded(&r.cache);
}

/// Put another id into a response.
fn replace_id(response: Vec<u8>, id: u16) -> (r: Vec<u8>)
    ensures
        r@ == with_id(response@, id),
{
    let mut out = response;
    if out.len() >= 2 {
        out.set(0, (id / 256) as u8);
        out.set(1, (id % 256) as u8);
        assert(out@ =~= with_id(response@, id));
    }
    out
}

} // verus!
