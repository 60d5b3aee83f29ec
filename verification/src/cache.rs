//! A simple cache of responses: no least-recently-used order, but a bound on
//! its size.
//!
//! The key is `name:qtype:qclass`; the value is the response of an upstream
//! server and the moment at which it expires. How long a response is kept and
//! how many there may be is configured.

use vstd::prelude::*;
use vstd::hash_map::StringHashMap;
use crate::clock::{Clock, NANOS_PER_SEC};
use crate::number;
use crate::text;

verus! {

/// A response and the moment at which it expires, in nanoseconds of the cache's
/// clock.
struct CacheEntry {
    response: Vec<u8>,
    expires_at: u128,
}

/// A cache of responses, which may be switched off.
pub struct Cache {
    enabled: bool,
    max_entries: usize,
    ttl_secs: u64,
    clock: Clock,
    entries: StringHashMap<CacheEntry>,
    /// The keys of the entries, each once.
    keys: Vec<String>,
}

/// What an entry of the cache holds.
pub struct EntryView {
    pub response: Seq<u8>,
    pub expires_at: nat,
}

/// What a [`Cache`] holds.
#[verifier::ext_equal]
pub struct CacheView {
    pub enabled: bool,
    pub max_entries: nat,
    /// How long a response is kept, in nanoseconds.
    pub ttl: nat,
    pub entries: Map<Seq<char>, EntryView>,
}

/// The key of a question.
pub open spec fn cache_key(name: Seq<char>, qtype: u16, qclass: u16) -> Seq<char> {
    name.push(':') + number::decimal(qtype as nat).push(':') + number::decimal(qclass as nat)
}

/// The entries that have not expired.
pub open spec fn live(entries: Map<Seq<char>, EntryView>, now: u64) -> Map<Seq<char>, EntryView> {
    Map::new(
        |k: Seq<char>| entries.contains_key(k) && entries[k].expires_at > now,
        |k: Seq<char>| entries[k],
    )
}

impl CacheView {
    /// The response that the cache has for a key: one that has not expired.
    pub open spec fn lookup(self, key: Seq<char>, now: u64) -> Option<Seq<u8>> {
        if self.enabled && self.entries.contains_key(key) && self.entries[key].expires_at > now {
            Some(self.entries[key].response)
        } else {
            None
        }
    }

    /// The entry for a response that is stored now.
    pub open spec fn new_entry(self, response: Seq<u8>, now: u64) -> EntryView {
        EntryView { response, expires_at: now as nat + self.ttl }
    }

    /// The cache with other entries.
    pub open spec fn with_entries(self, entries: Map<Seq<char>, EntryView>) -> Self {
        CacheView { entries, ..self }
    }

    /// What storing a response makes of the cache: `after` holds it, and of the
    /// entries that have not expired as many as there is room for besides; which
    /// ones, is left open where not all have room. A cache that is switched off
    /// stays as it is.
    pub open spec fn stored(
        self,
        key: Seq<char>,
        response: Seq<u8>,
        now: u64,
        after: CacheView,
    ) -> bool {
        if !self.enabled {
            after == self
        } else {
            exists|kept: Map<Seq<char>, EntryView>|
                {
                    &&& #[trigger] self.keeps(kept, now)
                    &&& after == self.with_entries(kept.insert(key, self.new_entry(response, now)))
                }
        }
    }

    /// Whether `kept` is a choice of entries that leaves room for one more: all
    /// that have not expired where they leave it, else as many of them as may stay.
    pub open spec fn keeps(self, kept: Map<Seq<char>, EntryView>, now: u64) -> bool {
        let all = live(self.entries, now);
        &&& kept.submap_of(all)
        &&& kept.dom().finite()
        &&& kept.len() == if all.len() < self.max_entries {
            all.len() as int
        } else {
            self.max_entries - 1
        }
    }
}

impl View for CacheEntry {
    type V = EntryView;

    closed spec fn view(&self) -> EntryView {
        EntryView { response: self.response@, expires_at: self.expires_at as nat }
    }
}

impl View for Cache {
    type V = CacheView;

    closed spec fn view(&self) -> CacheView {
        CacheView {
            enabled: self.enabled,
            max_entries: self.max_entries as nat,
            ttl: self.ttl_secs as nat * NANOS_PER_SEC as nat,
            entries: self.entries@.map_values(|e: CacheEntry| e@),
        }
    }
}

impl Cache {
    /// The keys, as a sequence of texts.
    closed spec fn key_list(self) -> Seq<Seq<char>> {
        self.keys@.map_values(|k: String| k@)
    }

    /// The list of keys is that of the entries.
    closed spec fn keys_match(self) -> bool {
        &&& self.key_list().no_duplicates()
        &&& self.key_list().to_set() == self.entries@.dom()
    }

    /// The cache is in order: the list of keys is that of the entries, and there
    /// are no more of them than there may be.
    pub closed spec fn wf(self) -> bool {
        &&& self.keys_match()
        &&& self.max_entries >= 1
        &&& self.keys@.len() <= self.max_entries
    }

    /// The clock of the cache.
    pub closed spec fn own_clock(self) -> Clock {
        self.clock
    }

    /// Whether the two caches measure time on the same clock.
    pub open spec fn same_clock(self, other: Self) -> bool {
        self.own_clock() == other.own_clock()
    }

    /// A cache. Where `enabled` is false, nothing is ever stored in it. A limit of
    /// 0 entries counts as 1.
    pub fn new(enabled: bool, max_entries: usize, ttl_secs: u64) -> (r: Self)
        ensures
            r.wf(),
            r@ == (CacheView {
                enabled,
                max_entries: if max_entries == 0 {
                    1
                } else {
                    max_entries as nat
                },
                ttl: ttl_secs as nat * NANOS_PER_SEC as nat,
                entries: Map::empty(),
            }),
            r@.ttl == ttl_secs * 1_000_000_000,
    {
        let limit: usize = if max_entries == 0 {
            1
        } else {
            max_entries
        };
        let r = Cache {
            enabled,
            max_entries: limit,
            ttl_secs,
            clock: Clock::new(),
            entries: StringHashMap::new(),
            keys: Vec::new(),
        };
        proof {
            assert(r.key_list() =~= Seq::empty());
            assert(r.key_list().to_set() =~= r.entries@.dom());
            assert(r@.entries =~= Map::empty());
        }
        r
    }

    /// The key of a question: name, type and class.
    pub fn key(name: &str, qtype: u16, qclass: u16) -> (r: String)
        ensures
            r@ == cache_key(name@, qtype, qclass),
    {
        let mut key = String::new();
        key.append(name);
        key.push(':');
        number::push_decimal(&mut key, qtype);
        key.push(':');
        number::push_decimal(&mut key, qclass);
        assert(key@ =~= cache_key(name@, qtype, qclass));
        key
    }

    /// The moment on the cache's clock, in nanoseconds.
    ///
    /// What the number is, is not stated: it depends on when the call is made.
    pub fn now(&self) -> u64 {
        self.clock.now()
    }

    /// The response that was stored for a question, if there is one and it has not
    /// expired. Its id is that of the query it was stored for.
    ///
    /// The clock decides what has expired: for some moment, this is what
    /// [`Cache::get_at`] gives at it.
    pub fn get(&self, name: &str, qtype: u16, qclass: u16) -> (r: Option<Vec<u8>>)
        ensures
            exists|now: u64|
                octets_of(r) == #[trigger] self@.lookup(cache_key(name@, qtype, qclass), now),
    {
        self.get_at(self.now(), name, qtype, qclass)
    }

    /// The response that was stored for a question, if there is one and it has not
    /// expired at the moment `now`.
    pub fn get_at(&self, now: u64, name: &str, qtype: u16, qclass: u16) -> (r: Option<Vec<u8>>)
        ensures
            octets_of(r) == self@.lookup(cache_key(name@, qtype, qclass), now),
    {
        if !self.enabled {
            return None;
        }
        let key = Self::key(name, qtype, qclass);
        match self.entries.get(key.as_str()) {
            Some(entry) => if entry.expires_at <= now as u128 {
                None
            } else {
                Some(copy_of(&entry.response))
            },
            None => None,
        }
    }

    /// Store a response for as long as is configured.
    ///
    /// Entries that have expired go first; where there is still no room, others
    /// go, which ones is left open. The clock decides what has expired and when
    /// the new entry will: for some moment, this is what [`Cache::put_at`] does at
    /// it.
    pub fn put(&mut self, name: &str, qtype: u16, qclass: u16, response: Vec<u8>)
        requires
            old(self).wf(),
        ensures
            final(self).wf(),
            final(self).same_clock(*old(self)),
            exists|now: u64| #[trigger]
                old(self)@.stored(cache_key(name@, qtype, qclass), response@, now, final(self)@),
    {
        let now = self.now();
        self.put_at(now, name, qtype, qclass, response);
    }

    /// Store a response at the moment `now`.
    pub fn put_at(&mut self, now: u64, name: &str, qtype: u16, qclass: u16, response: Vec<u8>)
        requires
            old(self).wf(),
        ensures
            final(self).wf(),
            final(self).same_clock(*old(self)),
            old(self)@.stored(cache_key(name@, qtype, qclass), response@, now, final(self)@),
    {
        if !self.enabled {
            return;
        }
        let ghost before = self@;
        self.cleanup_expired(now);
        let ghost all = self@.entries;
        proof {
            self.lemma_sizes();
        }
        while self.keys.len() >= self.max_entries
            invariant
                self.wf(),
                self.same_clock(*old(self)),
                self@ == before.with_entries(self@.entries),
                all == live(before.entries, now),
                all.dom().finite(),
                self@.entries.submap_of(all),
                self@.entries.len() == self.keys@.len(),
                all.len() < before.max_entries ==> self@.entries.len() == all.len(),
                all.len() >= before.max_entries ==> self@.entries.len() >= before.max_entries - 1,
            decreases self.keys@.len(),
        {
            self.remove_at(0);
            proof {
                self.lemma_sizes();
            }
        }
        let ghost kept = self@.entries;
        proof {
            self.lemma_sizes();
            assert(before.keeps(kept, now));
        }
        let key = Self::key(name, qtype, qclass);
        let ghost key_text = key@;
        let ghost key_list = self.key_list();
        let expires_at: u128 = now as u128 + self.ttl_secs as u128 * NANOS_PER_SEC as u128;
        let entry = CacheEntry { response, expires_at };
        if !self.entries.contains_key(key.as_str()) {
            self.keys.push(key.clone());
            proof {
                assert(self.key_list() =~= key_list.push(key_text));
            }
        }
        self.entries.insert(key, entry);
        proof {
            assert(self@.entries =~= kept.insert(key_text, entry@));
            assert(entry@ == before.new_entry(response@, now));
            lemma_pushed(key_list, key_text);
            assert(self.key_list().to_set() =~= self.entries@.dom());
        }
    }

    /// Remove the entries that have expired.
    fn cleanup_expired(&mut self, now: u64)
        requires
            old(self).wf(),
        ensures
            final(self).wf(),
            final(self).same_clock(*old(self)),
            final(self)@ == old(self)@.with_entries(live(old(self)@.entries, now)),
            final(self).enabled == old(self).enabled,
            final(self).max_entries == old(self).max_entries,
            final(self).ttl_secs == old(self).ttl_secs,
    {
        let ghost before = self@;
        let mut i: usize = 0;
        while i < self.keys.len()
            invariant
                self.wf(),
                self.same_clock(*old(self)),
                i <= self.keys@.len(),
                self.enabled == old(self).enabled,
                self.max_entries == old(self).max_entries,
                self.ttl_secs == old(self).ttl_secs,
                self@ == before.with_entries(self@.entries),
                self@.entries.submap_of(before.entries),
                live(before.entries, now).submap_of(self@.entries),
                forall|j: int|
                    0 <= j < i ==> self@.entries[#[trigger] self.key_list()[j]].expires_at > now,
            decreases self.keys@.len() - i,
        {
            let ghost key = self.key_list()[i as int];
            proof {
                assert(self.key_list().contains(key));
                assert(self.entries@.contains_key(key));
            }
            let expired = match self.entries.get(self.keys[i].as_str()) {
                Some(entry) => entry.expires_at <= now as u128,
                None => true,
            };
            let ghost prior = *self;
            proof {
                assert(prior@.entries[key] == prior.entries@[key]@);
                assert(prior@.entries.dom().contains(key));
                assert(before.entries.dom().contains(key));
            }
            if expired {
                self.remove_at(i);
                proof {
                    assert(self@.entries.submap_of(before.entries)) by {
                        assert forall|k: Seq<char>| #[trigger]
                            self@.entries.dom().contains(k) implies before.entries.dom().contains(k)
                            && self@.entries[k] == before.entries[k] by {
                            assert(prior@.entries.dom().contains(k));
                        }
                    }
                    assert(live(before.entries, now).submap_of(self@.entries)) by {
                        assert forall|k: Seq<char>| #[trigger]
                            live(before.entries, now).dom().contains(
                            k,
                        ) implies self@.entries.dom().contains(k) && live(before.entries, now)[k]
                            == self@.entries[k] by {
                            assert(prior@.entries.dom().contains(k));
                            assert(k != key);
                        }
                    }
                    assert forall|j: int| 0 <= j < i implies self@.entries[#[trigger] self.key_list()[j]].expires_at
                        > now by {
                        assert(self.key_list()[j] == prior.key_list()[j]);
                        assert(prior.key_list()[j] != key);
                    }
                }
            } else {
                i += 1;
            }
        }
        proof {
            assert(self@.entries =~= live(before.entries, now)) by {
                assert forall|k: Seq<char>| self@.entries.contains_key(k) implies live(
                    before.entries,
                    now,
                ).contains_key(k) by {
                    assert(self.key_list().to_set().contains(k));
                    let j = choose|j: int|
                        0 <= j < self.key_list().len() && self.key_list()[j] == k;
                    assert(self@.entries[self.key_list()[j]].expires_at > now);
                    assert(self@.entries.dom().contains(k));
                    assert(before.entries.dom().contains(k));
                }
            }
        }
    }

    /// Remove the entry whose key is the `i`-th of the list.
    fn remove_at(&mut self, i: usize)
        requires
            old(self).keys_match(),
            i < old(self).keys@.len(),
        ensures
            final(self).keys_match(),
            final(self).same_clock(*old(self)),
            final(self)@ == old(self)@.with_entries(
                old(self)@.entries.remove(old(self).key_list()[i as int]),
            ),
            final(self).keys@.len() == old(self).keys@.len() - 1,
            forall|j: int|
                0 <= j < i ==> final(self).key_list()[j] == #[trigger] old(self).key_list()[j],
            final(self).enabled == old(self).enabled,
            final(self).max_entries == old(self).max_entries,
            final(self).ttl_secs == old(self).ttl_secs,
    {
        let ghost list = self.key_list();
        let key = self.keys.swap_remove(i);
        self.entries.remove(key.as_str());
        proof {
            assert(self.key_list() =~= list.update(i as int, list.last()).drop_last());
            lemma_swap_removed(list, i as int);
            assert(self.key_list().to_set() =~= self.entries@.dom());
            assert(self@.entries =~= old(self)@.entries.remove(list[i as int]));
        }
    }

    /// How many entries there are.
    pub fn len(&self) -> (r: usize)
        requires
            self.wf(),
        ensures
            r == self@.entries.len(),
            r <= self@.max_entries,
    {
        proof {
            self.lemma_sizes();
        }
        self.keys.len()
    }

    /// There are as many keys as entries.
    proof fn lemma_sizes(&self)
        requires
            self.keys_match(),
        ensures
            self.keys@.len() == self@.entries.len(),
            self@.entries.dom().finite(),
            self@.entries.dom() == self.entries@.dom(),
    {
        self.key_list().unique_seq_to_set();
        vstd::seq_lib::seq_to_set_is_finite(self.key_list());
        assert(self@.entries.dom() =~= self.entries@.dom());
    }
}

/// Adding a text that is not in a list adds it to the set of them, and no
/// duplicate.
proof fn lemma_pushed(list: Seq<Seq<char>>, key: Seq<char>)
    requires
        list.no_duplicates(),
    ensures
        list.push(key).to_set() == list.to_set().insert(key),
        !list.to_set().contains(key) ==> list.push(key).no_duplicates(),
{
    let more = list.push(key);
    assert(more.last() == key);
    assert forall|k: Seq<char>| more.to_set().contains(k) <==> list.to_set().insert(key).contains(
        k,
    ) by {
        if list.contains(k) {
            let j = choose|j: int| 0 <= j < list.len() && list[j] == k;
            assert(more[j] == k);
        }
        if more.contains(k) && k != key {
            let j = choose|j: int| 0 <= j < more.len() && more[j] == k;
            assert(list[j] == k);
        }
    }
    assert(more.to_set() =~= list.to_set().insert(key));
    if !list.to_set().contains(key) {
        assert forall|a: int, b: int| 0 <= a < more.len() && 0 <= b < more.len() && a != b implies more[a]
            != more[b] by {
            assert(a < list.len() ==> list.contains(list[a]));
            assert(b < list.len() ==> list.contains(list[b]));
        }
    }
}

/// Taking one text out of a list without duplicates, and the last one into its
/// place, takes it out of the set of them.
proof fn lemma_swap_removed(list: Seq<Seq<char>>, i: int)
    requires
        list.no_duplicates(),
        0 <= i < list.len(),
    ensures
        list.update(i, list.last()).drop_last().no_duplicates(),
        list.update(i, list.last()).drop_last().to_set() == list.to_set().remove(list[i]),
{
    let less = list.update(i, list.last()).drop_last();
    assert forall|k: Seq<char>| less.to_set().contains(k) <==> list.to_set().remove(
        list[i],
    ).contains(k) by {
        if less.contains(k) {
            let j = choose|j: int| 0 <= j < less.len() && less[j] == k;
            let from = if j == i {
                list.len() - 1
            } else {
                j
            };
            assert(list[from] == k);
            assert(from != i);
        }
        if list.contains(k) && k != list[i] {
            let j = choose|j: int| 0 <= j < list.len() && list[j] == k;
            let to = if j == list.len() - 1 {
                i
            } else {
                j
            };
            assert(less[to] == k);
        }
    }
    assert(less.to_set() =~= list.to_set().remove(list[i]));
}

/// What an optional response holds.
pub open spec fn octets_of(r: Option<Vec<u8>>) -> Option<Seq<u8>> {
    match r {
        Some(v) => Some(v@),
        None => None,
    }
}

/// The same octets in a new vector.
fn copy_of(v: &Vec<u8>) -> (r: Vec<u8>)
    ensures
        r@ == v@,
{
    vstd::slice::slice_to_vec(v.as_slice())
}

// ---------------------------------------------------------------------------
// What holds of the cache
// ---------------------------------------------------------------------------

/// The parts of a key between its colons.
proof fn lemma_key_parts(name: Seq<char>, qtype: u16, qclass: u16)
    ensures
        text::split(cache_key(name, qtype, qclass), ':') == text::split(name, ':').push(
            number::decimal(qtype as nat),
        ).push(number::decimal(qclass as nat)),
{
    let t = number::decimal(qtype as nat);
    let c = number::decimal(qclass as nat);
    number::lemma_decimal(qtype as nat);
    number::lemma_decimal(qclass as nat);
    let front = name.push(':') + t;
    assert forall|i: int| 0 <= i < t.len() implies t[i] != ':' by {
        assert(number::is_digit(t[i]));
    }
    assert forall|i: int| 0 <= i < c.len() implies c[i] != ':' by {
        assert(number::is_digit(c[i]));
    }
    text::lemma_split_last(name, ':', t);
    text::lemma_split_last(front, ':', c);
    assert(cache_key(name, qtype, qclass) =~= front.push(':') + c);
}

/// A cache that is in order has a limit of one entry at least, and keeps it.
pub proof fn law_cache_is_bounded(c: &Cache)
    requires
        c.wf(),
    ensures
        c@.max_entries >= 1,
        c@.entries.dom().finite(),
        c@.entries.len() <= c@.max_entries,
{
    c.lemma_sizes();
}

/// Storing drops no more than is needed: of the entries that had not expired, all
/// that leave room for one more are still there, as they were; and no other is.
pub proof fn law_storing_drops_no_more_than_needed(
    before: CacheView,
    key: Seq<char>,
    response: Seq<u8>,
    now: u64,
    after: CacheView,
)
    requires
        before.enabled,
        before.max_entries >= 1,
        before.entries.dom().finite(),
        before.stored(key, response, now, after),
    ensures
        ({
            let alive = Set::new(
                |k: Seq<char>| before.entries.contains_key(k) && before.entries[k].expires_at > now,
            );
            &&& alive.len() < before.max_entries ==> after.entries.len() >= alive.len()
            &&& alive.len() >= before.max_entries ==> after.entries.len() >= before.max_entries - 1
            &&& forall|k: Seq<char>| #[trigger]
                after.entries.contains_key(k) && k != key ==> alive.contains(k) && after.entries[k]
                    == before.entries[k]
            &&& after.entries.contains_key(key)
            &&& after.entries[key].response == response
            &&& after.entries[key].expires_at == now + before.ttl
            &&& after.max_entries == before.max_entries
            &&& after.ttl == before.ttl
            &&& after.enabled
        }),
{
    let kept = choose|kept: Map<Seq<char>, EntryView>|
        {
            &&& #[trigger] before.keeps(kept, now)
            &&& after == before.with_entries(kept.insert(key, before.new_entry(response, now)))
        };
    let alive = Set::new(
        |k: Seq<char>| before.entries.contains_key(k) && before.entries[k].expires_at > now,
    );
    assert(live(before.entries, now).dom() =~= alive);
    assert forall|k: Seq<char>| #[trigger] after.entries.contains_key(k) && k != key implies (
    alive.contains(k) && after.entries[k] == before.entries[k]) by {
        assert(kept.dom().contains(k));
        assert(live(before.entries, now).dom().contains(k));
    }
    assert(after.entries.dom() =~= kept.dom().insert(key));
}

/// The key of a question is its name, its type and its class, with colons between.
pub proof fn law_keys_are_name_type_and_class(name: Seq<char>, qtype: u16, qclass: u16)
    ensures
        cache_key(name, qtype, qclass) == name + seq![':'] + number::decimal(qtype as nat) + seq![
            ':',
        ] + number::decimal(qclass as nat),
{
    assert(cache_key(name, qtype, qclass) =~= name + seq![':'] + number::decimal(qtype as nat)
        + seq![':'] + number::decimal(qclass as nat));
}

/// Without the entries that have expired, the cache gives the same from then on.
pub proof fn law_expired_entries_do_not_matter(c: CacheView, now: u64, key: Seq<char>, later: u64)
    requires
        now <= later,
    ensures
        c.with_entries(live(c.entries, now)).lookup(key, later) == c.lookup(key, later),
{
}

/// Different questions have different keys: a response that is stored for one
/// is never found for another.
pub proof fn law_keys_tell_questions_apart(
    name1: Seq<char>,
    qtype1: u16,
    qclass1: u16,
    name2: Seq<char>,
    qtype2: u16,
    qclass2: u16,
)
    ensures
        cache_key(name1, qtype1, qclass1) == cache_key(name2, qtype2, qclass2) <==> {
            &&& name1 == name2
            &&& qtype1 == qtype2
            &&& qclass1 == qclass2
        },
{
    let k1 = cache_key(name1, qtype1, qclass1);
    let k2 = cache_key(name2, qtype2, qclass2);
    if k1 == k2 {
        lemma_key_parts(name1, qtype1, qclass1);
        lemma_key_parts(name2, qtype2, qclass2);
        let t1 = number::decimal(qtype1 as nat);
        let c1 = number::decimal(qclass1 as nat);
        let t2 = number::decimal(qtype2 as nat);
        let c2 = number::decimal(qclass2 as nat);
        let p1 = text::split(name1, ':').push(t1);
        let p2 = text::split(name2, ':').push(t2);
        assert(p1.push(c1).last() == p2.push(c2).last());
        assert(p1.push(c1).drop_last() =~= p1);
        assert(p2.push(c2).drop_last() =~= p2);
        assert(p1.last() == p2.last());
        number::lemma_decimal(qtype1 as nat);
        number::lemma_decimal(qtype2 as nat);
        number::lemma_decimal(qclass1 as nat);
        number::lemma_decimal(qclass2 as nat);
        let n = k1.len() - t1.len() - c1.len() - 2;
        assert(name1 =~= k1.take(n));
        assert(name2 =~= k2.take(n));
    }
}

/// A response that was stored is found until it expires, and not from then on.
pub proof fn law_stored_is_found_until_it_expires(
    before: CacheView,
    key: Seq<char>,
    response: Seq<u8>,
    now: u64,
    after: CacheView,
    later: u64,
)
    requires
        before.enabled,
        before.stored(key, response, now, after),
    ensures
        after.lookup(key, later) == if later < now + before.ttl {
            Some(response)
        } else {
            None
        },
{
}

/// Nothing is ever found in a cache that is switched off, whatever was stored.
pub proof fn law_disabled_finds_nothing(
    before: CacheView,
    key: Seq<char>,
    response: Seq<u8>,
    now: u64,
    after: CacheView,
    other: Seq<char>,
    later: u64,
)
    requires
        !before.enabled,
        before.stored(key, response, now, after),
    ensures
        after.lookup(other, later) is None,
{
}

/// Storing never makes the cache exceed its limit.
pub proof fn law_limit_is_kept(
    before: CacheView,
    key: Seq<char>,
    response: Seq<u8>,
    now: u64,
    after: CacheView,
)
    requires
        before.max_entries >= 1,
        before.entries.len() <= before.max_entries,
        before.stored(key, response, now, after),
    ensures
        after.entries.len() <= after.max_entries,
        after.max_entries == before.max_entries,
{
}

/// Storing for one key invents nothing for another: what is found later was
/// found before. And where there is room, nothing of it is lost.
pub proof fn law_storing_leaves_other_keys(
    before: CacheView,
    key: Seq<char>,
    response: Seq<u8>,
    now: u64,
    after: CacheView,
    other: Seq<char>,
    later: u64,
)
    requires
        before.stored(key, response, now, after),
        other != key,
        now <= later,
        before.entries.dom().finite(),
    ensures
        after.lookup(other, later) is Some ==> after.lookup(other, later) == before.lookup(
            other,
            later,
        ),
        live(before.entries, now).len() < before.max_entries ==> after.lookup(other, later)
            == before.lookup(other, later),
{
    if before.enabled {
        let kept = choose|kept: Map<Seq<char>, EntryView>|
            {
                &&& #[trigger] before.keeps(kept, now)
                &&& after == before.with_entries(kept.insert(key, before.new_entry(response, now)))
            };
        let all = live(before.entries, now);
        assert(all.dom().subset_of(before.entries.dom()));
        vstd::set_lib::lemma_len_subset(all.dom(), before.entries.dom());
        if after.entries.contains_key(other) {
            assert(kept.dom().contains(other));
            assert(all.dom().contains(other));
        }
        if all.len() < before.max_entries {
            assert(kept.dom().subset_of(all.dom()));
            vstd::set_lib::lemma_subset_equality(kept.dom(), all.dom());
            if before.entries.contains_key(other) && before.entries[other].expires_at > later {
                assert(all.dom().contains(other));
                assert(kept.dom().contains(other));
            }
        }
    }
}

} // verus!
