//! DHCP leases.
//!
//! The file holds one lease on a line:
//!
//! ```text
//! aa:bb:cc:dd:ee:ff 192.168.4.23 phone 1780310000
//! 11:22:33:44:55:66 192.168.4.42 laptop 1780310000
//! ```
//!
//! The fields are the MAC address, the IPv4 address, the host name and the moment
//! at which the lease expires, in seconds since the Unix epoch; 0 is never. A
//! lease without that field, or with one that is no number, never expires.

use vstd::prelude::*;
use vstd::hash_map::StringHashMap;
use crate::addr::Ipv4Addr;
use crate::addr;
use crate::number;
use crate::text;

verus! {

/// A lease.
#[derive(Debug)]
pub struct Lease {
    pub ip: Ipv4Addr,
    /// The name of the host, in lower case.
    pub hostname: String,
    /// When the lease expires, in seconds since the Unix epoch; 0 is never.
    pub expires_at: u64,
}

/// What a [`Lease`] holds.
pub struct LeaseView {
    pub ip: Ipv4Addr,
    pub hostname: Seq<char>,
    pub expires_at: u64,
}

/// Leases by the name of the host.
pub struct LeaseTable {
    map: StringHashMap<Lease>,
}

impl View for Lease {
    type V = LeaseView;

    open spec fn view(&self) -> LeaseView {
        LeaseView { ip: self.ip, hostname: self.hostname@, expires_at: self.expires_at }
    }
}

impl View for LeaseTable {
    type V = Map<Seq<char>, LeaseView>;

    closed spec fn view(&self) -> Map<Seq<char>, LeaseView> {
        self.map@.map_values(|l: Lease| l@)
    }
}

impl LeaseView {
    /// Whether the lease still holds at a moment.
    pub open spec fn holds_at(self, now: u64) -> bool {
        self.expires_at == 0 || self.expires_at > now
    }
}

impl Lease {
    /// Whether the lease still holds at a moment.
    pub fn holds_at(&self, now: u64) -> (r: bool)
        ensures
            r == self@.holds_at(now),
    {
        self.expires_at == 0 || self.expires_at > now
    }
}

/// The moment at which a lease with these fields expires.
pub open spec fn expiry_of(fields: Seq<Seq<char>>) -> u64 {
    if fields.len() > 3 {
        match number::number(fields[3], u64::MAX as nat) {
            Some(n) => n as u64,
            None => 0,
        }
    } else {
        0
    }
}

/// The lease on a line, if there is one: three fields at least, the second of
/// them an address, the third a name.
pub open spec fn lease_of(line: Seq<char>) -> Option<LeaseView> {
    let l = text::trimmed(line);
    let fields = text::words(l);
    if l.len() == 0 || l[0] == '#' || fields.len() < 3 {
        None
    } else {
        match addr::ipv4(fields[1]) {
            Some(ip) => if fields[2] == seq!['*'] {
                None
            } else {
                Some(
                    LeaseView {
                        ip,
                        hostname: text::lower(fields[2]),
                        expires_at: expiry_of(fields),
                    },
                )
            },
            None => None,
        }
    }
}

/// The leases on the lines that hold at the moment `now`, by the name of the
/// host: the last one of a name.
pub open spec fn leases_of(lines: Seq<Seq<char>>, now: u64) -> Map<Seq<char>, LeaseView>
    decreases lines.len(),
{
    if lines.len() == 0 {
        Map::empty()
    } else {
        let before = leases_of(lines.drop_last(), now);
        match lease_of(lines.last()) {
            Some(lease) => if lease.holds_at(now) {
                before.insert(lease.hostname, lease)
            } else {
                before
            },
            None => before,
        }
    }
}

impl LeaseTable {
    /// The table without a lease.
    pub fn new() -> (r: Self)
        ensures
            r@ == Map::<Seq<char>, LeaseView>::empty(),
    {
        let r = LeaseTable { map: StringHashMap::new() };
        assert(r@ =~= Map::empty());
        r
    }

    /// Add a lease, in place of an earlier one of the same host.
    pub fn insert(&mut self, lease: Lease)
        ensures
            final(self)@ == old(self)@.insert(lease@.hostname, lease@),
    {
        let host = lease.hostname.clone();
        self.map.insert(host, lease);
        assert(self@ =~= old(self)@.insert(lease@.hostname, lease@));
    }

    /// The lease of a host, if there is one.
    pub fn get(&self, host: &str) -> (r: Option<&Lease>)
        ensures
            match r {
                Some(lease) => self@.contains_key(host@) && self@[host@] == lease@,
                None => !self@.contains_key(host@),
            },
    {
        self.map.get(host)
    }

    /// How many leases there are.
    pub fn len(&self) -> (r: usize)
        ensures
            r == self@.len(),
    {
        assert(self@.dom() =~= self.map@.dom());
        self.map.len()
    }

    /// Whether there is no lease.
    pub fn is_empty(&self) -> (r: bool)
        ensures
            r == (self@ == Map::<Seq<char>, LeaseView>::empty()),
    {
        proof {
            assert(self@.dom() =~= self.map@.dom());
            if self.map@.is_empty() {
                assert(self@ =~= Map::empty());
            }
        }
        self.map.is_empty()
    }
}

/// The leases in a file whose contents are given, those that have expired left
/// out; a file that could not be read gives none.
pub fn load(contents: Option<&str>, now: u64) -> (r: LeaseTable)
    ensures
        r@ == (match contents {
            Some(t) => leases_of(text::lines(t@), now),
            None => Map::empty(),
        }),
{
    match contents {
        Some(t) => parse_at(t, now),
        None => LeaseTable::new(),
    }
}

/// Read leases, whenever they expire. Lines that hold none are skipped.
pub fn parse(text: &str) -> (r: LeaseTable)
    ensures
        r@ == leases_of(text::lines(text@), 0),
{
    parse_at(text, 0)
}

/// Read the leases that hold at the moment `now`. Lines that hold none are
/// skipped.
pub fn parse_at(text: &str, now: u64) -> (r: LeaseTable)
    ensures
        r@ == leases_of(text::lines(text@), now),
{
    let chars = text::chars_of(text);
    let parts = text::split_at_char(chars.as_slice(), '\n');
    let ghost lines = text::lines(text@);
    let mut table = LeaseTable::new();
    proof {
        assert(lines.take(0) =~= seq![]);
    }
    for i in 0..parts.len()
        invariant
            text::views(parts@) == lines,
            table@ == leases_of(lines.take(i as int), now),
    {
        proof {
            assert(lines[i as int] == parts@[i as int]@);
            assert(lines.take(i + 1).drop_last() =~= lines.take(i as int));
        }
        match parse_line(parts[i]) {
            Some(lease) => if lease.holds_at(now) {
                table.insert(lease);
            },
            None => {},
        }
    }
    assert(lines.take(lines.len() as int) =~= lines);
    table
}

/// Read the lease on a line.
fn parse_line(line: &[char]) -> (r: Option<Lease>)
    ensures
        match r {
            Some(lease) => lease_of(line@) == Some(lease@),
            None => lease_of(line@) is None,
        },
{
    let l = text::trim(line);
    if l.len() == 0 || l[0] == '#' {
        return None;
    }
    let fields = text::split_words(l);
    let ghost words = text::words(l@);
    assert(fields@.len() == words.len());
    if fields.len() < 3 {
        return None;
    }
    assert forall|i: int| 0 <= i < words.len() implies #[trigger] words[i] == fields@[i]@ by {
        assert(text::views(fields@)[i] == fields@[i]@);
    }
    let ip = match addr::parse_ipv4(fields[1]) {
        Some(ip) => ip,
        None => return None,
    };
    if fields[2].len() == 1 && fields[2][0] == '*' {
        assert(words[2] =~= seq!['*']);
        return None;
    }
    let expires_at: u64 = if fields.len() > 3 {
        match number::parse_number(fields[3], 0xffff_ffff_ffff_ffff) {
            Some(n) => n,
            None => 0,
        }
    } else {
        0
    };
    Some(Lease { ip, hostname: text::lower_string_of(fields[2]), expires_at })
}

// ---------------------------------------------------------------------------
// What the table means
// ---------------------------------------------------------------------------

/// Every lease in the table was on a line, is filed under its own name, and
/// holds at the moment at which the lines were read.
pub proof fn law_leases_hold_when_read(lines: Seq<Seq<char>>, now: u64, host: Seq<char>)
    ensures
        leases_of(lines, now).contains_key(host) ==> {
            let lease = leases_of(lines, now)[host];
            &&& lease.hostname == host
            &&& lease.holds_at(now)
            &&& exists|i: int| 0 <= i < lines.len() && lease_of(#[trigger] lines[i]) == Some(lease)
        },
    decreases lines.len(),
{
    if lines.len() > 0 {
        let init = lines.drop_last();
        law_leases_hold_when_read(init, now, host);
        assert(lines[lines.len() - 1] == lines.last());
        if leases_of(init, now).contains_key(host) {
            let k = choose|k: int|
                0 <= k < init.len() && lease_of(#[trigger] init[k]) == Some(
                    leases_of(init, now)[host],
                );
            assert(lines[k] == init[k]);
        }
    }
}

/// A line that holds a lease which has not expired is not lost: the table has a
/// lease of that host, this one where no later line has another.
pub proof fn law_no_lease_is_lost(lines: Seq<Seq<char>>, now: u64, i: int)
    requires
        0 <= i < lines.len(),
    ensures
        lease_of(lines[i]) matches Some(lease) ==> lease.holds_at(now) ==> {
            &&& leases_of(lines, now).contains_key(lease.hostname)
            &&& (forall|j: int|
                i < j < lines.len() ==> (lease_of(#[trigger] lines[j]) matches Some(other)
                    ==> other.hostname != lease.hostname || !other.holds_at(now))) ==> leases_of(
                lines,
                now,
            )[lease.hostname] == lease
        },
    decreases lines.len(),
{
    let init = lines.drop_last();
    if i < init.len() {
        law_no_lease_is_lost(init, now, i);
        assert(init[i] == lines[i]);
        assert(forall|j: int| 0 <= j < init.len() ==> init[j] == #[trigger] lines[j]);
        assert(lines[lines.len() - 1] == lines.last());
    }
}

} // verus!
