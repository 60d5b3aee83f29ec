//! What the lines of the lease file and of the block file mean, and when the files
//! are looked at.

use vstd::prelude::*;
use crate::addr::Ipv4Addr;
use crate::addr;
use crate::blocklist;
use crate::leases::LeaseView;
use crate::leases;
use crate::number;
use crate::text;
use crate::text_laws;
use crate::watch::FileWatchView;

verus! {

// ---------------------------------------------------------------------------
// Leases
// ---------------------------------------------------------------------------

/// Whether a text is white space, and not empty.
pub open spec fn is_gap(s: Seq<char>) -> bool {
    s.len() > 0 && text_laws::all_space(s)
}

/// Whether a text is empty or begins with white space.
pub open spec fn is_tail(s: Seq<char>) -> bool {
    s.len() > 0 ==> text::is_space(s[0])
}

/// Digits with dots between them hold no white space.
proof fn lemma_joined_digits(parts: Seq<Seq<char>>)
    requires
        parts.len() > 0,
        forall|i: int| 0 <= i < parts.len() ==> text_laws::only_digits(#[trigger] parts[i]),
    ensures
        text_laws::is_word(text_laws::joined(parts, '.')),
    decreases parts.len(),
{
    let whole = text_laws::joined(parts, '.');
    let last = parts.last();
    assert(text_laws::only_digits(parts[parts.len() - 1]));
    if parts.len() == 1 {
        assert forall|i: int| 0 <= i < whole.len() implies !text::is_space(#[trigger] whole[i]) by {
            assert(whole[i] == last[i]);
        }
    } else {
        let init = parts.drop_last();
        assert forall|i: int| 0 <= i < init.len() implies text_laws::only_digits(
            #[trigger] init[i],
        ) by {
            assert(init[i] == parts[i]);
        }
        lemma_joined_digits(init);
        let front = text_laws::joined(init, '.');
        assert forall|i: int| 0 <= i < whole.len() implies !text::is_space(#[trigger] whole[i]) by {
            if i < front.len() {
                assert(whole[i] == front[i]);
            } else if i == front.len() {
                assert(whole[i] == '.');
            } else {
                assert(whole[i] == last[i - front.len() - 1]);
            }
        }
    }
}

/// A number is written as a word.
proof fn lemma_decimal_is_word(n: nat)
    ensures
        text_laws::is_word(number::decimal(n)),
{
    let w = number::decimal(n);
    text_laws::law_writing_numbers(n, w);
    assert forall|i: int| 0 <= i < w.len() implies !text::is_space(#[trigger] w[i]) by {
        assert(48 <= w[i] as int <= 57);
    }
}

/// An address is written as a word.
proof fn lemma_dotted_is_word(ip: Ipv4Addr)
    ensures
        text_laws::is_word(text_laws::dotted(ip)),
{
    let parts = seq![
        number::decimal(ip.a as nat),
        number::decimal(ip.b as nat),
        number::decimal(ip.c as nat),
        number::decimal(ip.d as nat),
    ];
    text_laws::law_writing_numbers(ip.a as nat, parts[0]);
    text_laws::law_writing_numbers(ip.b as nat, parts[1]);
    text_laws::law_writing_numbers(ip.c as nat, parts[2]);
    text_laws::law_writing_numbers(ip.d as nat, parts[3]);
    lemma_joined_digits(parts);
}

/// A line of three words and whatever follows: its words, and its beginning.
proof fn lemma_three_words(
    pad: Seq<char>,
    mac: Seq<char>,
    gap1: Seq<char>,
    second: Seq<char>,
    gap2: Seq<char>,
    third: Seq<char>,
    rest: Seq<char>,
)
    requires
        text_laws::all_space(pad),
        text_laws::is_word(mac),
        is_gap(gap1),
        text_laws::is_word(second),
        is_gap(gap2),
        text_laws::is_word(third),
        is_tail(rest),
    ensures
        ({
            let line = pad + mac + gap1 + second + gap2 + third + rest;
            &&& text::words(text::trimmed(line)) == seq![mac, second, third] + text::words(rest)
            &&& text::trimmed(line).len() > 0
            &&& text::trimmed(line)[0] == mac[0]
        }),
{
    let line = pad + mac + gap1 + second + gap2 + third + rest;
    let r2 = gap2 + third + rest;
    let r1 = gap1 + second + r2;
    assert(line =~= pad + mac + r1);
    assert(r1[0] == gap1[0]);
    assert(r2[0] == gap2[0]);
    text_laws::law_first_word(pad, mac, r1);
    text_laws::law_first_word(gap1, second, r2);
    text_laws::law_first_word(gap2, third, rest);
    text_laws::law_trimming_keeps_the_words(line);
    assert(seq![mac] + (seq![second] + (seq![third] + text::words(rest))) =~= seq![
        mac,
        second,
        third,
    ] + text::words(rest));
    assert(line =~= pad + (mac + r1));
    assert((mac + r1)[0] == mac[0]);
    text_laws::law_trimmed_text_begins_with_its_first_word(pad, mac + r1);
}

/// A line with a MAC address, an address, a host name other than `*` and a number,
/// between white space, holds the lease of that address for that host, in lower
/// case, until that very moment. What follows does not matter.
pub proof fn law_lease_lines(
    pad: Seq<char>,
    mac: Seq<char>,
    gap1: Seq<char>,
    ip: Ipv4Addr,
    gap2: Seq<char>,
    host: Seq<char>,
    gap3: Seq<char>,
    expiry: u64,
    rest: Seq<char>,
)
    requires
        text_laws::all_space(pad),
        text_laws::is_word(mac),
        mac[0] != '#',
        is_gap(gap1),
        is_gap(gap2),
        text_laws::is_word(host),
        host != seq!['*'],
        is_gap(gap3),
        is_tail(rest),
    ensures
        leases::lease_of(
            pad + mac + gap1 + text_laws::dotted(ip) + gap2 + host + (gap3 + number::decimal(
                expiry as nat,
            ) + rest),
        ) == Some(LeaseView { ip, hostname: text::lower(host), expires_at: expiry }),
{
    let digits = number::decimal(expiry as nat);
    let more = gap3 + digits + rest;
    lemma_dotted_is_word(ip);
    lemma_decimal_is_word(expiry as nat);
    text_laws::law_addresses_are_dotted_decimal(text_laws::dotted(ip), ip);
    text_laws::law_writing_numbers(expiry as nat, digits);
    text_laws::law_reading_numbers(digits, u64::MAX as nat);
    assert(more[0] == gap3[0]);
    lemma_three_words(pad, mac, gap1, text_laws::dotted(ip), gap2, host, more);
    text_laws::law_first_word(gap3, digits, rest);
    let line = pad + mac + gap1 + text_laws::dotted(ip) + gap2 + host + more;
    let fields = text::words(text::trimmed(line));
    assert(fields[1] == text_laws::dotted(ip));
    assert(fields[2] == host);
    assert(fields[3] == digits);
}

/// Where the number is left out, or something else stands in its place, the lease
/// never expires.
pub proof fn law_lease_lines_without_expiry(
    pad: Seq<char>,
    mac: Seq<char>,
    gap1: Seq<char>,
    ip: Ipv4Addr,
    gap2: Seq<char>,
    host: Seq<char>,
    rest: Seq<char>,
)
    requires
        text_laws::all_space(pad),
        text_laws::is_word(mac),
        mac[0] != '#',
        is_gap(gap1),
        is_gap(gap2),
        text_laws::is_word(host),
        host != seq!['*'],
        is_tail(rest),
        text::words(rest).len() == 0 || number::number(text::words(rest)[0], u64::MAX as nat) is None,
    ensures
        leases::lease_of(pad + mac + gap1 + text_laws::dotted(ip) + gap2 + host + rest) == Some(
            LeaseView { ip, hostname: text::lower(host), expires_at: 0 },
        ),
{
    lemma_dotted_is_word(ip);
    text_laws::law_addresses_are_dotted_decimal(text_laws::dotted(ip), ip);
    lemma_three_words(pad, mac, gap1, text_laws::dotted(ip), gap2, host, rest);
    let line = pad + mac + gap1 + text_laws::dotted(ip) + gap2 + host + rest;
    let fields = text::words(text::trimmed(line));
    assert(fields[1] == text_laws::dotted(ip));
    assert(fields[2] == host);
    if text::words(rest).len() > 0 {
        assert(fields[3] == text::words(rest)[0]);
    }
}

/// No other line holds a lease: an empty one or a comment, one of fewer than three
/// words, one whose second word is no address, one whose host is `*`.
pub proof fn law_lines_without_a_lease(line: Seq<char>)
    ensures
        ({
            let l = text::trimmed(line);
            let fields = text::words(line);
            (l.len() == 0 || l[0] == '#' || fields.len() < 3 || fields[2] == seq!['*'] || forall|
                ip: Ipv4Addr,
            |
                fields[1] != #[trigger] text_laws::dotted(ip)) ==> leases::lease_of(line) is None
        }),
{
    text_laws::law_trimming_keeps_the_words(line);
    let fields = text::words(line);
    if fields.len() >= 3 {
        if let Some(ip) = addr::ipv4(fields[1]) {
            text_laws::law_addresses_are_dotted_decimal(fields[1], ip);
            assert(fields[1] == text_laws::dotted(ip));
        }
    }
}

/// A lease counts as long as its moment has not come, for ever where it has none;
/// and no longer.
pub proof fn law_leases_hold_until_they_expire(lease: LeaseView, now: u64)
    ensures
        lease.expires_at == 0 ==> lease.holds_at(now),
        now < lease.expires_at ==> lease.holds_at(now),
        0 < lease.expires_at <= now ==> !lease.holds_at(now),
{
}

/// What is read of the file: of each host the last lease whose moment has not come,
/// and none whose moment has.
pub proof fn law_leases_are_read_until_they_expire(
    lines: Seq<Seq<char>>,
    now: u64,
    i: int,
    host: Seq<char>,
)
    requires
        0 <= i < lines.len(),
    ensures
        leases::leases_of(lines, now).contains_key(host) ==> {
            let lease = leases::leases_of(lines, now)[host];
            &&& lease.hostname == host
            &&& lease.expires_at == 0 || now < lease.expires_at
            &&& exists|k: int|
                0 <= k < lines.len() && leases::lease_of(#[trigger] lines[k]) == Some(lease)
        },
        leases::lease_of(lines[i]) matches Some(lease) ==> {
            &&& lease.expires_at == 0 || now < lease.expires_at
            &&& forall|j: int|
                i < j < lines.len() ==> (leases::lease_of(#[trigger] lines[j]) matches Some(other)
                    ==> other.hostname != lease.hostname || 0 < other.expires_at <= now)
        } ==> {
            &&& leases::leases_of(lines, now).contains_key(lease.hostname)
            &&& leases::leases_of(lines, now)[lease.hostname] == lease
        },
{
    leases::law_leases_hold_when_read(lines, now, host);
    leases::law_no_lease_is_lost(lines, now, i);
}

// ---------------------------------------------------------------------------
// Blocked domains
// ---------------------------------------------------------------------------

/// Whether a name lies below a domain: something, a dot, and the domain.
pub open spec fn is_below(name: Seq<char>, domain: Seq<char>) -> bool {
    exists|front: Seq<char>| name == #[trigger] (front + seq!['.']) + domain
}

/// Whether a line of the block file blocks a name: it is not empty and no comment;
/// without white space and the dots at its end and in lower case it is the name, or
/// it is `*.` and a domain which the name is or lies below.
pub open spec fn line_blocks(line: Seq<char>, name: Seq<char>) -> bool {
    let l = text::trimmed(line);
    let d = text::normalized(l);
    &&& l.len() > 0
    &&& l[0] != '#'
    &&& if d.len() >= 2 && d[0] == '*' && d[1] == '.' {
        name == d.skip(2) || is_below(name, d.skip(2))
    } else {
        name == d
    }
}

/// To end with a dot and a domain is to lie below it.
pub proof fn lemma_below(name: Seq<char>, domain: Seq<char>)
    ensures
        text::has_suffix(name, seq!['.'] + domain) <==> is_below(name, domain),
{
    let suffix = seq!['.'] + domain;
    if text::has_suffix(name, suffix) {
        let front = name.take(name.len() - suffix.len());
        assert(name =~= (front + seq!['.']) + domain) by {
            assert(name =~= front + name.skip(name.len() - suffix.len()));
        }
    }
    if is_below(name, domain) {
        let front = choose|front: Seq<char>| name == #[trigger] (front + seq!['.']) + domain;
        assert(name.skip(name.len() - suffix.len()) =~= suffix);
    }
}

/// A name is blocked exactly where a line of the file blocks it.
pub proof fn law_names_are_blocked_by_lines(lines: Seq<Seq<char>>, name: Seq<char>)
    ensures
        blocklist::list_of(lines).blocks(name) <==> exists|i: int|
            0 <= i < lines.len() && line_blocks(#[trigger] lines[i], name),
{
    blocklist::law_list_blocks_what_its_lines_cover(lines, name);
    assert forall|i: int| 0 <= i < lines.len() implies line_blocks(#[trigger] lines[i], name) == (
    blocklist::rule_of(lines[i]) matches Some(rule) && rule.covers(name)) by {
        lemma_below(name, text::normalized(text::trimmed(lines[i])).skip(2));
    }
    if blocklist::list_of(lines).blocks(name) {
        let k = choose|k: int|
            0 <= k < lines.len() && (blocklist::rule_of(#[trigger] lines[k]) matches Some(rule)
                && rule.covers(name));
        assert(line_blocks(lines[k], name));
    }
}

/// How many entries a list holds: no line adds more than two, a wildcard one for its
/// domain and one for what lies below it.
pub proof fn law_lines_add_entries(lines: Seq<Seq<char>>, line: Seq<char>)
    requires
        blocklist::list_of(lines).exact.finite(),
    ensures
        ({
            let before = blocklist::list_of(lines);
            let after = blocklist::list_of(lines.push(line));
            let l = text::trimmed(line);
            let d = text::normalized(l);
            let wild = d.len() >= 2 && d[0] == '*' && d[1] == '.';
            let domain = if wild {
                d.skip(2)
            } else {
                d
            };
            let one: int = if before.exact.contains(domain) {
                0
            } else {
                1
            };
            after.size() == before.size() + if l.len() == 0 || l[0] == '#' {
                0
            } else if wild {
                one + 1
            } else {
                one
            }
        }),
{
    assert(lines.push(line).drop_last() =~= lines);
}

// ---------------------------------------------------------------------------
// Looking at files
// ---------------------------------------------------------------------------

/// A file is to be looked at once two seconds, of a thousand million nanoseconds
/// each, have passed since the last look; where there is no file, never. A look
/// changes nothing but its own moment, reading nothing but the modification time.
pub proof fn law_when_files_are_looked_at(w: FileWatchView, now: u64, mtime: Option<i128>)
    ensures
        w.path is None ==> !w.due(now),
        w.path is Some && w.last_check + 2_000_000_000 <= now ==> w.due(now),
        now < w.last_check + 2_000_000_000 ==> !w.due(now),
        w.checked(now).path == w.path,
        w.checked(now).last_check == now,
        w.checked(now).last_mtime == w.last_mtime,
        w.read(mtime).path == w.path,
        w.read(mtime).last_check == w.last_check,
        w.read(mtime).last_mtime == mtime,
{
}

} // verus!
