//! What each line of a configuration sets.

use vstd::prelude::*;
use crate::addr::Ipv4Addr;
use crate::addr;
use crate::config::{BlockResponse, ConfigError, ConfigView, RecordError, RecordView};
use crate::config;
use crate::config_laws;
use crate::number;
use crate::text;
use crate::text_laws;

verus! {

// ---------------------------------------------------------------------------
// Lines
// ---------------------------------------------------------------------------

/// A key, `=` and a value, with white space or without around both, give the key
/// that value. The value may hold `=`, the key may not, nor begin with `#`.
pub proof fn law_lines_give_keys_values(
    a: Seq<char>,
    key: Seq<char>,
    b: Seq<char>,
    c: Seq<char>,
    value: Seq<char>,
    d: Seq<char>,
)
    requires
        text_laws::all_space(a),
        text_laws::all_space(b),
        text_laws::all_space(c),
        text_laws::all_space(d),
        text_laws::is_trim(key),
        text_laws::is_trim(value),
        text_laws::lacks(key, '='),
        key.len() > 0 ==> key[0] != '#',
    ensures
        config::assignment_of(a + key + b + seq!['='] + c + value + d) == Some((key, value)),
{
    let line = a + key + b + seq!['='] + c + value + d;
    let none: Seq<char> = seq![];
    let front = if key.len() == 0 {
        none
    } else {
        key + b
    };
    let lead = if key.len() == 0 {
        a + b
    } else {
        a
    };
    let back = if value.len() == 0 {
        none
    } else {
        c + value
    };
    let trail = if value.len() == 0 {
        c + d
    } else {
        d
    };
    let t = front + seq!['='] + back;
    assert(line =~= lead + t + trail);
    lemma_both_space(a, b);
    lemma_both_space(c, d);
    assert(t[0] == if key.len() == 0 {
        '='
    } else {
        key[0]
    });
    assert(t.last() == if value.len() == 0 {
        '='
    } else {
        value.last()
    });
    text_laws::law_trimming(lead, t, trail);
    assert forall|i: int| 0 <= i < front.len() implies t[i] != '=' by {
        if i < key.len() {
            assert(t[i] == key[i]);
        } else {
            assert(t[i] == b[i - key.len()]);
        }
    }
    let n = front.len() as int;
    assert(t[n] == '=');
    text::lemma_first_at_is(t, '=', n);
    assert(t.take(n) =~= front);
    assert(t.skip(n + 1) =~= back);
    if key.len() == 0 {
        text_laws::law_trimming(none, key, none);
        assert(none + key + none =~= front);
    } else {
        text_laws::law_trimming(none, key, b);
        assert(none + key + b =~= front);
    }
    if value.len() == 0 {
        text_laws::law_trimming(none, value, none);
        assert(none + value + none =~= back);
    } else {
        text_laws::law_trimming(c, value, none);
        assert(c + value + none =~= back);
    }
}

/// White space and white space is white space.
proof fn lemma_both_space(a: Seq<char>, b: Seq<char>)
    requires
        text_laws::all_space(a),
        text_laws::all_space(b),
    ensures
        text_laws::all_space(a + b),
{
    assert forall|i: int| 0 <= i < (a + b).len() implies text::is_space(#[trigger] (a + b)[i]) by {
        if i < a.len() {
            assert((a + b)[i] == a[i]);
        } else {
            assert((a + b)[i] == b[i - a.len()]);
        }
    }
}

/// A line that is empty, a comment or without `=` gives no key a value.
pub proof fn law_other_lines_give_nothing(line: Seq<char>)
    ensures
        ({
            let l = text::trimmed(line);
            l.len() == 0 || l[0] == '#' || text_laws::lacks(l, '=')
        }) ==> config::assignment_of(line) is None,
{
    let l = text::trimmed(line);
    if text_laws::lacks(l, '=') {
        text::lemma_first_at_is(l, '=', l.len() as int);
    }
}

/// The values of a key are those of its lines, in order.
pub proof fn law_values_stand_in_order(
    a: Seq<Seq<char>>,
    b: Seq<Seq<char>>,
    line: Seq<char>,
    key: Seq<char>,
)
    ensures
        config::values_of(a + b, key) == config::values_of(a, key) + config::values_of(b, key),
        config::values_of(seq![line], key) == match config::assignment_of(line) {
            Some((k, v)) => if k == key {
                seq![v]
            } else {
                seq![]
            },
            None => seq![],
        },
        config::values_of(seq![], key).len() == 0,
{
    config_laws::lemma_values_of_both(a, b, key);
    config_laws::lemma_values_of_line(line, key);
}

/// The value on the last line that gives a key one.
pub open spec fn last_value(lines: Seq<Seq<char>>, key: Seq<char>) -> Option<Seq<char>>
    decreases lines.len(),
{
    if lines.len() == 0 {
        None
    } else {
        match config::assignment_of(lines[lines.len() - 1]) {
            Some((k, v)) => if k == key {
                Some(v)
            } else {
                last_value(lines.take(lines.len() - 1), key)
            },
            None => last_value(lines.take(lines.len() - 1), key),
        }
    }
}

/// That value is the one that counts.
proof fn lemma_last_value(lines: Seq<Seq<char>>, key: Seq<char>)
    ensures
        config::setting(lines, key) == last_value(lines, key),
    decreases lines.len(),
{
    if lines.len() > 0 {
        assert(lines.take(lines.len() - 1) =~= lines.drop_last());
        lemma_last_value(lines.drop_last(), key);
    }
}

// ---------------------------------------------------------------------------
// Values
// ---------------------------------------------------------------------------

/// Whether a text is a word in lower case, whatever the case of its own letters.
pub open spec fn is_alike(s: Seq<char>, word: Seq<char>) -> bool {
    &&& s.len() == word.len()
    &&& forall|i: int|
        0 <= i < s.len() ==> (#[trigger] s[i] == word[i] || 65 <= s[i] as int <= 90 && s[i] as int
            + 32 == word[i] as int)
}

/// To be alike is to be the same in lower case.
proof fn lemma_alike(s: Seq<char>, word: Seq<char>)
    requires
        forall|i: int| 0 <= i < word.len() ==> !(65 <= (#[trigger] word[i]) as int <= 90),
    ensures
        is_alike(s, word) <==> text::lower(s) == word,
{
    text_laws::law_lower_case(s);
    if is_alike(s, word) {
        assert forall|i: int| 0 <= i < s.len() implies text::lower(s)[i] == word[i] by {
            assert(s[i] == word[i] || 65 <= s[i] as int <= 90);
            assert(!(65 <= word[i] as int <= 90));
        }
        assert(text::lower(s) =~= word);
    }
    if text::lower(s) == word {
        assert forall|i: int| 0 <= i < s.len() implies (#[trigger] s[i] == word[i] || 65
            <= s[i] as int <= 90 && s[i] as int + 32 == word[i] as int) by {
            assert(text::lower(s)[i] == word[i]);
        }
    }
}

/// Four words say yes, in whatever case; nothing else does.
pub proof fn law_four_words_say_yes(v: Seq<char>)
    ensures
        config::says_yes(v) <==> {
            ||| is_alike(v, seq!['t', 'r', 'u', 'e'])
            ||| is_alike(v, seq!['1'])
            ||| is_alike(v, seq!['y', 'e', 's'])
            ||| is_alike(v, seq!['o', 'n'])
        },
{
    reveal_strlit("true");
    reveal_strlit("1");
    reveal_strlit("yes");
    reveal_strlit("on");
    assert("true"@ =~= seq!['t', 'r', 'u', 'e']);
    assert("1"@ =~= seq!['1']);
    assert("yes"@ =~= seq!['y', 'e', 's']);
    assert("on"@ =~= seq!['o', 'n']);
    lemma_alike(v, seq!['t', 'r', 'u', 'e']);
    lemma_alike(v, seq!['1']);
    lemma_alike(v, seq!['y', 'e', 's']);
    lemma_alike(v, seq!['o', 'n']);
}

/// The word that stands for an answer that a name does not exist.
pub open spec fn nxdomain() -> Seq<char> {
    seq!['n', 'x', 'd', 'o', 'm', 'a', 'i', 'n']
}

/// Whether a value is given, and is no address.
pub open spec fn is_bad_ip(v: Option<Seq<char>>) -> bool {
    v matches Some(t) && forall|ip: Ipv4Addr| t != #[trigger] text_laws::dotted(ip)
}

/// Whether a value is given, and is no number up to `max`.
pub open spec fn is_bad_number(v: Option<Seq<char>>, max: nat) -> bool {
    v matches Some(t) && number::number(t, max) is None
}

/// Whether a value is given, and is neither `nxdomain` nor an address.
pub open spec fn is_bad_block(v: Option<Seq<char>>) -> bool {
    is_bad_ip(v) && !is_alike(v.unwrap(), nxdomain())
}

/// A value that is given and is an address, or is not given.
proof fn lemma_ip(v: Option<Seq<char>>, default: Ipv4Addr)
    ensures
        config::ip_value(v, default) is None <==> is_bad_ip(v),
        config::ip_value(v, default) matches Some(ip) ==> match v {
            Some(t) => t == text_laws::dotted(ip),
            None => ip == default,
        },
{
    if let Some(t) = v {
        assert forall|ip: Ipv4Addr| addr::ipv4(t) == Some(ip) <==> t == #[trigger] text_laws::dotted(
            ip,
        ) by {
            text_laws::law_addresses_are_dotted_decimal(t, ip);
        }
        if let Some(ip) = addr::ipv4(t) {
            assert(t == text_laws::dotted(ip));
        }
    }
}

/// An answer for blocked domains that is given, or is not.
proof fn lemma_block(v: Option<Seq<char>>, default: BlockResponse)
    ensures
        config::block_value(v, default) is None <==> is_bad_block(v),
        config::block_value(v, default) matches Some(answer) ==> match v {
            Some(t) => if is_alike(t, nxdomain()) {
                answer == BlockResponse::NxDomain
            } else {
                answer matches BlockResponse::Ip(ip) && t == text_laws::dotted(ip)
            },
            None => answer == default,
        },
{
    reveal_strlit("nxdomain");
    assert("nxdomain"@ =~= nxdomain());
    if let Some(t) = v {
        lemma_alike(t, nxdomain());
        lemma_ip(v, Ipv4Addr { a: 0, b: 0, c: 0, d: 0 });
    }
}

// ---------------------------------------------------------------------------
// Fields
// ---------------------------------------------------------------------------

/// What a text, a name or a word for yes gives, or the default.
pub open spec fn given_or(v: Option<Seq<char>>, default: Seq<char>) -> Seq<char> {
    match v {
        Some(t) => t,
        None => default,
    }
}

/// Every key sets the field that it names, and no other: to the value of the last
/// line with that key, or to its own default where no line has it.
pub proof fn law_every_key_sets_its_field(lines: Seq<Seq<char>>)
    ensures
        config::config_of(lines) matches Ok(c) ==> {
            &&& c.listen == given_or(last_value(lines, "listen"@), "0.0.0.0:5353"@)
            &&& match last_value(lines, "domain"@) {
                Some(v) => c.domain == text::normalized(v),
                None => c.domain == "lan"@,
            }
            &&& match last_value(lines, "router_name"@) {
                Some(v) => c.router_name == text::normalized(v),
                None => c.router_name == "router"@,
            }
            &&& match last_value(lines, "router_ip"@) {
                Some(v) => v == text_laws::dotted(c.router_ip),
                None => c.router_ip == (Ipv4Addr { a: 192, b: 168, c: 4, d: 1 }),
            }
            &&& match last_value(lines, "captive_ip"@) {
                Some(v) => v == text_laws::dotted(c.captive_ip),
                None => c.captive_ip == (Ipv4Addr { a: 192, b: 168, c: 4, d: 1 }),
            }
            &&& c.lease_file == last_value(lines, "lease_file"@)
            &&& c.block_file == last_value(lines, "block_file"@)
            &&& match last_value(lines, "cache"@) {
                Some(v) => c.cache == config::says_yes(v),
                None => !c.cache,
            }
            &&& match last_value(lines, "captive"@) {
                Some(v) => c.captive == config::says_yes(v),
                None => !c.captive,
            }
            &&& match last_value(lines, "cache_max_entries"@) {
                Some(v) => number::number(v, usize::MAX as nat) == Some(c.cache_max_entries),
                None => c.cache_max_entries == 1024,
            }
            &&& match last_value(lines, "cache_ttl"@) {
                Some(v) => number::number(v, u64::MAX as nat) == Some(c.cache_ttl),
                None => c.cache_ttl == 60,
            }
            &&& match last_value(lines, "max_inflight"@) {
                Some(v) => number::number(v, usize::MAX as nat) == Some(c.max_inflight),
                None => c.max_inflight == 64,
            }
            &&& match last_value(lines, "block_response"@) {
                Some(v) => if is_alike(v, nxdomain()) {
                    c.block_response == BlockResponse::NxDomain
                } else {
                    c.block_response matches BlockResponse::Ip(ip) && v == text_laws::dotted(ip)
                },
                None => c.block_response == BlockResponse::Ip(Ipv4Addr { a: 0, b: 0, c: 0, d: 0 }),
            }
            &&& c.upstream == if config::values_of(lines, "upstream"@).len() == 0 {
                seq!["1.1.1.1:53"@]
            } else {
                config::values_of(lines, "upstream"@)
            }
            &&& c.records == config::records_of(config::values_of(lines, "record"@))
        },
{
    lemma_settings(lines);
    let d = config::default_config();
    lemma_ip(last_value(lines, "router_ip"@), d.router_ip);
    lemma_ip(last_value(lines, "captive_ip"@), d.captive_ip);
    lemma_block(last_value(lines, "block_response"@), d.block_response);
}

/// Each setting is the value on the last line with its key.
proof fn lemma_settings(lines: Seq<Seq<char>>)
    ensures
        forall|key: Seq<char>| #[trigger]
            config::setting(lines, key) == last_value(lines, key),
{
    assert forall|key: Seq<char>| #[trigger]
        config::setting(lines, key) == last_value(lines, key) by {
        lemma_last_value(lines, key);
    }
}

/// A configuration is refused exactly where one of six values cannot be read, for
/// the first of them in this order.
pub proof fn law_configurations_are_refused(lines: Seq<Seq<char>>)
    ensures
        ({
            let refused = config::config_of(lines);
            if is_bad_ip(last_value(lines, "router_ip"@)) {
                refused == Err::<ConfigView, ConfigError>(ConfigError::RouterIp)
            } else if is_bad_number(last_value(lines, "cache_max_entries"@), usize::MAX as nat) {
                refused == Err::<ConfigView, ConfigError>(ConfigError::CacheMaxEntries)
            } else if is_bad_number(last_value(lines, "cache_ttl"@), u64::MAX as nat) {
                refused == Err::<ConfigView, ConfigError>(ConfigError::CacheTtl)
            } else if is_bad_number(last_value(lines, "max_inflight"@), usize::MAX as nat) {
                refused == Err::<ConfigView, ConfigError>(ConfigError::MaxInflight)
            } else if is_bad_block(last_value(lines, "block_response"@)) {
                refused == Err::<ConfigView, ConfigError>(ConfigError::BlockResponse)
            } else if is_bad_ip(last_value(lines, "captive_ip"@)) {
                refused == Err::<ConfigView, ConfigError>(ConfigError::CaptiveIp)
            } else {
                refused is Ok
            }
        }),
{
    lemma_settings(lines);
    let d = config::default_config();
    lemma_ip(last_value(lines, "router_ip"@), d.router_ip);
    lemma_ip(last_value(lines, "captive_ip"@), d.captive_ip);
    lemma_block(last_value(lines, "block_response"@), d.block_response);
}

/// The full name of the router is its name, a dot, and the local zone.
pub proof fn law_full_name_of_the_router(c: ConfigView)
    ensures
        config::full_router_name(c) == c.router_name + seq!['.'] + c.domain,
{
    assert(config::full_router_name(c) =~= c.router_name + seq!['.'] + c.domain);
}

// ---------------------------------------------------------------------------
// Static records
// ---------------------------------------------------------------------------

/// The records are those of the values that can be read, in order.
pub proof fn law_records_stand_in_order(a: Seq<Seq<char>>, b: Seq<Seq<char>>, value: Seq<char>)
    ensures
        config::records_of(a + b) == config::records_of(a) + config::records_of(b),
        config::records_of(seq![value]) == match config::record_of(value) {
            Ok(record) => seq![record],
            Err(_) => seq![],
        },
        config::records_of(seq![]).len() == 0,
{
    config_laws::lemma_records_of_both(a, b);
    reveal_with_fuel(config::records_of, 2);
    let one = seq![value];
    assert(one.drop_last() =~= seq![]);
    assert(forall|r: RecordView| Seq::<RecordView>::empty().push(r) =~= seq![r]);
}

/// White space and something without a comma has no comma.
proof fn lemma_padded_lacks(a: Seq<char>, t: Seq<char>, b: Seq<char>)
    requires
        text_laws::all_space(a),
        text_laws::lacks(t, ','),
        text_laws::all_space(b),
    ensures
        text_laws::lacks(a + t + b, ','),
{
    let s = a + t + b;
    assert forall|i: int| 0 <= i < s.len() implies #[trigger] s[i] != ',' by {
        if i < a.len() {
            assert(s[i] == a[i]);
        } else if i < a.len() + t.len() {
            assert(s[i] == t[i - a.len()]);
        } else {
            assert(s[i] == b[i - a.len() - t.len()]);
        }
    }
}

/// A word of digits has no comma and no white space at its ends.
proof fn lemma_digits_plain(s: Seq<char>)
    requires
        text_laws::only_digits(s),
    ensures
        text_laws::lacks(s, ','),
        text_laws::is_trim(s),
{
    assert(48 <= s[0] as int <= 57);
    assert(48 <= s[s.len() - 1] as int <= 57);
}

/// An address has no comma and no white space at its ends.
proof fn lemma_dotted_plain(ip: Ipv4Addr)
    ensures
        text_laws::lacks(text_laws::dotted(ip), ','),
        text_laws::is_trim(text_laws::dotted(ip)),
{
    let parts = seq![
        number::decimal(ip.a as nat),
        number::decimal(ip.b as nat),
        number::decimal(ip.c as nat),
        number::decimal(ip.d as nat),
    ];
    text_laws::law_writing_numbers(ip.a as nat, parts[0]);
    text_laws::law_writing_numbers(ip.b as nat, parts[1]);
    text_laws::law_writing_numbers(ip.c as nat, parts[2]);
    text_laws::law_writing_numbers(ip.d as nat, parts[3]);
    lemma_joined_plain(parts);
}

/// Digits with dots between them have no comma and no white space at their ends.
proof fn lemma_joined_plain(parts: Seq<Seq<char>>)
    requires
        parts.len() > 0,
        forall|i: int| 0 <= i < parts.len() ==> text_laws::only_digits(#[trigger] parts[i]),
    ensures
        text_laws::joined(parts, '.').len() > 0,
        forall|i: int|
            0 <= i < text_laws::joined(parts, '.').len() ==> 46 <= (#[trigger] text_laws::joined(
                parts,
                '.',
            )[i]) as int <= 57,
        text_laws::lacks(text_laws::joined(parts, '.'), ','),
        text_laws::is_trim(text_laws::joined(parts, '.')),
    decreases parts.len(),
{
    let whole = text_laws::joined(parts, '.');
    let last = parts.last();
    assert(text_laws::only_digits(parts[parts.len() - 1]));
    if parts.len() == 1 {
        assert forall|i: int| 0 <= i < whole.len() implies 46 <= (#[trigger] whole[i]) as int <= 57 by {
            assert(48 <= last[i] as int <= 57);
        }
    } else {
        let init = parts.drop_last();
        assert forall|i: int| 0 <= i < init.len() implies text_laws::only_digits(
            #[trigger] init[i],
        ) by {
            assert(init[i] == parts[i]);
        }
        lemma_joined_plain(init);
        let front = text_laws::joined(init, '.');
        assert forall|i: int| 0 <= i < whole.len() implies 46 <= (#[trigger] whole[i]) as int <= 57 by {
            if i < front.len() {
                assert(whole[i] == front[i]);
            } else if i == front.len() {
                assert(whole[i] == '.');
            } else {
                assert(48 <= last[i - front.len() - 1] as int <= 57);
            }
        }
    }
    assert forall|i: int| 0 <= i < whole.len() implies #[trigger] whole[i] != ',' by {
        assert(46 <= whole[i] as int);
    }
    assert(46 <= whole[0] as int <= 57);
    assert(46 <= whole[whole.len() - 1] as int <= 57);
}

/// A name, the type A, an address and a time to live, with commas between them and
/// white space or without around each, are the record of that name, as names are
/// compared, with that address and that time to live.
pub proof fn law_records_are_read(
    name: Seq<char>,
    kind: char,
    ip: Ipv4Addr,
    ttl: u32,
    pads: Seq<Seq<char>>,
)
    requires
        text_laws::is_trim(name),
        text_laws::lacks(name, ','),
        kind == 'A' || kind == 'a',
        pads.len() == 8,
        forall|i: int| 0 <= i < 8 ==> text_laws::all_space(#[trigger] pads[i]),
    ensures
        config::record_of(
            text_laws::joined(
                seq![
                    pads[0] + name + pads[1],
                    pads[2] + seq![kind] + pads[3],
                    pads[4] + text_laws::dotted(ip) + pads[5],
                    pads[6] + number::decimal(ttl as nat) + pads[7],
                ],
                ',',
            ),
        ) == Ok::<RecordView, RecordError>(RecordView { name: text::normalized(name), ip, ttl }),
{
    let digits = number::decimal(ttl as nat);
    let parts = seq![
        pads[0] + name + pads[1],
        pads[2] + seq![kind] + pads[3],
        pads[4] + text_laws::dotted(ip) + pads[5],
        pads[6] + digits + pads[7],
    ];
    text_laws::law_writing_numbers(ttl as nat, digits);
    text_laws::law_reading_numbers(digits, u32::MAX as nat);
    text_laws::law_addresses_are_dotted_decimal(text_laws::dotted(ip), ip);
    lemma_digits_plain(digits);
    lemma_dotted_plain(ip);
    assert(text_laws::all_space(pads[0]) && text_laws::all_space(pads[1]));
    assert(text_laws::all_space(pads[2]) && text_laws::all_space(pads[3]));
    assert(text_laws::all_space(pads[4]) && text_laws::all_space(pads[5]));
    assert(text_laws::all_space(pads[6]) && text_laws::all_space(pads[7]));
    lemma_padded_lacks(pads[0], name, pads[1]);
    lemma_padded_lacks(pads[2], seq![kind], pads[3]);
    lemma_padded_lacks(pads[4], text_laws::dotted(ip), pads[5]);
    lemma_padded_lacks(pads[6], digits, pads[7]);
    text_laws::law_splitting(parts, ',');
    text_laws::law_trimming(pads[0], name, pads[1]);
    text_laws::law_trimming(pads[2], seq![kind], pads[3]);
    text_laws::law_trimming(pads[4], text_laws::dotted(ip), pads[5]);
    text_laws::law_trimming(pads[6], digits, pads[7]);
    assert(text::lower(seq![kind]) =~= seq!['a']);
}

/// No other value is a record: one that has not four parts, another type, no
/// address, or no time to live of 32 bits.
pub proof fn law_other_records_are_refused(parts: Seq<Seq<char>>)
    requires
        parts.len() > 0,
        forall|i: int| 0 <= i < parts.len() ==> text_laws::lacks(#[trigger] parts[i], ','),
    ensures
        ({
            let read = config::record_of(text_laws::joined(parts, ','));
            if parts.len() != 4 {
                read == Err::<RecordView, RecordError>(RecordError::Format)
            } else if text::trimmed(parts[1]) != seq!['A'] && text::trimmed(parts[1]) != seq!['a'] {
                read == Err::<RecordView, RecordError>(RecordError::Type)
            } else if is_bad_ip(Some(text::trimmed(parts[2]))) {
                read == Err::<RecordView, RecordError>(RecordError::Address)
            } else if is_bad_number(Some(text::trimmed(parts[3])), 0xffff_ffff) {
                read == Err::<RecordView, RecordError>(RecordError::Ttl)
            } else {
                read is Ok
            }
        }),
{
    text_laws::law_splitting(parts, ',');
    if parts.len() == 4 {
        let kind = text::trimmed(parts[1]);
        lemma_alike(kind, seq!['a']);
        if is_alike(kind, seq!['a']) {
            assert(kind[0] == 'a' || kind[0] as int == 65);
            assert(kind =~= seq!['a'] || kind =~= seq!['A']);
        }
        if kind == seq!['A'] || kind == seq!['a'] {
            assert(is_alike(kind, seq!['a']));
        }
        lemma_ip(Some(text::trimmed(parts[2])), Ipv4Addr { a: 0, b: 0, c: 0, d: 0 });
    }
}

// ---------------------------------------------------------------------------
// Skipped lines
// ---------------------------------------------------------------------------

/// A line without `=`, and a record that cannot be read, are listed with what is at
/// fault; an empty line, a comment, a record that can be read and any other key are
/// not.
pub proof fn law_what_is_listed_as_skipped(line: Seq<char>)
    ensures
        ({
            let l = text::trimmed(line);
            let listed = config::skip_of(line);
            if l.len() == 0 || l[0] == '#' {
                listed is None
            } else if text_laws::lacks(l, '=') {
                listed == Some((l, config::SkipReason::NoEquals))
            } else {
                &&& config::assignment_of(line) is Some
                &&& {
                    let (key, value) = config::assignment_of(line).unwrap();
                    match config::record_of(value) {
                        Err(e) if key == "record"@ => listed == Some(
                            (value, config::SkipReason::BadRecord(e)),
                        ),
                        _ => listed is None,
                    }
                }
            }
        }),
{
    let l = text::trimmed(line);
    law_other_lines_give_nothing(line);
    text::lemma_first_at(l, '=');
    let i = text::first_at(l, '=');
    if i == l.len() {
        assert(text_laws::lacks(l, '='));
    } else {
        assert(l[i] == '=');
    }
}

/// The list names each skipped line once, by its number counted from 1, in order.
pub proof fn law_skipped_lines_are_numbered(lines: Seq<Seq<char>>, line: Seq<char>)
    ensures
        config::skipped_of(Seq::empty()).len() == 0,
        config::skipped_of(lines.push(line)) == match config::skip_of(line) {
            Some((text, reason)) => config::skipped_of(lines).push(
                config::SkippedLineView { number: lines.len() + 1, text, reason },
            ),
            None => config::skipped_of(lines),
        },
{
    assert(lines.push(line).drop_last() =~= lines);
}

} // verus!
