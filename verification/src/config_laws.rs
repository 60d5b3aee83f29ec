//! What holds of every configuration that is read.

use vstd::prelude::*;
use crate::config::{ConfigError, ConfigView};
use crate::config;
use crate::text;

verus! {

/// Whether a key means something.
pub open spec fn is_known(key: Seq<char>) -> bool {
    ||| key == "listen"@
    ||| key == "domain"@
    ||| key == "router_name"@
    ||| key == "router_ip"@
    ||| key == "upstream"@
    ||| key == "lease_file"@
    ||| key == "cache"@
    ||| key == "cache_max_entries"@
    ||| key == "cache_ttl"@
    ||| key == "max_inflight"@
    ||| key == "block_file"@
    ||| key == "block_response"@
    ||| key == "captive"@
    ||| key == "captive_ip"@
    ||| key == "record"@
}

/// Whether a line says nothing: it is empty, a comment or has no `=`; its key is
/// not known; or it is a static record that cannot be read.
pub open spec fn says_nothing(line: Seq<char>) -> bool {
    match config::assignment_of(line) {
        None => true,
        Some((key, value)) => {
            ||| !is_known(key)
            ||| key == "record"@ && config::record_of(value) is Err
        },
    }
}

/// The values of a key in two runs of lines, one behind the other.
pub proof fn lemma_values_of_both(a: Seq<Seq<char>>, b: Seq<Seq<char>>, key: Seq<char>)
    ensures
        config::values_of(a + b, key) == config::values_of(a, key) + config::values_of(b, key),
    decreases b.len(),
{
    if b.len() == 0 {
        assert(a + b =~= a);
        assert(config::values_of(a, key) + config::values_of(b, key) =~= config::values_of(a, key));
    } else {
        assert((a + b).drop_last() =~= a + b.drop_last());
        assert((a + b).last() == b.last());
        lemma_values_of_both(a, b.drop_last(), key);
        assert(config::values_of(a + b, key) =~= config::values_of(a, key) + config::values_of(
            b,
            key,
        ));
    }
}

/// The values of a key on one line.
pub proof fn lemma_values_of_line(line: Seq<char>, key: Seq<char>)
    ensures
        config::values_of(seq![line], key) == match config::assignment_of(line) {
            Some((k, v)) => if k == key {
                seq![v]
            } else {
                seq![]
            },
            None => seq![],
        },
{
    let one = seq![line];
    assert(one.drop_last() =~= seq![]);
    assert(config::values_of(one.drop_last(), key) =~= seq![]);
    assert(one.last() == line);
    assert(forall|v: Seq<char>| Seq::<Seq<char>>::empty().push(v) =~= seq![v]);
}

/// The records of two runs of values, one behind the other.
pub proof fn lemma_records_of_both(a: Seq<Seq<char>>, b: Seq<Seq<char>>)
    ensures
        config::records_of(a + b) == config::records_of(a) + config::records_of(b),
    decreases b.len(),
{
    if b.len() == 0 {
        assert(a + b =~= a);
        assert(config::records_of(a) + config::records_of(b) =~= config::records_of(a));
    } else {
        assert((a + b).drop_last() =~= a + b.drop_last());
        assert((a + b).last() == b.last());
        lemma_records_of_both(a, b.drop_last());
        assert(config::records_of(a + b) =~= config::records_of(a) + config::records_of(b));
    }
}

/// A line that gives a key no value changes nothing of its values.
proof fn lemma_values_without_line(
    before: Seq<Seq<char>>,
    line: Seq<char>,
    behind: Seq<Seq<char>>,
    key: Seq<char>,
)
    requires
        config::assignment_of(line) matches Some((k, _)) ==> k != key,
    ensures
        config::values_of(before + seq![line] + behind, key) == config::values_of(
            before + behind,
            key,
        ),
{
    lemma_values_of_both(before + seq![line], behind, key);
    lemma_values_of_both(before, seq![line], key);
    lemma_values_of_both(before, behind, key);
    lemma_values_of_line(line, key);
    assert(config::values_of(before, key) + seq![] =~= config::values_of(before, key));
}

/// A line that says nothing can be left out anywhere.
pub proof fn law_lines_that_say_nothing_are_ignored(
    before: Seq<Seq<char>>,
    line: Seq<char>,
    behind: Seq<Seq<char>>,
)
    requires
        says_nothing(line),
    ensures
        config::config_of(before + seq![line] + behind) == config::config_of(before + behind),
{
    let all = before + seq![line] + behind;
    let rest = before + behind;
    let record = "record"@;
    assert forall|key: Seq<char>| is_known(key) && key != record implies #[trigger]
        config::values_of(all, key) == config::values_of(rest, key) by {
        lemma_values_without_line(before, line, behind, key);
    }
    assert(config::records_of(config::values_of(all, record)) == config::records_of(
        config::values_of(rest, record),
    )) by {
        lemma_values_of_both(before + seq![line], behind, record);
        lemma_values_of_both(before, seq![line], record);
        lemma_values_of_both(before, behind, record);
        lemma_values_of_line(line, record);
        let a = config::values_of(before, record);
        let x = config::values_of(seq![line], record);
        let b = config::values_of(behind, record);
        lemma_records_of_both(a + x, b);
        lemma_records_of_both(a, x);
        lemma_records_of_both(a, b);
        assert(x.len() > 0 ==> x.drop_last() =~= seq![]);
        reveal_with_fuel(config::records_of, 2);
        assert(config::records_of(x) =~= seq![]);
        assert(config::records_of(a) + seq![] =~= config::records_of(a));
    }
    lemma_keys_differ_from_record();
}

/// A line is skipped only where it says nothing; and a line that says nothing is
/// skipped, unless it is empty, a comment, or its key is not known.
pub proof fn law_skipped_lines_say_nothing(line: Seq<char>)
    ensures
        config::skip_of(line) is Some ==> says_nothing(line),
        says_nothing(line) && config::skip_of(line) is None ==> {
            let l = text::trimmed(line);
            ||| l.len() == 0
            ||| l[0] == '#'
            ||| config::assignment_of(line) matches Some((key, _)) && !is_known(key)
        },
{
}

/// The other keys are not `record`.
proof fn lemma_keys_differ_from_record()
    ensures
        "listen"@ != "record"@,
        "domain"@ != "record"@,
        "router_name"@ != "record"@,
        "router_ip"@ != "record"@,
        "upstream"@ != "record"@,
        "lease_file"@ != "record"@,
        "cache"@ != "record"@,
        "cache_max_entries"@ != "record"@,
        "cache_ttl"@ != "record"@,
        "max_inflight"@ != "record"@,
        "block_file"@ != "record"@,
        "block_response"@ != "record"@,
        "captive"@ != "record"@,
        "captive_ip"@ != "record"@,
{
    reveal_strlit("record");
    reveal_strlit("listen");
    reveal_strlit("domain");
    reveal_strlit("router_name");
    reveal_strlit("router_ip");
    reveal_strlit("upstream");
    reveal_strlit("lease_file");
    reveal_strlit("cache");
    reveal_strlit("cache_max_entries");
    reveal_strlit("cache_ttl");
    reveal_strlit("max_inflight");
    reveal_strlit("block_file");
    reveal_strlit("block_response");
    reveal_strlit("captive");
    reveal_strlit("captive_ip");
    assert("record"@[0] == 'r' && "record"@.len() == 6);
    assert("listen"@[0] == 'l');
    assert("domain"@[0] == 'd');
    assert("router_name"@.len() == 11);
    assert("router_ip"@.len() == 9);
    assert("upstream"@[0] == 'u');
    assert("lease_file"@[0] == 'l');
    assert("cache"@[0] == 'c');
    assert("cache_max_entries"@[0] == 'c');
    assert("cache_ttl"@[0] == 'c');
    assert("max_inflight"@[0] == 'm');
    assert("block_file"@[0] == 'b');
    assert("block_response"@[0] == 'b');
    assert("captive"@[0] == 'c');
    assert("captive_ip"@[0] == 'c');
}

/// Where no line says anything, the configuration is the default one.
pub proof fn law_nothing_said_is_default(lines: Seq<Seq<char>>)
    requires
        forall|i: int| 0 <= i < lines.len() ==> says_nothing(#[trigger] lines[i]),
    ensures
        config::config_of(lines) == Ok::<ConfigView, ConfigError>(config::default_config()),
    decreases lines.len(),
{
    if lines.len() > 0 {
        let init = lines.drop_last();
        let none: Seq<Seq<char>> = seq![];
        assert(init + seq![lines.last()] + none =~= lines);
        assert(init + none =~= init);
        law_lines_that_say_nothing_are_ignored(init, lines.last(), none);
        law_nothing_said_is_default(init);
    } else {
        assert(config::config_of(lines)->Ok_0.records =~= seq![]);
    }
}

/// The last line that gives a key a value decides, whatever was said before it.
pub proof fn law_last_value_counts(
    before: Seq<Seq<char>>,
    line: Seq<char>,
    behind: Seq<Seq<char>>,
    key: Seq<char>,
    value: Seq<char>,
)
    requires
        config::assignment_of(line) == Some((key, value)),
        forall|i: int| 0 <= i < behind.len() ==> match config::assignment_of(#[trigger] behind[i]) {
            Some((k, _)) => k != key,
            None => true,
        },
    ensures
        config::setting(before + seq![line] + behind, key) == Some(value),
    decreases behind.len(),
{
    let all = before + seq![line] + behind;
    if behind.len() == 0 {
        assert(all =~= before.push(line));
        assert(all.drop_last() =~= before);
    } else {
        let init = behind.drop_last();
        assert(all.drop_last() =~= before + seq![line] + init);
        assert(all.last() == behind[behind.len() - 1]);
        law_last_value_counts(before, line, init, key, value);
    }
}

/// Every line with an upstream server adds it behind those of the lines before,
/// in their order; and there is always one to ask.
pub proof fn law_upstreams_add_up(a: Seq<Seq<char>>, b: Seq<Seq<char>>)
    ensures
        config::config_of(a + b) matches Ok(c) ==> {
            let given = config::values_of(a, "upstream"@) + config::values_of(b, "upstream"@);
            &&& given.len() > 0 ==> c.upstream == given
            &&& given.len() == 0 ==> c.upstream == config::default_config().upstream
            &&& c.upstream.len() > 0
        },
{
    lemma_values_of_both(a, b, "upstream"@);
}

// ---------------------------------------------------------------------------
// Names
// ---------------------------------------------------------------------------

/// Whether a name is in the form in which names are compared.
pub open spec fn is_normal(name: Seq<char>) -> bool {
    &&& text::lower(name) == name
    &&& name.len() > 0 ==> name.last() != '.'
}

/// Normalizing gives a name the form in which names are compared.
proof fn lemma_normalized(s: Seq<char>)
    ensures
        is_normal(text::normalized(s)),
    decreases s.len(),
{
    if s.len() > 0 && s.last() == '.' {
        lemma_normalized(s.drop_last());
    } else {
        let l = text::lower(s);
        assert forall|i: int| 0 <= i < l.len() implies text::lower_char(l[i]) == l[i] by {
            assert(l[i] == text::lower_char(s[i]));
        }
        assert(text::lower(l) =~= l);
        if s.len() > 0 {
            assert(l.last() == text::lower_char(s.last()));
        }
    }
}

/// The records that are read have such names.
proof fn lemma_records_are_normal(values: Seq<Seq<char>>)
    ensures
        forall|i: int|
            0 <= i < config::records_of(values).len() ==> is_normal(
                (#[trigger] config::records_of(values)[i]).name,
            ),
    decreases values.len(),
{
    if values.len() > 0 {
        let before = config::records_of(values.drop_last());
        let all = config::records_of(values);
        lemma_records_are_normal(values.drop_last());
        if config::record_of(values.last()) is Ok {
            lemma_normalized(text::trimmed(text::split(values.last(), ',')[0]));
        }
        assert forall|i: int| 0 <= i < all.len() implies is_normal((#[trigger] all[i]).name) by {
            if i < before.len() {
                assert(all[i] == before[i]);
            }
        }
    }
}

/// The names in a configuration are in the form in which names are compared: the
/// letters in lower case, no dot at the end.
pub proof fn law_names_are_normalized(lines: Seq<Seq<char>>)
    ensures
        config::config_of(lines) matches Ok(c) ==> {
            &&& is_normal(c.domain)
            &&& is_normal(c.router_name)
            &&& forall|i: int|
                0 <= i < c.records.len() ==> is_normal((#[trigger] c.records[i]).name)
        },
{
    if let Ok(c) = config::config_of(lines) {
        reveal_strlit("lan");
        reveal_strlit("router");
        assert(text::lower("lan"@) =~= "lan"@);
        assert(text::lower("router"@) =~= "router"@);
        if let Some(v) = config::setting(lines, "domain"@) {
            lemma_normalized(v);
        }
        if let Some(v) = config::setting(lines, "router_name"@) {
            lemma_normalized(v);
        }
        lemma_records_are_normal(config::values_of(lines, "record"@));
    }
}

} // verus!
