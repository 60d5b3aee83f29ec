//! What holds of texts, numbers and addresses: each operation by what it undoes.

use vstd::arithmetic::power::{lemma_pow0, lemma_pow1, pow};
use vstd::prelude::*;
use crate::addr::Ipv4Addr;
use crate::addr;
use crate::number;
use crate::text;

verus! {

/// Whether a text does not hold a character.
pub open spec fn lacks(s: Seq<char>, c: char) -> bool {
    forall|i: int| 0 <= i < s.len() ==> #[trigger] s[i] != c
}

/// Whether a text is white space alone.
pub open spec fn all_space(s: Seq<char>) -> bool {
    forall|i: int| 0 <= i < s.len() ==> text::is_space(#[trigger] s[i])
}

/// Whether a text is a word: not empty, and without white space.
pub open spec fn is_word(s: Seq<char>) -> bool {
    s.len() > 0 && forall|i: int| 0 <= i < s.len() ==> !text::is_space(#[trigger] s[i])
}

/// Whether a text has no white space at either end.
pub open spec fn is_trim(s: Seq<char>) -> bool {
    s.len() > 0 ==> !text::is_space(s[0]) && !text::is_space(s.last())
}

/// Parts with a separator between them.
pub open spec fn joined(parts: Seq<Seq<char>>, sep: char) -> Seq<char>
    decreases parts.len(),
{
    if parts.len() == 0 {
        seq![]
    } else if parts.len() == 1 {
        parts[0]
    } else {
        joined(parts.drop_last(), sep) + seq![sep] + parts.last()
    }
}

// ---------------------------------------------------------------------------
// Characters
// ---------------------------------------------------------------------------

/// White space is what Unicode calls so: blanks, tabs, line ends, and the wide and
/// narrow spaces.
pub proof fn law_white_space(c: char)
    ensures
        text::is_space(c) <==> {
            let code = c as u32;
            ||| 9 <= code <= 13
            ||| code == 32
            ||| code == 133
            ||| code == 160
            ||| code == 5760
            ||| 8192 <= code <= 8202
            ||| code == 8232
            ||| code == 8233
            ||| code == 8239
            ||| code == 8287
            ||| code == 12288
        },
{
}

/// Lower case moves the letters A to Z by 32 and leaves everything else; it keeps
/// the length and the order.
pub proof fn law_lower_case(s: Seq<char>)
    ensures
        text::lower(s).len() == s.len(),
        forall|i: int|
            0 <= i < s.len() ==> (#[trigger] text::lower(s)[i]) as int == if 65 <= s[i] as int <= 90 {
                s[i] as int + 32
            } else {
                s[i] as int
            },
{
}

// ---------------------------------------------------------------------------
// Trimming
// ---------------------------------------------------------------------------

/// White space in front goes.
proof fn lemma_trim_start(a: Seq<char>, x: Seq<char>)
    requires
        all_space(a),
        x.len() > 0 ==> !text::is_space(x[0]),
    ensures
        text::trim_start(a + x) == x,
    decreases a.len(),
{
    if a.len() == 0 {
        assert(a + x =~= x);
    } else {
        assert((a + x)[0] == a[0]);
        assert((a + x).skip(1) =~= a.skip(1) + x);
        assert forall|i: int| 0 <= i < a.skip(1).len() implies text::is_space(
            #[trigger] a.skip(1)[i],
        ) by {
            assert(a.skip(1)[i] == a[i + 1]);
        }
        lemma_trim_start(a.skip(1), x);
    }
}

/// White space behind goes.
proof fn lemma_trim_end(x: Seq<char>, b: Seq<char>)
    requires
        all_space(b),
        x.len() > 0 ==> !text::is_space(x.last()),
    ensures
        text::trim_end(x + b) == x,
    decreases b.len(),
{
    if b.len() == 0 {
        assert(x + b =~= x);
    } else {
        assert((x + b).last() == b[b.len() - 1]);
        assert((x + b).drop_last() =~= x + b.drop_last());
        assert forall|i: int| 0 <= i < b.drop_last().len() implies text::is_space(
            #[trigger] b.drop_last()[i],
        ) by {
            assert(b.drop_last()[i] == b[i]);
        }
        lemma_trim_end(x, b.drop_last());
    }
}

/// Trimming takes the white space at the two ends away, all of it and nothing else.
pub proof fn law_trimming(a: Seq<char>, t: Seq<char>, b: Seq<char>)
    requires
        all_space(a),
        is_trim(t),
        all_space(b),
    ensures
        text::trimmed(a + t + b) == t,
{
    if t.len() == 0 {
        let none: Seq<char> = seq![];
        assert(a + t + b =~= (a + b) + none);
        assert forall|i: int| 0 <= i < (a + b).len() implies text::is_space(#[trigger] (a + b)[i]) by {
            if i < a.len() {
                assert((a + b)[i] == a[i]);
            } else {
                assert((a + b)[i] == b[i - a.len()]);
            }
        }
        lemma_trim_start(a + b, none);
        assert(t =~= none);
    } else {
        assert(a + t + b =~= a + (t + b));
        assert((t + b)[0] == t[0]);
        lemma_trim_start(a, t + b);
        lemma_trim_end(t, b);
    }
}

/// A name is compared without the dots at its end and in lower case.
pub proof fn law_normalizing(t: Seq<char>, dots: Seq<char>)
    requires
        t.len() > 0 ==> t.last() != '.',
        forall|i: int| 0 <= i < dots.len() ==> #[trigger] dots[i] == '.',
    ensures
        text::normalized(t + dots).len() == t.len(),
        forall|i: int|
            0 <= i < t.len() ==> (#[trigger] text::normalized(t + dots)[i]) as int == if 65
                <= t[i] as int <= 90 {
                t[i] as int + 32
            } else {
                t[i] as int
            },
    decreases dots.len(),
{
    if dots.len() == 0 {
        assert(t + dots =~= t);
    } else {
        assert((t + dots).last() == dots[dots.len() - 1]);
        assert((t + dots).drop_last() =~= t + dots.drop_last());
        assert forall|i: int| 0 <= i < dots.drop_last().len() implies #[trigger] dots.drop_last()[i]
            == '.' by {
            assert(dots.drop_last()[i] == dots[i]);
        }
        law_normalizing(t, dots.drop_last());
    }
}

// ---------------------------------------------------------------------------
// Splitting
// ---------------------------------------------------------------------------

/// Splitting gives back the parts that were joined.
pub proof fn law_splitting(parts: Seq<Seq<char>>, sep: char)
    requires
        parts.len() > 0,
        forall|i: int| 0 <= i < parts.len() ==> lacks(#[trigger] parts[i], sep),
    ensures
        text::split(joined(parts, sep), sep) == parts,
    decreases parts.len(),
{
    let last = parts.last();
    assert(lacks(parts[parts.len() - 1], sep));
    if parts.len() == 1 {
        text::lemma_first_at_is(last, sep, last.len() as int);
        assert(text::split(last, sep) =~= parts);
    } else {
        let init = parts.drop_last();
        assert forall|i: int| 0 <= i < init.len() implies lacks(#[trigger] init[i], sep) by {
            assert(init[i] == parts[i]);
        }
        law_splitting(init, sep);
        text::lemma_split_last(joined(init, sep), sep, last);
        assert(joined(parts, sep) =~= joined(init, sep).push(sep) + last);
        assert(init.push(last) =~= parts);
    }
}

/// A text is the lines that line ends stand between.
pub proof fn law_lines(parts: Seq<Seq<char>>)
    requires
        parts.len() > 0,
        forall|i: int| 0 <= i < parts.len() ==> lacks(#[trigger] parts[i], '\u{a}'),
    ensures
        text::lines(joined(parts, '\u{a}')) == parts,
{
    law_splitting(parts, '\u{a}');
}

/// Joining from the left.
proof fn lemma_joined_cons(a: Seq<char>, ps: Seq<Seq<char>>, sep: char)
    requires
        ps.len() > 0,
    ensures
        joined(seq![a] + ps, sep) == a + seq![sep] + joined(ps, sep),
    decreases ps.len(),
{
    reveal_with_fuel(joined, 2);
    let all = seq![a] + ps;
    assert(all.last() == ps.last());
    if ps.len() == 1 {
        assert(all.drop_last() =~= seq![a]);
        assert(joined(all, sep) =~= a + seq![sep] + joined(ps, sep));
    } else {
        assert(all.drop_last() =~= seq![a] + ps.drop_last());
        lemma_joined_cons(a, ps.drop_last(), sep);
        assert(joined(all, sep) =~= a + seq![sep] + joined(ps, sep));
    }
}

/// The parts of a text, joined, are the text; none of them holds the separator.
pub proof fn law_parts_make_up_the_text(s: Seq<char>, sep: char)
    ensures
        text::split(s, sep).len() > 0,
        joined(text::split(s, sep), sep) == s,
        forall|i: int| 0 <= i < text::split(s, sep).len() ==> lacks(
            #[trigger] text::split(s, sep)[i],
            sep,
        ),
    decreases s.len(),
{
    text::lemma_first_at(s, sep);
    let i = text::first_at(s, sep);
    let parts = text::split(s, sep);
    if i < s.len() {
        let rest = s.skip(i + 1);
        law_parts_make_up_the_text(rest, sep);
        lemma_joined_cons(s.take(i), text::split(rest, sep), sep);
        assert(s.take(i) + seq![sep] + rest =~= s);
        assert forall|k: int| 0 <= k < parts.len() implies lacks(#[trigger] parts[k], sep) by {
            if k > 0 {
                assert(parts[k] == text::split(rest, sep)[k - 1]);
            } else {
                assert(parts[0] == s.take(i));
            }
        }
    }
}

// ---------------------------------------------------------------------------
// Words
// ---------------------------------------------------------------------------

/// White space alone holds no word.
pub proof fn law_white_space_holds_no_words(pad: Seq<char>)
    requires
        all_space(pad),
    ensures
        text::words(pad).len() == 0,
    decreases pad.len(),
{
    if pad.len() > 0 {
        assert(text::is_space(pad[0]));
        let rest = pad.skip(1);
        assert forall|i: int| 0 <= i < rest.len() implies text::is_space(#[trigger] rest[i]) by {
            assert(rest[i] == pad[i + 1]);
        }
        law_white_space_holds_no_words(rest);
    }
}

/// A word ends where white space begins.
proof fn lemma_word_len(w: Seq<char>, rest: Seq<char>)
    requires
        forall|i: int| 0 <= i < w.len() ==> !text::is_space(#[trigger] w[i]),
        rest.len() > 0 ==> text::is_space(rest[0]),
    ensures
        text::word_len(w + rest) == w.len(),
    decreases w.len(),
{
    let s = w + rest;
    if w.len() > 0 {
        assert(s[0] == w[0]);
        let v = w.skip(1);
        assert(s.skip(1) =~= v + rest);
        assert forall|i: int| 0 <= i < v.len() implies !text::is_space(#[trigger] v[i]) by {
            assert(v[i] == w[i + 1]);
        }
        lemma_word_len(v, rest);
    } else {
        assert(s =~= rest);
    }
}

/// The first word is what stands behind white space and before the next.
pub proof fn law_first_word(pad: Seq<char>, w: Seq<char>, rest: Seq<char>)
    requires
        all_space(pad),
        is_word(w),
        rest.len() > 0 ==> text::is_space(rest[0]),
    ensures
        text::words(pad + w + rest) == seq![w] + text::words(rest),
    decreases pad.len(),
{
    let s = pad + w + rest;
    if pad.len() > 0 {
        assert(s[0] == pad[0]);
        let less = pad.skip(1);
        assert(s.skip(1) =~= less + w + rest);
        assert forall|i: int| 0 <= i < less.len() implies text::is_space(#[trigger] less[i]) by {
            assert(less[i] == pad[i + 1]);
        }
        law_first_word(less, w, rest);
    } else {
        assert(s =~= w + rest);
        assert(s[0] == w[0]);
        lemma_word_len(w, rest);
        assert(s.take(w.len() as int) =~= w);
        assert(s.skip(w.len() as int) =~= rest);
    }
}

/// White space behind a text adds nothing to its first word.
proof fn lemma_word_len_push(s: Seq<char>, c: char)
    requires
        text::is_space(c),
    ensures
        text::word_len(s.push(c)) == text::word_len(s),
        0 <= text::word_len(s) <= s.len(),
        s.len() > 0 && !text::is_space(s[0]) ==> text::word_len(s) > 0,
    decreases s.len(),
{
    reveal_with_fuel(text::word_len, 2);
    if s.len() > 0 {
        assert(s.push(c).skip(1) =~= s.skip(1).push(c));
        lemma_word_len_push(s.skip(1), c);
    }
}

/// White space behind a text adds no word.
proof fn lemma_words_push(s: Seq<char>, c: char)
    requires
        text::is_space(c),
    ensures
        text::words(s.push(c)) == text::words(s),
    decreases s.len(),
{
    let more = s.push(c);
    if s.len() == 0 {
        assert(more.skip(1) =~= s);
    } else if text::is_space(s[0]) {
        assert(more.skip(1) =~= s.skip(1).push(c));
        lemma_words_push(s.skip(1), c);
    } else {
        lemma_word_len_push(s, c);
        let n = text::word_len(s);
        assert(more.take(n) =~= s.take(n));
        assert(more.skip(n) =~= s.skip(n).push(c));
        lemma_words_push(s.skip(n), c);
    }
}

/// White space in front goes without a word.
proof fn lemma_words_of_trim_start(s: Seq<char>)
    ensures
        text::words(text::trim_start(s)) == text::words(s),
    decreases s.len(),
{
    if s.len() > 0 && text::is_space(s[0]) {
        lemma_words_of_trim_start(s.skip(1));
    }
}

/// White space behind goes without a word.
proof fn lemma_words_of_trim_end(s: Seq<char>)
    ensures
        text::words(text::trim_end(s)) == text::words(s),
    decreases s.len(),
{
    if s.len() > 0 && text::is_space(s.last()) {
        lemma_words_of_trim_end(s.drop_last());
        lemma_words_push(s.drop_last(), s.last());
        assert(s.drop_last().push(s.last()) =~= s);
    }
}

/// Trimming takes no word away.
pub proof fn law_trimming_keeps_the_words(s: Seq<char>)
    ensures
        text::words(text::trimmed(s)) == text::words(s),
{
    lemma_words_of_trim_start(s);
    lemma_words_of_trim_end(text::trim_start(s));
}

/// What begins without white space keeps its first character when it is trimmed.
proof fn lemma_trim_end_keeps_first(s: Seq<char>)
    requires
        s.len() > 0,
        !text::is_space(s[0]),
    ensures
        text::trim_end(s).len() > 0,
        text::trim_end(s)[0] == s[0],
    decreases s.len(),
{
    if text::is_space(s.last()) {
        assert(s.len() > 1);
        lemma_trim_end_keeps_first(s.drop_last());
    }
}

/// A text with a word in it begins with that word when it is trimmed.
pub proof fn law_trimmed_text_begins_with_its_first_word(pad: Seq<char>, rest: Seq<char>)
    requires
        all_space(pad),
        rest.len() > 0,
        !text::is_space(rest[0]),
    ensures
        text::trimmed(pad + rest).len() > 0,
        text::trimmed(pad + rest)[0] == rest[0],
{
    lemma_trim_start(pad, rest);
    lemma_trim_end_keeps_first(rest);
}

// ---------------------------------------------------------------------------
// Numbers
// ---------------------------------------------------------------------------

/// Digits behind digits: those in front count ten times as much for each of them.
pub proof fn law_digits_are_decimal(a: Seq<char>, b: Seq<char>)
    ensures
        number::decimal_value(a + b) == number::decimal_value(a) * pow(10, b.len())
            + number::decimal_value(b),
    decreases b.len(),
{
    if b.len() == 0 {
        assert(a + b =~= a);
        lemma_pow0(10);
    } else {
        let init = b.drop_last();
        assert((a + b).drop_last() =~= a + init);
        assert((a + b).last() == b.last());
        law_digits_are_decimal(a, init);
        vstd::arithmetic::power::lemma_pow_adds(10, init.len(), 1);
        lemma_pow1(10);
        let x = number::decimal_value(a) as int;
        let p = pow(10, init.len());
        assert((x * p) * 10 == x * (p * 10)) by (nonlinear_arith);
    }
}

/// A single digit counts what it says.
pub proof fn law_single_digits(c: char)
    requires
        48 <= c as int <= 57,
    ensures
        number::decimal_value(seq![c]) == c as int - 48,
{
    reveal_with_fuel(number::decimal_value, 2);
    assert(seq![c].drop_last() =~= seq![]);
}

/// Whether a text is one or more of the digits 0 to 9.
pub open spec fn only_digits(s: Seq<char>) -> bool {
    s.len() > 0 && forall|i: int| 0 <= i < s.len() ==> 48 <= (#[trigger] s[i]) as int <= 57
}

/// A text is a number where it is digits, with a `+` in front or not, that do not
/// stand for too much; and then it is what they stand for.
pub proof fn law_reading_numbers(s: Seq<char>, max: nat)
    ensures
        only_digits(s) ==> number::number(s, max) == if number::decimal_value(s) <= max {
            Some(number::decimal_value(s))
        } else {
            None
        },
        only_digits(s) ==> number::number(seq!['+'] + s, max) == number::number(s, max),
        !only_digits(s) && !(s.len() > 0 && s[0] == '+' && only_digits(s.skip(1)))
            ==> number::number(s, max) is None,
{
    assert(only_digits(s) == number::all_digits(s)) by {
        if only_digits(s) {
            assert forall|i: int| 0 <= i < s.len() implies number::is_digit(#[trigger] s[i]) by {}
        }
        if number::all_digits(s) {
            assert forall|i: int| 0 <= i < s.len() implies 48 <= (#[trigger] s[i]) as int <= 57 by {
                assert(number::is_digit(s[i]));
            }
        }
    }
    assert((seq!['+'] + s).skip(1) =~= s);
    if s.len() > 0 && s[0] == '+' {
        let d = s.skip(1);
        if number::all_digits(d) {
            assert forall|i: int| 0 <= i < d.len() implies 48 <= (#[trigger] d[i]) as int <= 57 by {
                assert(number::is_digit(d[i]));
            }
        }
    }
}

/// A number is written in digits that stand for it, without a zero in front; and
/// such digits are how their number is written.
pub proof fn law_writing_numbers(n: nat, s: Seq<char>)
    ensures
        only_digits(number::decimal(n)),
        number::decimal_value(number::decimal(n)) == n,
        number::decimal(n)[0] == '0' ==> number::decimal(n).len() == 1,
        only_digits(s) && (s[0] == '0' ==> s.len() == 1) ==> number::decimal(
            number::decimal_value(s),
        ) == s,
{
    number::lemma_decimal(n);
    let w = number::decimal(n);
    assert forall|i: int| 0 <= i < w.len() implies 48 <= (#[trigger] w[i]) as int <= 57 by {
        assert(number::is_digit(w[i]));
    }
    lemma_no_leading_zero(n);
    if only_digits(s) && (s[0] == '0' ==> s.len() == 1) {
        lemma_canonical(s);
    }
}

/// No number above nine is written with a zero in front.
proof fn lemma_no_leading_zero(n: nat)
    ensures
        number::decimal(n).len() > 0,
        n > 0 ==> number::decimal(n)[0] != '0',
        n < 10 ==> number::decimal(n).len() == 1,
    decreases n,
{
    if n >= 10 {
        lemma_no_leading_zero(n / 10);
        assert(number::decimal(n)[0] == number::decimal(n / 10)[0]);
    }
}

/// Digits without a zero in front are how their number is written.
proof fn lemma_canonical(s: Seq<char>)
    requires
        only_digits(s),
        s[0] == '0' ==> s.len() == 1,
    ensures
        number::decimal(number::decimal_value(s)) == s,
        s[0] != '0' ==> number::decimal_value(s) > 0,
    decreases s.len(),
{
    reveal_with_fuel(number::decimal_value, 2);
    let v = number::decimal_value(s);
    let d = s.last() as int - 48;
    if s.len() == 1 {
        assert(s.drop_last() =~= seq![]);
        assert(v == d);
        assert(number::digit_char(v) == s[0]);
        assert(number::decimal(v) =~= s);
    } else {
        let init = s.drop_last();
        assert(init[0] == s[0]);
        assert forall|i: int| 0 <= i < init.len() implies 48 <= (#[trigger] init[i]) as int <= 57 by {
            assert(init[i] == s[i]);
        }
        lemma_canonical(init);
        let u = number::decimal_value(init);
        assert(v == u * 10 + d);
        assert(v / 10 == u && v % 10 == d);
        assert(number::digit_char(v % 10) == s.last());
        assert(number::decimal(v) =~= s);
    }
}

// ---------------------------------------------------------------------------
// Addresses
// ---------------------------------------------------------------------------

/// An address in dotted decimal.
pub open spec fn dotted(ip: Ipv4Addr) -> Seq<char> {
    joined(
        seq![
            number::decimal(ip.a as nat),
            number::decimal(ip.b as nat),
            number::decimal(ip.c as nat),
            number::decimal(ip.d as nat),
        ],
        '.',
    )
}

/// An octet is read from how it is written, and from nothing else.
proof fn lemma_octet(s: Seq<char>, x: u8)
    ensures
        addr::octet(s) == Some(x) <==> s == number::decimal(x as nat),
        addr::octet(s) is Some ==> lacks(s, '.'),
{
    law_writing_numbers(x as nat, s);
    number::lemma_decimal(x as nat);
    if addr::octet(s) is Some {
        assert forall|i: int| 0 <= i < s.len() implies 48 <= (#[trigger] s[i]) as int <= 57 by {
            assert(number::is_digit(s[i]));
        }
    }
}

/// An address is read from how it is written in dotted decimal, and from nothing
/// else.
pub proof fn law_addresses_are_dotted_decimal(s: Seq<char>, ip: Ipv4Addr)
    ensures
        addr::ipv4(s) == Some(ip) <==> s == dotted(ip),
{
    let want = seq![
        number::decimal(ip.a as nat),
        number::decimal(ip.b as nat),
        number::decimal(ip.c as nat),
        number::decimal(ip.d as nat),
    ];
    lemma_octet(want[0], ip.a);
    lemma_octet(want[1], ip.b);
    lemma_octet(want[2], ip.c);
    lemma_octet(want[3], ip.d);
    law_splitting(want, '.');
    let parts = text::split(s, '.');
    law_parts_make_up_the_text(s, '.');
    if parts.len() == 4 {
        lemma_octet(parts[0], ip.a);
        lemma_octet(parts[1], ip.b);
        lemma_octet(parts[2], ip.c);
        lemma_octet(parts[3], ip.d);
        if addr::ipv4(s) == Some(ip) {
            assert(parts =~= want);
        }
    }
}

/// An address is known by its four octets, in order.
pub proof fn law_octets_of_an_address(a: u8, b: u8, c: u8, d: u8)
    ensures
        (Ipv4Addr { a, b, c, d }).bytes() == seq![a, b, c, d],
{
}

} // verus!
