//! Characters, words and lines: the text handling that the file formats share.
//!
//! A string is a sequence of characters. The functions here work on slices of
//! characters, so that a position in a text is a plain index.

use vstd::prelude::*;
use vstd::slice::slice_subrange;

verus! {

/// `String::push` appends one character to the end of the string.
pub assume_specification[ String::push ](s: &mut String, c: char)
    ensures
        final(s)@ == old(s)@.push(c),
;

// ---------------------------------------------------------------------------
// Characters
// ---------------------------------------------------------------------------

/// The characters with the Unicode property `White_Space`.
pub open spec fn is_space(c: char) -> bool {
    ||| '\u{9}' <= c <= '\u{d}'
    ||| c == '\u{20}'
    ||| c == '\u{85}'
    ||| c == '\u{a0}'
    ||| c == '\u{1680}'
    ||| '\u{2000}' <= c <= '\u{200a}'
    ||| c == '\u{2028}'
    ||| c == '\u{2029}'
    ||| c == '\u{202f}'
    ||| c == '\u{205f}'
    ||| c == '\u{3000}'
}

/// Whether `c` is white space.
pub fn is_whitespace(c: char) -> (r: bool)
    ensures
        r == is_space(c),
{
    ('\u{9}' <= c && c <= '\u{d}') || c == '\u{20}' || c == '\u{85}' || c == '\u{a0}' || c
        == '\u{1680}' || ('\u{2000}' <= c && c <= '\u{200a}') || c == '\u{2028}' || c == '\u{2029}'
        || c == '\u{202f}' || c == '\u{205f}' || c == '\u{3000}'
}

/// The lower-case form of an ASCII letter; every other character is its own.
pub open spec fn lower_char(c: char) -> char {
    if 'A' <= c <= 'Z' {
        (c as u8 + 32) as char
    } else {
        c
    }
}

/// The text with its ASCII letters in lower case.
pub open spec fn lower(s: Seq<char>) -> Seq<char> {
    s.map_values(|c: char| lower_char(c))
}

/// The lower-case form of `c`, for ASCII letters.
pub fn to_lower_char(c: char) -> (r: char)
    ensures
        r == lower_char(c),
{
    if 'A' <= c && c <= 'Z' {
        (c as u8 + 32) as char
    } else {
        c
    }
}

// ---------------------------------------------------------------------------
// Between strings and slices of characters
// ---------------------------------------------------------------------------

/// The characters of a string.
pub fn chars_of(s: &str) -> (r: Vec<char>)
    ensures
        r@ == s@,
{
    let mut out: Vec<char> = Vec::new();
    for c in it: s.chars()
        invariant
            it.seq() == s@,
            out@ == s@.take(it.index()),
    {
        out.push(c);
    }
    assert(s@.take(s@.len() as int) == s@);
    out
}

/// The string made of the given characters.
pub fn string_of(s: &[char]) -> (r: String)
    ensures
        r@ == s@,
{
    let mut out = String::new();
    for i in 0..s.len()
        invariant
            out@ == s@.take(i as int),
    {
        out.push(s[i]);
    }
    assert(s@.take(s@.len() as int) == s@);
    out
}

/// The string made of the given characters, its ASCII letters in lower case.
pub fn lower_string_of(s: &[char]) -> (r: String)
    ensures
        r@ == lower(s@),
{
    let mut out = String::new();
    for i in 0..s.len()
        invariant
            out@ == lower(s@.take(i as int)),
    {
        out.push(to_lower_char(s[i]));
        assert(s@.take(i + 1) == s@.take(i as int).push(s@[i as int]));
    }
    assert(s@.take(s@.len() as int) == s@);
    out
}

/// Whether the characters are those of the string.
pub fn same_text(s: &[char], t: &str) -> (r: bool)
    ensures
        r == (s@ == t@),
{
    let u = chars_of(t);
    if s.len() != u.len() {
        return false;
    }
    for i in 0..s.len()
        invariant
            s@.len() == u@.len(),
            u@ == t@,
            forall|j: int| 0 <= j < i ==> s@[j] == u@[j],
    {
        if s[i] != u[i] {
            assert(s@[i as int] != u@[i as int]);
            return false;
        }
    }
    assert(s@ =~= u@);
    true
}

/// Whether the two strings hold the same characters.
pub fn same_string(s: &str, t: &str) -> (r: bool)
    ensures
        r == (s@ == t@),
{
    let u = chars_of(s);
    same_text(u.as_slice(), t)
}

// ---------------------------------------------------------------------------
// Suffixes
// ---------------------------------------------------------------------------

/// Whether `s` ends with `suffix`.
pub open spec fn has_suffix(s: Seq<char>, suffix: Seq<char>) -> bool {
    &&& suffix.len() <= s.len()
    &&& s.skip(s.len() - suffix.len()) == suffix
}

/// Whether `s` ends with `suffix`.
pub fn ends_with(s: &[char], suffix: &[char]) -> (r: bool)
    ensures
        r == has_suffix(s@, suffix@),
{
    if suffix.len() > s.len() {
        return false;
    }
    let start: usize = s.len() - suffix.len();
    let ghost tail = s@.skip(start as int);
    for i in 0..suffix.len()
        invariant
            start + suffix.len() == s.len(),
            tail == s@.skip(start as int),
            forall|j: int| 0 <= j < i ==> tail[j] == suffix@[j],
    {
        if s[start + i] != suffix[i] {
            assert(tail[i as int] != suffix@[i as int]);
            return false;
        }
    }
    assert(tail =~= suffix@);
    true
}

// ---------------------------------------------------------------------------
// Trimming
// ---------------------------------------------------------------------------

/// The text from its first character that is not white space on.
pub open spec fn trim_start(s: Seq<char>) -> Seq<char>
    decreases s.len(),
{
    if s.len() > 0 && is_space(s[0]) {
        trim_start(s.skip(1))
    } else {
        s
    }
}

/// The text up to its last character that is not white space.
pub open spec fn trim_end(s: Seq<char>) -> Seq<char>
    decreases s.len(),
{
    if s.len() > 0 && is_space(s.last()) {
        trim_end(s.drop_last())
    } else {
        s
    }
}

/// The text without white space at either end.
pub open spec fn trimmed(s: Seq<char>) -> Seq<char> {
    trim_end(trim_start(s))
}

/// The text without the dots at its end.
pub open spec fn without_dots(s: Seq<char>) -> Seq<char>
    decreases s.len(),
{
    if s.len() > 0 && s.last() == '.' {
        without_dots(s.drop_last())
    } else {
        s
    }
}

/// A domain name as it is compared: no dot at the end, letters in lower case.
pub open spec fn normalized(s: Seq<char>) -> Seq<char> {
    lower(without_dots(s))
}

/// The text without white space at either end.
pub fn trim<'a>(s: &'a [char]) -> (r: &'a [char])
    ensures
        r@ == trimmed(s@),
        r@.len() <= s@.len(),
{
    let mut lo: usize = 0;
    assert(s@.skip(0) == s@);
    while lo < s.len() && is_whitespace(s[lo])
        invariant
            lo <= s@.len(),
            trim_start(s@) == trim_start(s@.skip(lo as int)),
        decreases s@.len() - lo,
    {
        assert(s@.skip(lo as int).skip(1) == s@.skip(lo + 1));
        lo += 1;
    }
    let mut hi: usize = s.len();
    let ghost kept = trim_start(s@);
    assert(kept == s@.subrange(lo as int, hi as int));
    while lo < hi && is_whitespace(s[hi - 1])
        invariant
            lo <= hi <= s@.len(),
            trim_end(kept) == trim_end(s@.subrange(lo as int, hi as int)),
        decreases hi,
    {
        assert(s@.subrange(lo as int, hi as int).drop_last() == s@.subrange(lo as int, hi - 1));
        hi -= 1;
    }
    slice_subrange(s, lo, hi)
}

/// The text without the dots at its end.
pub fn strip_dots<'a>(s: &'a [char]) -> (r: &'a [char])
    ensures
        r@ == without_dots(s@),
        r@.len() <= s@.len(),
{
    let mut hi: usize = s.len();
    assert(s@.subrange(0, hi as int) == s@);
    while hi > 0 && s[hi - 1] == '.'
        invariant
            hi <= s@.len(),
            without_dots(s@) == without_dots(s@.subrange(0, hi as int)),
        decreases hi,
    {
        assert(s@.subrange(0, hi as int).drop_last() == s@.subrange(0, hi - 1));
        hi -= 1;
    }
    slice_subrange(s, 0, hi)
}

/// A domain name as it is compared: no dot at the end, letters in lower case.
pub fn normalize(s: &[char]) -> (r: String)
    ensures
        r@ == normalized(s@),
{
    lower_string_of(strip_dots(s))
}

// ---------------------------------------------------------------------------
// Splitting
// ---------------------------------------------------------------------------

/// The position of the first `c` in `s`, or the length of `s` where there is none.
pub open spec fn first_at(s: Seq<char>, c: char) -> int
    decreases s.len(),
{
    if s.len() == 0 || s[0] == c {
        0
    } else {
        1 + first_at(s.skip(1), c)
    }
}

/// The parts of `s` between the separators: one more than there are of these.
pub open spec fn split(s: Seq<char>, sep: char) -> Seq<Seq<char>>
    decreases s.len(),
{
    let i = first_at(s, sep);
    if 0 <= i < s.len() {
        seq![s.take(i)] + split(s.skip(i + 1), sep)
    } else {
        seq![s]
    }
}

/// The lines of a text.
pub open spec fn lines(s: Seq<char>) -> Seq<Seq<char>> {
    split(s, '\n')
}

/// The number of characters before the first white space.
pub open spec fn word_len(s: Seq<char>) -> int
    decreases s.len(),
{
    if s.len() == 0 || is_space(s[0]) {
        0
    } else {
        1 + word_len(s.skip(1))
    }
}

/// The words of `s`: its longest runs of characters that are not white space.
pub open spec fn words(s: Seq<char>) -> Seq<Seq<char>>
    decreases s.len(),
{
    if s.len() == 0 {
        seq![]
    } else if is_space(s[0]) {
        words(s.skip(1))
    } else {
        let n = word_len(s);
        if 0 < n <= s.len() {
            seq![s.take(n)] + words(s.skip(n))
        } else {
            seq![]
        }
    }
}

/// What slices of characters hold.
pub open spec fn views(v: Seq<&[char]>) -> Seq<Seq<char>> {
    v.map_values(|x: &[char]| x@)
}

/// `first_at` is a position up to the length, and the first with `c`.
pub proof fn lemma_first_at(s: Seq<char>, c: char)
    ensures
        0 <= first_at(s, c) <= s.len(),
        first_at(s, c) < s.len() ==> s[first_at(s, c)] == c,
        forall|i: int| 0 <= i < first_at(s, c) ==> s[i] != c,
    decreases s.len(),
{
    if s.len() > 0 && s[0] != c {
        lemma_first_at(s.skip(1), c);
        assert forall|i: int| 0 <= i < first_at(s, c) implies s[i] != c by {
            if i > 0 {
                assert(s[i] == s.skip(1)[i - 1]);
            }
        }
    }
}

/// A position is `first_at` when it holds `c`, or ends the text, and no earlier one holds it.
pub proof fn lemma_first_at_is(s: Seq<char>, c: char, i: int)
    requires
        0 <= i <= s.len(),
        i < s.len() ==> s[i] == c,
        forall|j: int| 0 <= j < i ==> s[j] != c,
    ensures
        first_at(s, c) == i,
{
    lemma_first_at(s, c);
    let k = first_at(s, c);
    if k < i {
        assert(s[k] == c);
    }
    if i < k {
        assert(s[i] != c);
    }
}

/// `word_len` counts characters of `s`, none of them white space.
proof fn lemma_word_len(s: Seq<char>)
    ensures
        0 <= word_len(s) <= s.len(),
        s.len() > 0 && !is_space(s[0]) ==> word_len(s) > 0,
    decreases s.len(),
{
    if s.len() > 0 && !is_space(s[0]) {
        lemma_word_len(s.skip(1));
    }
}

/// The position of the first `c` at or after `from`, or the length of `s`.
pub fn find_from(s: &[char], c: char, from: usize) -> (r: usize)
    requires
        from <= s@.len(),
    ensures
        from <= r <= s@.len(),
        r == from + first_at(s@.skip(from as int), c),
{
    let mut i: usize = from;
    while i < s.len() && s[i] != c
        invariant
            from <= i <= s@.len(),
            forall|j: int| from <= j < i ==> s@[j] != c,
        decreases s@.len() - i,
    {
        i += 1;
    }
    proof {
        lemma_first_at_is(s@.skip(from as int), c, i - from);
    }
    i
}

/// The parts of `s` between the separators.
pub fn split_at_char<'a>(s: &'a [char], sep: char) -> (r: Vec<&'a [char]>)
    ensures
        views(r@) == split(s@, sep),
{
    let mut out: Vec<&'a [char]> = Vec::new();
    let mut p: usize = 0;
    assert(s@.skip(0) == s@);
    assert(views(out@) + split(s@, sep) =~= split(s@, sep));
    loop
        invariant
            p <= s@.len(),
            views(out@) + split(s@.skip(p as int), sep) == split(s@, sep),
        decreases s@.len() - p,
    {
        let q = find_from(s, sep, p);
        let part = slice_subrange(s, p, q);
        let ghost before = out@;
        out.push(part);
        proof {
            assert(views(out@) =~= views(before).push(part@));
            assert(part@ =~= s@.skip(p as int).take(q - p));
        }
        if q == s.len() {
            proof {
                assert(part@ =~= s@.skip(p as int));
                assert(views(out@) =~= views(before) + split(s@.skip(p as int), sep));
            }
            return out;
        }
        proof {
            let rest = s@.skip(p as int);
            assert(rest.skip(q - p + 1) =~= s@.skip(q + 1));
            assert(views(before) + (seq![rest.take(q - p)] + split(s@.skip(q + 1), sep))
                =~= views(out@) + split(s@.skip(q + 1), sep));
        }
        p = q + 1;
    }
}

/// The words of `s`.
pub fn split_words<'a>(s: &'a [char]) -> (r: Vec<&'a [char]>)
    ensures
        views(r@) == words(s@),
{
    let mut out: Vec<&'a [char]> = Vec::new();
    let mut p: usize = 0;
    assert(s@.skip(0) == s@);
    assert(views(out@) + words(s@) =~= words(s@));
    while p < s.len()
        invariant
            p <= s@.len(),
            views(out@) + words(s@.skip(p as int)) == words(s@),
        decreases s@.len() - p,
    {
        let ghost rest = s@.skip(p as int);
        assert(rest[0] == s@[p as int]);
        if is_whitespace(s[p]) {
            assert(rest.skip(1) =~= s@.skip(p + 1));
            p += 1;
        } else {
            let mut q: usize = p;
            while q < s.len() && !is_whitespace(s[q])
                invariant
                    p <= q <= s@.len(),
                    p < s@.len(),
                    rest == s@.skip(p as int),
                    word_len(rest) == (q - p) + word_len(s@.skip(q as int)),
                decreases s@.len() - q,
            {
                assert(s@.skip(q as int).skip(1) =~= s@.skip(q + 1));
                q += 1;
            }
            let part = slice_subrange(s, p, q);
            let ghost before = out@;
            out.push(part);
            proof {
                lemma_word_len(rest);
                assert(word_len(rest) == q - p);
                assert(views(out@) =~= views(before).push(part@));
                assert(part@ =~= rest.take(q - p));
                assert(rest.skip(q - p) =~= s@.skip(q as int));
                assert(views(before) + (seq![rest.take(q - p)] + words(s@.skip(q as int)))
                    =~= views(out@) + words(s@.skip(q as int)));
            }
            p = q;
        }
    }
    assert(s@.skip(p as int) =~= Seq::<char>::empty());
    assert(views(out@) + Seq::<Seq<char>>::empty() =~= views(out@));
    out
}

// ---------------------------------------------------------------------------
// Facts about splitting
// ---------------------------------------------------------------------------

/// The characters in the parts, and one more for each part.
pub open spec fn spread(parts: Seq<Seq<char>>) -> int
    decreases parts.len(),
{
    if parts.len() == 0 {
        0
    } else {
        parts[0].len() + 1 + spread(parts.skip(1))
    }
}

/// There is always at least one part.
pub proof fn lemma_split_nonempty(s: Seq<char>, sep: char)
    ensures
        split(s, sep).len() > 0,
{
}

/// The measure of parts is not negative.
pub proof fn lemma_spread_nonneg(parts: Seq<Seq<char>>)
    ensures
        spread(parts) >= 0,
    decreases parts.len(),
{
    if parts.len() > 0 {
        lemma_spread_nonneg(parts.skip(1));
    }
}

/// The measure of parts, taken from the right.
pub proof fn lemma_spread_last(parts: Seq<Seq<char>>)
    requires
        parts.len() > 0,
    ensures
        spread(parts) == spread(parts.drop_last()) + parts.last().len() + 1,
    decreases parts.len(),
{
    reveal_with_fuel(spread, 2);
    if parts.len() > 1 {
        lemma_spread_last(parts.skip(1));
        assert(parts.skip(1).drop_last() =~= parts.drop_last().skip(1));
        assert(parts.drop_last()[0] == parts[0]);
    } else {
        assert(parts.skip(1) =~= Seq::<Seq<char>>::empty());
        assert(parts.drop_last() =~= Seq::<Seq<char>>::empty());
    }
}

/// The parts and their separators make up the text.
pub proof fn lemma_spread_split(s: Seq<char>, sep: char)
    ensures
        spread(split(s, sep)) == s.len() + 1,
    decreases s.len(),
{
    reveal_with_fuel(spread, 2);
    lemma_first_at(s, sep);
    let i = first_at(s, sep);
    if i < s.len() {
        let rest = s.skip(i + 1);
        lemma_spread_split(rest, sep);
        assert(split(s, sep).skip(1) =~= split(rest, sep));
    } else {
        assert(seq![s].skip(1) =~= Seq::<Seq<char>>::empty());
    }
}

/// A separator and text without one add a part.
pub proof fn lemma_split_last(s: Seq<char>, sep: char, last: Seq<char>)
    requires
        forall|i: int| 0 <= i < last.len() ==> last[i] != sep,
    ensures
        split(s.push(sep) + last, sep) == split(s, sep).push(last),
    decreases s.len(),
{
    reveal_with_fuel(split, 2);
    let whole = s.push(sep) + last;
    lemma_first_at(s, sep);
    let i = first_at(s, sep);
    lemma_first_at_is(whole, sep, i);
    assert(whole.take(i) =~= s.take(i));
    if i < s.len() {
        let rest = s.skip(i + 1);
        lemma_split_last(rest, sep, last);
        assert(whole.skip(i + 1) =~= rest.push(sep) + last);
        assert(split(whole, sep) =~= split(s, sep).push(last));
    } else {
        assert(whole.skip(i + 1) =~= last);
        assert(s.take(i) =~= s);
        lemma_first_at_is(last, sep, last.len() as int);
        assert(split(whole, sep) =~= split(s, sep).push(last));
    }
}

/// Lower case and splitting at a character that is no letter commute.
pub proof fn lemma_lower_split(s: Seq<char>, sep: char)
    requires
        lower_char(sep) == sep,
        !('a' <= sep <= 'z'),
    ensures
        split(lower(s), sep) == split(s, sep).map_values(|l: Seq<char>| lower(l)),
    decreases s.len(),
{
    let t = lower(s);
    lemma_first_at(s, sep);
    let i = first_at(s, sep);
    assert forall|j: int| 0 <= j < i implies t[j] != sep by {
        assert(s[j] != sep);
    }
    lemma_first_at_is(t, sep, i);
    assert(t.take(i) =~= lower(s.take(i)));
    if i < s.len() {
        lemma_lower_split(s.skip(i + 1), sep);
        assert(t.skip(i + 1) =~= lower(s.skip(i + 1)));
    }
    assert(split(t, sep) =~= split(s, sep).map_values(|l: Seq<char>| lower(l)));
}

} // verus!
