//! The list of blocked domains.
//!
//! The file holds one domain on a line:
//!
//! ```text
//! ads.doubleclick.net
//! tracking.example.com
//! *.adserver.com
//! ```
//!
//! A line `*.domain` blocks `domain` and every name below it. Empty lines and
//! lines that start with `#` are ignored.
//!
//! Lists can be long (some 150 000 domains), so the domains are kept in a hash
//! set, and the wildcards as suffixes.

use vstd::prelude::*;
use vstd::hash_set::StringHashSet;
use crate::text;

verus! {

/// A list of blocked domains.
pub struct Blocklist {
    /// The domains that are blocked themselves, those of the wildcards too.
    exact: StringHashSet,
    /// The suffixes of the wildcards, such as `.adserver.com`.
    wildcards: Vec<Vec<char>>,
}

/// What a [`Blocklist`] holds.
#[verifier::ext_equal]
pub struct BlocklistView {
    pub exact: Set<Seq<char>>,
    pub wildcards: Seq<Seq<char>>,
}

/// What a line of the file asks for.
pub enum Rule {
    /// Block this domain.
    Exact(Seq<char>),
    /// Block this domain and every name below it.
    Wildcard(Seq<char>),
}

impl Rule {
    /// Whether the rule blocks a name.
    pub open spec fn covers(self, name: Seq<char>) -> bool {
        match self {
            Rule::Exact(domain) => name == domain,
            Rule::Wildcard(domain) => name == domain || text::has_suffix(name, seq!['.'] + domain),
        }
    }
}

/// The rule on a line, if there is one.
pub open spec fn rule_of(line: Seq<char>) -> Option<Rule> {
    let l = text::trimmed(line);
    if l.len() == 0 || l[0] == '#' {
        None
    } else {
        let domain = text::normalized(l);
        if domain.len() >= 2 && domain[0] == '*' && domain[1] == '.' {
            Some(Rule::Wildcard(domain.skip(2)))
        } else {
            Some(Rule::Exact(domain))
        }
    }
}

impl BlocklistView {
    /// The list without a rule.
    pub open spec fn empty() -> Self {
        BlocklistView { exact: Set::empty(), wildcards: Seq::empty() }
    }

    /// The list with one more rule.
    pub open spec fn with(self, rule: Rule) -> Self {
        match rule {
            Rule::Exact(domain) => BlocklistView {
                exact: self.exact.insert(domain),
                wildcards: self.wildcards,
            },
            Rule::Wildcard(domain) => BlocklistView {
                exact: self.exact.insert(domain),
                wildcards: self.wildcards.push(seq!['.'] + domain),
            },
        }
    }

    /// Whether a name is blocked.
    pub open spec fn blocks(self, name: Seq<char>) -> bool {
        ||| self.exact.contains(name)
        ||| exists|i: int|
            0 <= i < self.wildcards.len() && text::has_suffix(name, #[trigger] self.wildcards[i])
    }

    /// The number of entries: domains and wildcards.
    pub open spec fn size(self) -> nat {
        self.exact.len() + self.wildcards.len()
    }
}

/// The list that the lines make up.
pub open spec fn list_of(lines: Seq<Seq<char>>) -> BlocklistView
    decreases lines.len(),
{
    if lines.len() == 0 {
        BlocklistView::empty()
    } else {
        let before = list_of(lines.drop_last());
        match rule_of(lines.last()) {
            Some(rule) => before.with(rule),
            None => before,
        }
    }
}

impl View for Blocklist {
    type V = BlocklistView;

    closed spec fn view(&self) -> BlocklistView {
        BlocklistView {
            exact: self.exact@,
            wildcards: self.wildcards@.map_values(|w: Vec<char>| w@),
        }
    }
}

impl Blocklist {
    /// The entries are few enough to be counted.
    pub open spec fn wf(self) -> bool {
        self@.exact.finite() && self@.size() <= usize::MAX
    }

    /// Whether a domain is blocked. The name is expected in lower case and
    /// without a dot at its end.
    pub fn is_blocked(&self, name: &str) -> (r: bool)
        ensures
            r == self@.blocks(name@),
    {
        if self.exact.contains(name) {
            return true;
        }
        let chars = text::chars_of(name);
        for i in 0..self.wildcards.len()
            invariant
                chars@ == name@,
                !self.exact@.contains(name@),
                forall|j: int|
                    0 <= j < i ==> !text::has_suffix(name@, #[trigger] self@.wildcards[j]),
        {
            assert(self@.wildcards[i as int] == self.wildcards@[i as int]@);
            if text::ends_with(chars.as_slice(), self.wildcards[i].as_slice()) {
                return true;
            }
        }
        false
    }

    /// How many entries the list holds: domains and wildcards.
    pub fn len(&self) -> (r: usize)
        requires
            self.wf(),
        ensures
            r == self@.size(),
    {
        self.exact.len() + self.wildcards.len()
    }

    /// Whether the list holds no entry.
    pub fn is_empty(&self) -> (r: bool)
        ensures
            r == (self@ == BlocklistView::empty()),
    {
        assert(self.wildcards@.len() == 0 ==> self@.wildcards =~= Seq::empty());
        assert(self@.wildcards.len() == self.wildcards@.len());
        self.exact.is_empty() && self.wildcards.is_empty()
    }
}

impl Default for Blocklist {
    /// The empty list.
    fn default() -> (r: Self)
        ensures
            r@ == BlocklistView::empty(),
            r.wf(),
    {
        let r = Blocklist { exact: StringHashSet::new(), wildcards: Vec::new() };
        assert(r@ =~= BlocklistView::empty());
        r
    }
}

/// The list in a file whose contents are given; a file that could not be read
/// gives the empty list.
pub fn load(contents: Option<&str>) -> (r: Blocklist)
    ensures
        r.wf(),
        r@ == (match contents {
            Some(t) => list_of(text::lines(t@)),
            None => BlocklistView::empty(),
        }),
{
    match contents {
        Some(t) => parse(t),
        None => Blocklist::default(),
    }
}

/// Read a list.
pub fn parse(text: &str) -> (r: Blocklist)
    ensures
        r.wf(),
        r@ == list_of(text::lines(text@)),
{
    let chars = text::chars_of(text);
    let parts = text::split_at_char(chars.as_slice(), '\n');
    let ghost lines = text::lines(text@);
    let mut exact = StringHashSet::new();
    let mut wildcards: Vec<Vec<char>> = Vec::new();
    proof {
        assert(lines.take(0) =~= seq![]);
        text::lemma_spread_split(text@, '\n');
        assert(parts@.len() == lines.len());
    }
    for i in 0..parts.len()
        invariant
            text::views(parts@) == lines,
            parts@.len() == lines.len(),
            exact@.finite(),
            exact@ == list_of(lines.take(i as int)).exact,
            wildcards@.map_values(|w: Vec<char>| w@) == list_of(lines.take(i as int)).wildcards,
            exact@.len() + wildcards@.len() + i <= text::spread(lines.take(i as int)),
    {
        let ghost before = wildcards@.map_values(|w: Vec<char>| w@);
        proof {
            assert(lines[i as int] == parts@[i as int]@);
            assert(lines.take(i + 1).drop_last() =~= lines.take(i as int));
            text::lemma_spread_last(lines.take(i + 1));
        }
        let line = text::trim(parts[i]);
        if line.len() != 0 && line[0] != '#' {
            let name = text::strip_dots(line);
            let domain = text::lower_string_of(name);
            if name.len() >= 2 && name[0] == '*' && name[1] == '.' {
                let base = text::lower_string_of(vstd::slice::slice_subrange(name, 2, name.len()));
                let mut suffix: Vec<char> = Vec::new();
                suffix.push('.');
                let mut rest = text::chars_of(base.as_str());
                suffix.append(&mut rest);
                proof {
                    assert(base@ =~= domain@.skip(2));
                    assert(suffix@ =~= seq!['.'] + base@);
                }
                let _ = exact.insert(base);
                wildcards.push(suffix);
                assert(wildcards@.map_values(|w: Vec<char>| w@) =~= before.push(suffix@));
            } else {
                proof {
                    if domain@.len() >= 2 {
                        assert(domain@[0] == text::lower_char(name@[0]));
                        assert(domain@[1] == text::lower_char(name@[1]));
                    }
                }
                let _ = exact.insert(domain);
            }
        }
    }
    proof {
        assert(lines.take(lines.len() as int) =~= lines);
        text::lemma_split_nonempty(text@, '\n');
        assert(chars.len() == text@.len());
    }
    let r = Blocklist { exact, wildcards };
    assert(r@ =~= list_of(lines));
    r
}

// ---------------------------------------------------------------------------
// What the list means
// ---------------------------------------------------------------------------

/// The list blocks exactly the names that some line of the file covers.
pub proof fn law_list_blocks_what_its_lines_cover(lines: Seq<Seq<char>>, name: Seq<char>)
    ensures
        list_of(lines).blocks(name) <==> exists|i: int|
            0 <= i < lines.len() && (rule_of(#[trigger] lines[i]) matches Some(rule)
                && rule.covers(name)),
    decreases lines.len(),
{
    if lines.len() > 0 {
        let init = lines.drop_last();
        law_list_blocks_what_its_lines_cover(init, name);
        let before = list_of(init);
        let list = list_of(lines);
        let last = lines.last();
        let covered = rule_of(last) matches Some(rule) && rule.covers(name);
        assert(list.blocks(name) <==> before.blocks(name) || covered) by {
            if let Some(Rule::Wildcard(domain)) = rule_of(last) {
                let suffix = seq!['.'] + domain;
                assert(list.wildcards =~= before.wildcards.push(suffix));
                assert(list.wildcards.last() == suffix);
                if before.blocks(name) && !before.exact.contains(name) {
                    let k = choose|k: int|
                        0 <= k < before.wildcards.len() && text::has_suffix(
                            name,
                            #[trigger] before.wildcards[k],
                        );
                    assert(list.wildcards[k] == before.wildcards[k]);
                }
                if list.blocks(name) && !list.exact.contains(name) {
                    let k = choose|k: int|
                        0 <= k < list.wildcards.len() && text::has_suffix(
                            name,
                            #[trigger] list.wildcards[k],
                        );
                    if k < before.wildcards.len() {
                        assert(before.wildcards[k] == list.wildcards[k]);
                    }
                }
            }
        }
        if before.blocks(name) {
            let k = choose|k: int|
                0 <= k < init.len() && (rule_of(#[trigger] init[k]) matches Some(rule)
                    && rule.covers(name));
            assert(lines[k] == init[k]);
        }
        if covered {
            assert(lines[lines.len() - 1] == last);
        }
        if exists|i: int|
            0 <= i < lines.len() && (rule_of(#[trigger] lines[i]) matches Some(rule)
                && rule.covers(name)) {
            let k = choose|k: int|
                0 <= k < lines.len() && (rule_of(#[trigger] lines[k]) matches Some(rule)
                    && rule.covers(name));
            if k < init.len() {
                assert(init[k] == lines[k]);
            }
        }
    }
}

} // verus!
