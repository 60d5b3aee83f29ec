//! The arguments of the program.

use vstd::prelude::*;
use crate::text;

verus! {

/// What the program was called for.
#[derive(Debug)]
pub enum Invocation {
    /// To serve, with the configuration at this path.
    Serve(String),
    /// To say how it is called.
    Help,
}

/// What an [`Invocation`] holds.
pub enum InvocationView {
    Serve(Seq<char>),
    Help,
}

impl View for Invocation {
    type V = InvocationView;

    open spec fn view(&self) -> InvocationView {
        match self {
            Invocation::Serve(p) => InvocationView::Serve(p@),
            Invocation::Help => InvocationView::Help,
        }
    }
}

/// An argument that counts for nothing.
#[derive(Debug)]
pub enum IgnoredArg {
    /// It is not known.
    Unknown(String),
    /// It is `--config`, and no value follows.
    ConfigWithoutValue,
}

/// What an [`IgnoredArg`] holds.
pub enum IgnoredArgView {
    Unknown(Seq<char>),
    ConfigWithoutValue,
}

impl View for IgnoredArg {
    type V = IgnoredArgView;

    open spec fn view(&self) -> IgnoredArgView {
        match self {
            IgnoredArg::Unknown(a) => IgnoredArgView::Unknown(a@),
            IgnoredArg::ConfigWithoutValue => IgnoredArgView::ConfigWithoutValue,
        }
    }
}

/// Where the configuration is, if nothing else is said.
pub open spec fn default_path() -> Seq<char> {
    "/etc/nanodns/config"@
}

/// Whether an argument asks for help.
pub open spec fn asks_for_help(arg: Seq<char>) -> bool {
    arg == "-h"@ || arg == "--help"@
}

/// What the arguments ask for: the first of `--config` with a value, and a request
/// for help, decides. Other arguments count for nothing.
pub open spec fn invocation_of(args: Seq<Seq<char>>) -> InvocationView
    decreases args.len(),
{
    if args.len() == 0 {
        InvocationView::Serve(default_path())
    } else if args[0] == "--config"@ {
        if args.len() >= 2 {
            InvocationView::Serve(args[1])
        } else {
            InvocationView::Serve(default_path())
        }
    } else if asks_for_help(args[0]) {
        InvocationView::Help
    } else {
        invocation_of(args.skip(1))
    }
}

/// The arguments that count for nothing, up to the one that decides.
pub open spec fn ignored_of(args: Seq<Seq<char>>) -> Seq<IgnoredArgView>
    decreases args.len(),
{
    if args.len() == 0 {
        seq![]
    } else if args[0] == "--config"@ {
        if args.len() >= 2 {
            seq![]
        } else {
            seq![IgnoredArgView::ConfigWithoutValue]
        }
    } else if asks_for_help(args[0]) {
        seq![]
    } else {
        seq![IgnoredArgView::Unknown(args[0])] + ignored_of(args.skip(1))
    }
}

/// Read the arguments of the program, its name left out.
pub fn parse_args(args: &[String]) -> (r: Invocation)
    ensures
        r@ == invocation_of(args@.map_values(|s: String| s@)),
{
    let ghost all = args@.map_values(|s: String| s@);
    let mut i: usize = 0;
    assert(all.skip(0) =~= all);
    while i < args.len()
        invariant
            i <= args@.len(),
            all == args@.map_values(|s: String| s@),
            invocation_of(all) == invocation_of(all.skip(i as int)),
        decreases args@.len() - i,
    {
        let ghost rest = all.skip(i as int);
        assert(rest[0] == args@[i as int]@);
        let arg = args[i].as_str();
        if text::same_string(arg, "--config") {
            if i + 1 < args.len() {
                assert(rest[1] == args@[i + 1]@);
                return Invocation::Serve(args[i + 1].clone());
            }
            return Invocation::Serve(String::from_str("/etc/nanodns/config"));
        }
        if text::same_string(arg, "-h") || text::same_string(arg, "--help") {
            return Invocation::Help;
        }
        assert(rest.skip(1) =~= all.skip(i + 1));
        i += 1;
    }
    Invocation::Serve(String::from_str("/etc/nanodns/config"))
}

/// Whether an argument decides nothing.
pub open spec fn is_idle(arg: Seq<char>) -> bool {
    arg != "--config"@ && arg != "-h"@ && arg != "--help"@
}

/// Arguments that decide nothing are passed over, and listed.
proof fn lemma_idle(before: Seq<Seq<char>>, rest: Seq<Seq<char>>)
    requires
        forall|i: int| 0 <= i < before.len() ==> is_idle(#[trigger] before[i]),
    ensures
        invocation_of(before + rest) == invocation_of(rest),
        ignored_of(before + rest) == before.map_values(|a: Seq<char>| IgnoredArgView::Unknown(a))
            + ignored_of(rest),
    decreases before.len(),
{
    let all = before + rest;
    let unknown = before.map_values(|a: Seq<char>| IgnoredArgView::Unknown(a));
    if before.len() == 0 {
        assert(all =~= rest);
        assert(unknown + ignored_of(rest) =~= ignored_of(rest));
    } else {
        assert(is_idle(before[0]));
        assert(all[0] == before[0]);
        let less = before.skip(1);
        assert(all.skip(1) =~= less + rest);
        assert forall|i: int| 0 <= i < less.len() implies is_idle(#[trigger] less[i]) by {
            assert(less[i] == before[i + 1]);
        }
        lemma_idle(less, rest);
        assert(unknown + ignored_of(rest) =~= seq![IgnoredArgView::Unknown(before[0])] + (
        less.map_values(|a: Seq<char>| IgnoredArgView::Unknown(a)) + ignored_of(rest)));
    }
}

/// The first argument that decides is obeyed: `--config` names the configuration
/// that follows it, `-h` and `--help` ask for help. Where none decides, or
/// `--config` stands last, the configuration is at its own place. What stands
/// before is listed as not known, what stands behind does not matter.
pub proof fn law_first_argument_decides(
    before: Seq<Seq<char>>,
    path: Seq<char>,
    behind: Seq<Seq<char>>,
)
    requires
        forall|i: int| 0 <= i < before.len() ==> is_idle(#[trigger] before[i]),
    ensures
        ({
            let unknown = before.map_values(|a: Seq<char>| IgnoredArgView::Unknown(a));
            let own = InvocationView::Serve("/etc/nanodns/config"@);
            let named = before + (seq!["--config"@, path] + behind);
            let short = before + (seq!["-h"@] + behind);
            let long = before + (seq!["--help"@] + behind);
            let open = before + seq!["--config"@];
            &&& invocation_of(named) == InvocationView::Serve(path) && ignored_of(named) == unknown
            &&& invocation_of(short) == InvocationView::Help && ignored_of(short) == unknown
            &&& invocation_of(long) == InvocationView::Help && ignored_of(long) == unknown
            &&& invocation_of(before) == own && ignored_of(before) == unknown
            &&& invocation_of(open) == own
            &&& ignored_of(open) == unknown.push(IgnoredArgView::ConfigWithoutValue)
        }),
{
    reveal_strlit("--config");
    reveal_strlit("-h");
    reveal_strlit("--help");
    assert("-h"@.len() == 2 && "--config"@.len() == 8 && "--help"@.len() == 6);
    let unknown = before.map_values(|a: Seq<char>| IgnoredArgView::Unknown(a));
    let none: Seq<Seq<char>> = seq![];
    assert(unknown + Seq::<IgnoredArgView>::empty() =~= unknown);
    assert(before + none =~= before);
    lemma_idle(before, seq!["--config"@, path] + behind);
    lemma_idle(before, seq!["-h"@] + behind);
    lemma_idle(before, seq!["--help"@] + behind);
    lemma_idle(before, seq!["--config"@]);
    lemma_idle(before, none);
    assert((seq!["--config"@, path] + behind)[1] == path);
    assert(unknown + seq![IgnoredArgView::ConfigWithoutValue] =~= unknown.push(
        IgnoredArgView::ConfigWithoutValue,
    ));
}

/// The arguments that count for nothing, up to the one that decides.
pub fn ignored_args(args: &[String]) -> (r: Vec<IgnoredArg>)
    ensures
        r@.map_values(|a: IgnoredArg| a@) == ignored_of(args@.map_values(|s: String| s@)),
{
    let ghost all = args@.map_values(|s: String| s@);
    let mut out: Vec<IgnoredArg> = Vec::new();
    let mut i: usize = 0;
    proof {
        assert(all.skip(0) =~= all);
        assert(out@.map_values(|a: IgnoredArg| a@) + ignored_of(all) =~= ignored_of(all));
    }
    while i < args.len()
        invariant
            i <= args@.len(),
            all == args@.map_values(|s: String| s@),
            out@.map_values(|a: IgnoredArg| a@) + ignored_of(all.skip(i as int)) == ignored_of(all),
        decreases args@.len() - i,
    {
        let ghost rest = all.skip(i as int);
        let ghost before = out@.map_values(|a: IgnoredArg| a@);
        assert(rest[0] == args@[i as int]@);
        let arg = args[i].as_str();
        if text::same_string(arg, "--config") {
            if i + 1 == args.len() {
                out.push(IgnoredArg::ConfigWithoutValue);
            }
            assert(out@.map_values(|a: IgnoredArg| a@) =~= before + ignored_of(rest));
            return out;
        }
        if text::same_string(arg, "-h") || text::same_string(arg, "--help") {
            assert(out@.map_values(|a: IgnoredArg| a@) =~= before + ignored_of(rest));
            return out;
        }
        out.push(IgnoredArg::Unknown(args[i].clone()));
        proof {
            assert(rest.skip(1) =~= all.skip(i + 1));
            assert(out@.map_values(|a: IgnoredArg| a@) + ignored_of(all.skip(i + 1)) =~= before
                + ignored_of(rest));
        }
        i += 1;
    }
    assert(out@.map_values(|a: IgnoredArg| a@) + ignored_of(all.skip(i as int))
        =~= out@.map_values(|a: IgnoredArg| a@));
    out
}

} // verus!
