//! Asking the upstream servers, one after the other.
//!
//! The packet of the client is sent on as it is; the first reply counts. Sending
//! and waiting is left to the caller, who is told whom to ask next.

use vstd::prelude::*;

verus! {

/// Why there is no reply.
#[derive(Debug, Clone, Copy, PartialEq, Eq, Structural)]
pub enum ForwardError {
    /// No upstream server is configured.
    NoUpstream,
    /// No upstream server replied.
    AllFailed,
}

/// What is to be done next.
pub enum Attempt {
    /// Ask the upstream server at this position.
    Ask(usize),
    /// This is the reply.
    Reply(Vec<u8>),
    /// There is no reply.
    Fail(ForwardError),
}

/// What an [`Attempt`] holds.
pub enum AttemptView {
    Ask(nat),
    Reply(Seq<u8>),
    Fail(ForwardError),
}

impl View for Attempt {
    type V = AttemptView;

    open spec fn view(&self) -> AttemptView {
        match self {
            Attempt::Ask(i) => AttemptView::Ask(*i as nat),
            Attempt::Reply(b) => AttemptView::Reply(b@),
            Attempt::Fail(e) => AttemptView::Fail(*e),
        }
    }
}

/// What is to be done after `asked` of `servers` servers were asked, of which the
/// last gave `reply`.
pub open spec fn next_attempt(servers: nat, asked: nat, reply: Option<Seq<u8>>) -> AttemptView {
    match reply {
        Some(response) => AttemptView::Reply(response),
        None => if asked < servers {
            AttemptView::Ask(asked)
        } else if servers == 0 {
            AttemptView::Fail(ForwardError::NoUpstream)
        } else {
            AttemptView::Fail(ForwardError::AllFailed)
        },
    }
}

/// What is to be done next, after the first `asked` of the servers were asked.
/// `reply` is what the last of them replied, if it did.
pub fn forward(upstreams: &[String], asked: usize, reply: Option<Vec<u8>>) -> (r: Attempt)
    ensures
        r@ == next_attempt(
            upstreams@.len(),
            asked as nat,
            match reply {
                Some(b) => Some(b@),
                None => None,
            },
        ),
{
    match reply {
        Some(response) => Attempt::Reply(response),
        None => if asked < upstreams.len() {
            Attempt::Ask(asked)
        } else if upstreams.len() == 0 {
            Attempt::Fail(ForwardError::NoUpstream)
        } else {
            Attempt::Fail(ForwardError::AllFailed)
        },
    }
}

// ---------------------------------------------------------------------------
// What comes of asking
// ---------------------------------------------------------------------------

/// How asking ends, where `outcomes` says what each of the servers would reply,
/// after the first `asked` of them were asked and the last gave `reply`.
pub open spec fn run(
    outcomes: Seq<Option<Seq<u8>>>,
    asked: nat,
    reply: Option<Seq<u8>>,
) -> Result<Seq<u8>, ForwardError>
    decreases outcomes.len() - asked,
{
    match next_attempt(outcomes.len(), asked, reply) {
        AttemptView::Ask(i) => if asked < outcomes.len() {
            run(outcomes, asked + 1, outcomes[i as int])
        } else {
            Err(ForwardError::AllFailed)
        },
        AttemptView::Reply(response) => Ok(response),
        AttemptView::Fail(e) => Err(e),
    }
}

/// Asking the servers in turn gives the reply of the first that replies; it fails
/// exactly where none does.
pub proof fn law_first_reply_counts(outcomes: Seq<Option<Seq<u8>>>)
    ensures
        match run(outcomes, 0, None) {
            Ok(response) => exists|i: int|
                {
                    &&& 0 <= i < outcomes.len()
                    &&& #[trigger] outcomes[i] == Some(response)
                    &&& forall|j: int| 0 <= j < i ==> outcomes[j] is None
                },
            Err(e) => {
                &&& forall|j: int| 0 <= j < outcomes.len() ==> outcomes[j] is None
                &&& e == if outcomes.len() == 0 {
                    ForwardError::NoUpstream
                } else {
                    ForwardError::AllFailed
                }
            },
        },
{
    lemma_run(outcomes, 0);
}

/// The same from the middle: none of those asked so far replied.
proof fn lemma_run(outcomes: Seq<Option<Seq<u8>>>, asked: nat)
    requires
        asked <= outcomes.len(),
        forall|j: int| 0 <= j < asked ==> outcomes[j] is None,
    ensures
        match run(outcomes, asked, None) {
            Ok(response) => exists|i: int|
                {
                    &&& 0 <= i < outcomes.len()
                    &&& #[trigger] outcomes[i] == Some(response)
                    &&& forall|j: int| 0 <= j < i ==> outcomes[j] is None
                },
            Err(e) => {
                &&& forall|j: int| 0 <= j < outcomes.len() ==> outcomes[j] is None
                &&& e == if outcomes.len() == 0 {
                    ForwardError::NoUpstream
                } else {
                    ForwardError::AllFailed
                }
            },
        },
    decreases outcomes.len() - asked,
{
    if asked < outcomes.len() {
        match outcomes[asked as int] {
            Some(response) => {
                reveal_with_fuel(run, 2);
                assert(outcomes[asked as int] == Some(response));
            },
            None => {
                lemma_run(outcomes, asked + 1);
            },
        }
    }
}

} // verus!
