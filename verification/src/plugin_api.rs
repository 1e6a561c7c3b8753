//! What extensions contribute: context for the model, verdicts on tool calls, and events for
//! the session log.

use vstd::prelude::*;
use crate::protocol::ToolCall;
use crate::text;
use crate::text::opt;

verus! {

/// A piece of model-visible context contributed by an extension.
///
/// Ordering is explicit rather than registration-derived so a fragment's position in the
/// prompt is a property of the fragment, not an accident of which extension happened to
/// install first.
#[derive(Debug, PartialEq, Eq)]
pub struct ContextFragment {
    /// Stable name, used for logging and de-duplication.
    pub name: String,
    /// Ascending sort key. Convention: negative for harness identity, 0 for the deployment
    /// persona, 100 and up for tool guidance.
    pub order: i32,
    pub text: String,
}

impl ContextFragment {
    /// The fragment `name` that reads `text`.
    pub fn new(name: &str, order: i32, text: &str) -> (r: ContextFragment)
        ensures
            r.name@ == name@,
            r.order == order,
            r.text@ == text@,
    {
        ContextFragment { name: text::copy(name), order, text: text::copy(text) }
    }
}

/// Something the harness wants permission for.
#[derive(Debug, PartialEq, Eq)]
pub struct ApprovalRequest {
    /// The tool call needing approval.
    pub call: ToolCall,
    /// Why approval is required, shown to whoever decides.
    pub reason: String,
}

/// The answer to an [`ApprovalRequest`].
#[derive(Debug, PartialEq, Eq)]
pub enum ApprovalDecision {
    /// Allow this call, with what the person said while allowing it.
    Allow { note: Option<String> },
    /// Allow this and every future call matching the same shape, for the remainder of the
    /// session.
    AllowAlways,
    Deny { reason: String },
    /// Deny and abort the turn rather than letting the model try again.
    Abort { reason: String },
}

/// The first denial among the verdicts of some guards, in the order of registration.
pub open spec fn denial_among(verdicts: Seq<Option<String>>) -> Option<Seq<char>>
    decreases verdicts.len(),
{
    if verdicts.len() == 0 {
        None
    } else if verdicts[0] is Some {
        opt(verdicts[0])
    } else {
        denial_among(verdicts.drop_first())
    }
}

/// The first denial among the verdicts of the registered guards.
///
/// A guard can only deny, so no ordering of guards can turn a denial back into permission.
pub fn first_denial(verdicts: &Vec<Option<String>>) -> (r: Option<String>)
    ensures
        opt(r) == denial_among(verdicts@),
{
    let mut i: usize = 0;
    assert(verdicts@.skip(0) =~= verdicts@);
    while i < verdicts.len()
        invariant
            i <= verdicts.len(),
            denial_among(verdicts@) == denial_among(verdicts@.skip(i as int)),
        decreases verdicts.len() - i,
    {
        assert(verdicts@.skip(i as int)[0] == verdicts@[i as int]);
        assert(verdicts@.skip(i as int).drop_first() =~= verdicts@.skip(i as int + 1));
        if let Some(reason) = &verdicts[i] {
            return Some(reason.clone());
        }
        i += 1;
    }
    None
}

/// A call is denied where any guard denies it, whatever the others say and in whatever order
/// they are asked.
pub proof fn a_denial_is_final(verdicts: Seq<Option<String>>)
    ensures
        denial_among(verdicts) is Some <==> exists|i: int|
            0 <= i < verdicts.len() && #[trigger] verdicts[i] is Some,
    decreases verdicts.len(),
{
    if verdicts.len() > 0 {
        let rest = verdicts.drop_first();
        a_denial_is_final(rest);
        if verdicts[0] is None {
            if exists|i: int| 0 <= i < verdicts.len() && #[trigger] verdicts[i] is Some {
                let i = choose|i: int| 0 <= i < verdicts.len() && #[trigger] verdicts[i] is Some;
                assert(rest[i - 1] is Some);
            }
            if exists|i: int| 0 <= i < rest.len() && #[trigger] rest[i] is Some {
                let i = choose|i: int| 0 <= i < rest.len() && #[trigger] rest[i] is Some;
                assert(verdicts[i + 1] is Some);
            }
        }
    }
}

/// The session events that extensions have queued for the log.
#[derive(Debug, PartialEq, Eq)]
pub struct EventQueue<E> {
    events: Vec<E>,
}

impl<E> View for EventQueue<E> {
    type V = Seq<E>;

    closed spec fn view(&self) -> Seq<E> {
        self.events@
    }
}

impl<E> EventQueue<E> {
    /// A queue with nothing in it.
    pub fn new() -> (r: EventQueue<E>)
        ensures
            r@ == Seq::<E>::empty(),
    {
        EventQueue { events: Vec::new() }
    }

    /// Queues an event for the engine to append to the session log.
    pub fn record(&mut self, event: E)
        ensures
            final(self)@ == old(self)@.push(event),
    {
        self.events.push(event);
    }

    /// Takes everything recorded since the last drain, in the order it was recorded.
    pub fn drain_events(&mut self) -> (r: Vec<E>)
        ensures
            r@ == old(self)@,
            final(self)@ == Seq::<E>::empty(),
    {
        let mut taken: Vec<E> = Vec::new();
        taken.append(&mut self.events);
        assert(taken@ =~= old(self)@);
        taken
    }
}

/// The reason that is given is that of the first guard that denies.
pub proof fn the_first_denial_is_given(verdicts: Seq<Option<String>>)
    ensures
        denial_among(verdicts) matches Some(reason) ==> exists|i: int|
            {
                &&& 0 <= i < verdicts.len()
                &&& #[trigger] verdicts[i] is Some
                &&& verdicts[i]->0@ == reason
                &&& forall|j: int| 0 <= j < i ==> (#[trigger] verdicts[j]) is None
            },
    decreases verdicts.len(),
{
    if verdicts.len() > 0 && denial_among(verdicts) is Some {
        let reason = denial_among(verdicts)->0;
        if verdicts[0] is Some {
            assert(verdicts[0]->0@ == reason);
        } else {
            let rest = verdicts.drop_first();
            the_first_denial_is_given(rest);
            let i = choose|i: int|
                {
                    &&& 0 <= i < rest.len()
                    &&& #[trigger] rest[i] is Some
                    &&& rest[i]->0@ == reason
                    &&& forall|j: int| 0 <= j < i ==> (#[trigger] rest[j]) is None
                };
            assert(verdicts[i + 1] == rest[i]);
            assert forall|j: int| 0 <= j < i + 1 implies (#[trigger] verdicts[j]) is None by {
                if j > 0 {
                    assert(verdicts[j] == rest[j - 1]);
                }
            }
        }
    }
}

} // verus!
