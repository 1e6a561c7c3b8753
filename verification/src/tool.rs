//! The vocabulary that every tool shares.

use vstd::prelude::*;
use crate::protocol::{ContentBlock, Json};
use crate::text;

verus! {

/// Why a tool call failed.
#[derive(Debug, PartialEq, Eq)]
pub enum ToolError {
    /// The arguments did not decode.
    InvalidArgs { tool: String, message: String },
    /// The tool ran and failed, under a code of its own.
    Execution { code: String, message: String },
    /// The call was refused.
    Denied { message: String },
    /// The tool has no implementation.
    NotImplemented(String),
    /// The turn was aborted.
    Cancelled,
    /// The call overran its budget.
    Timeout { millis: u64 },
}

/// What a [`ToolError`] says.
pub enum ToolErrorView {
    InvalidArgs { tool: Seq<char>, message: Seq<char> },
    Execution { code: Seq<char>, message: Seq<char> },
    Denied { message: Seq<char> },
    NotImplemented(Seq<char>),
    Cancelled,
    Timeout { millis: u64 },
}

impl View for ToolError {
    type V = ToolErrorView;

    open spec fn view(&self) -> ToolErrorView {
        match self {
            ToolError::InvalidArgs { tool, message } => ToolErrorView::InvalidArgs {
                tool: tool@,
                message: message@,
            },
            ToolError::Execution { code, message } => ToolErrorView::Execution {
                code: code@,
                message: message@,
            },
            ToolError::Denied { message } => ToolErrorView::Denied { message: message@ },
            ToolError::NotImplemented(tool) => ToolErrorView::NotImplemented(tool@),
            ToolError::Cancelled => ToolErrorView::Cancelled,
            ToolError::Timeout { millis } => ToolErrorView::Timeout { millis: *millis },
        }
    }
}

impl ToolError {
    /// A failure under the tool's own code.
    pub fn custom(code: &str, message: String) -> (r: ToolError)
        ensures
            r@ == (ToolErrorView::Execution { code: code@, message: message@ }),
    {
        ToolError::Execution { code: text::copy(code), message }
    }

    /// A refusal.
    pub fn denied(message: String) -> (r: ToolError)
        ensures
            r@ == (ToolErrorView::Denied { message: message@ }),
    {
        ToolError::Denied { message }
    }
}

/// A tool's stable identifier as advertised to the model.
#[derive(Debug, PartialEq, Eq, Hash, PartialOrd, Ord)]
pub struct ToolId(String);

impl View for ToolId {
    type V = Seq<char>;

    closed spec fn view(&self) -> Seq<char> {
        self.0@
    }
}

impl Clone for ToolId {
    fn clone(&self) -> (r: Self)
        ensures
            r@ == self@,
    {
        ToolId(self.0.clone())
    }
}

impl ToolId {
    /// The identifier spelled `id`.
    pub fn new(id: &str) -> (r: ToolId)
        ensures
            r@ == id@,
    {
        ToolId(text::copy(id))
    }

    /// How the identifier is spelled.
    pub fn as_str(&self) -> (r: &str)
        ensures
            r@ == self@,
    {
        self.0.as_str()
    }
}

/// What a tool does, coarsely.
///
/// The engine uses this for approval policy and for concurrency grouping, so it must reflect
/// real effects rather than a tool's self-image.
#[derive(Clone, Copy, Debug, PartialEq, Eq, Hash, Structural)]
pub enum ToolKind {
    Read,
    Search,
    Edit,
    Execute,
    Network,
    /// Affects only harness state, e.g. a todo list.
    Meta,
}

/// Whether a kind leaves everything outside the harness unchanged.
pub open spec fn read_only(kind: ToolKind) -> bool {
    kind == ToolKind::Read || kind == ToolKind::Search || kind == ToolKind::Meta
}

impl ToolKind {
    /// Whether this kind leaves everything outside the harness unchanged.
    pub fn is_read_only(self) -> (r: bool)
        ensures
            r == read_only(self),
    {
        matches!(self, ToolKind::Read | ToolKind::Search | ToolKind::Meta)
    }
}

/// Static facts about a tool, read before it runs.
#[derive(Clone, Copy, Debug, PartialEq, Eq, Structural)]
pub struct ToolCapabilities {
    pub kind: ToolKind,
    /// Whether this call may run in parallel with other tool calls in the same step.
    /// Defaults to whether the kind is read-only, which is the safe answer.
    pub concurrency_safe: bool,
    /// The tool's execution budget. Never sent to the model.
    pub timeout_millis: Option<u64>,
}

impl Default for ToolCapabilities {
    fn default() -> (r: ToolCapabilities)
        ensures
            r == (ToolCapabilities {
                kind: ToolKind::Meta,
                concurrency_safe: true,
                timeout_millis: None,
            }),
    {
        ToolCapabilities { kind: ToolKind::Meta, concurrency_safe: true, timeout_millis: None }
    }
}

impl ToolCapabilities {
    /// The capabilities that a kind has of itself.
    pub fn of_kind(kind: ToolKind) -> (r: ToolCapabilities)
        ensures
            r == (ToolCapabilities {
                kind,
                concurrency_safe: read_only(kind),
                timeout_millis: None,
            }),
    {
        ToolCapabilities { kind, concurrency_safe: kind.is_read_only(), timeout_millis: None }
    }
}

/// The model-facing description of a tool.
#[derive(Debug, PartialEq, Eq)]
pub struct ToolDescription {
    /// Prose shown to the model alongside the schema.
    pub text: String,
}

impl ToolDescription {
    /// A description that reads `text`.
    pub fn new(text: &str) -> (r: ToolDescription)
        ensures
            r.text@ == text@,
    {
        ToolDescription { text: text::copy(text) }
    }
}

/// What a tool may consult when deciding whether and how to advertise itself.
#[derive(Debug, PartialEq, Eq)]
pub struct ListToolsContext {
    /// Every tool id being advertised this turn, including this one.
    pub siblings: Vec<ToolId>,
    /// Free-form facts contributed by extensions, e.g. the active model family.
    pub attributes: Vec<(String, String)>,
}

impl ListToolsContext {
    /// Whether a sibling tool is present this turn.
    pub fn has(&self, id: &str) -> (r: bool)
        ensures
            r == exists|i: int| 0 <= i < self.siblings.len() && (#[trigger] self.siblings@[i])@ == id@,
    {
        let mut i: usize = 0;
        while i < self.siblings.len()
            invariant
                i <= self.siblings.len(),
                forall|k: int| 0 <= k < i ==> (#[trigger] self.siblings@[k])@ != id@,
            decreases self.siblings.len() - i,
        {
            if text::eq(self.siblings[i].as_str(), id) {
                return true;
            }
            i += 1;
        }
        false
    }
}

/// A progress notice.
#[derive(Debug, PartialEq, Eq)]
pub struct ToolProgress {
    /// A short human-readable line, e.g. `"read 120 of 4000 lines"`.
    pub message: String,
    /// The bits of the completed fraction, a 32-bit float, when the tool can estimate it.
    pub fraction: Option<u32>,
}

impl ToolProgress {
    /// A notice without an estimate.
    pub fn message(message: &str) -> (r: ToolProgress)
        ensures
            r.message@ == message@,
            r.fraction is None,
    {
        ToolProgress { message: text::copy(message), fraction: None }
    }
}

/// One item in a tool's execution stream.
#[derive(Debug)]
pub enum ToolEvent<T> {
    /// An interim notice for surfaces. Never reaches the model.
    Progress(ToolProgress),
    /// The single, final outcome.
    Terminal(Result<T, ToolError>),
}

/// The last outcome among some events.
pub open spec fn last_outcome<T>(events: Seq<ToolEvent<T>>) -> Option<Result<T, ToolError>>
    decreases events.len(),
{
    if events.len() == 0 {
        None
    } else {
        match events.last() {
            ToolEvent::Terminal(result) => Some(result),
            ToolEvent::Progress(_) => last_outcome(events.drop_last()),
        }
    }
}

/// The failure of a stream that ended without an outcome.
pub open spec fn no_terminal() -> ToolErrorView {
    ToolErrorView::Execution {
        code: "tool_stream_no_terminal"@,
        message: "tool stream ended without a terminal item"@,
    }
}

/// The outcome of a finished stream of events, its progress discarded.
///
/// A stream that ends without a terminal is a producer bug, reported as
/// `tool_stream_no_terminal` rather than silently succeeding.
pub fn outcome_of<T>(events: Vec<ToolEvent<T>>) -> (r: Result<T, ToolError>)
    ensures
        match last_outcome(events@) {
            Some(result) => r == result,
            None => r is Err && r->Err_0@ == no_terminal(),
        },
{
    let mut left = events;
    while left.len() > 0
        invariant
            last_outcome(left@) == last_outcome(events@),
        decreases left.len(),
    {
        match left.pop() {
            Some(ToolEvent::Terminal(result)) => {
                return result;
            },
            _ => {},
        }
    }
    Err(
        ToolError::custom(
            "tool_stream_no_terminal",
            text::copy("tool stream ended without a terminal item"),
        ),
    )
}

/// A tool's execution stream: any number of progress notices and then one outcome.
#[derive(Debug)]
pub struct ToolStream<T> {
    events: Vec<ToolEvent<T>>,
}

impl<T> View for ToolStream<T> {
    type V = Seq<ToolEvent<T>>;

    closed spec fn view(&self) -> Seq<ToolEvent<T>> {
        self.events@
    }
}

/// Whether some events are progress notices and then one outcome.
pub open spec fn well_formed<T>(events: Seq<ToolEvent<T>>) -> bool {
    &&& events.len() > 0
    &&& events.last() is Terminal
    &&& forall|i: int| 0 <= i < events.len() - 1 ==> #[trigger] events[i] is Progress
}

impl<T> ToolStream<T> {
    #[verifier::type_invariant]
    closed spec fn ends_once(self) -> bool {
        well_formed(self.events@)
    }

    /// A stream with no progress: just the outcome.
    pub fn terminal_only(result: Result<T, ToolError>) -> (r: ToolStream<T>)
        ensures
            r@ == seq![ToolEvent::Terminal(result)],
    {
        let mut events: Vec<ToolEvent<T>> = Vec::new();
        events.push(ToolEvent::Terminal(result));
        assert(events@ =~= seq![ToolEvent::Terminal(result)]);
        ToolStream { events }
    }

    /// A stream of progress notices followed by the outcome.
    ///
    /// The terminal item is appended here rather than taken from `progress`, so a caller
    /// cannot build a stream with two terminals or none.
    pub fn with_progress(progress: Vec<ToolProgress>, result: Result<T, ToolError>) -> (r:
        ToolStream<T>)
        ensures
            r@ == progress@.map_values(|p: ToolProgress| ToolEvent::<T>::Progress(p)).push(
                ToolEvent::Terminal(result),
            ),
    {
        let ghost notices = progress@;
        let mut events: Vec<ToolEvent<T>> = Vec::new();
        for notice in it: progress
            invariant
                it.seq() == notices,
                events.len() == it.index(),
                forall|k: int|
                    0 <= k < events.len() ==> #[trigger] events@[k] == ToolEvent::<T>::Progress(
                        notices[k],
                    ),
        {
            events.push(ToolEvent::Progress(notice));
        }
        assert(events@ =~= notices.map_values(|p: ToolProgress| ToolEvent::<T>::Progress(p)));
        events.push(ToolEvent::Terminal(result));
        ToolStream { events }
    }

    /// The events, in order.
    pub fn into_events(self) -> (r: Vec<ToolEvent<T>>)
        ensures
            r@ == self@,
            well_formed(r@),
    {
        proof {
            use_type_invariant(&self);
        }
        self.events
    }

    /// The outcome, progress discarded.
    pub fn into_terminal(self) -> (r: Result<T, ToolError>)
        ensures
            self@.last() == ToolEvent::Terminal(r),
    {
        proof {
            use_type_invariant(&self);
        }
        outcome_of(self.events)
    }
}

/// What a call through the common interface came to, one step after the other.
#[derive(Debug, PartialEq, Eq)]
pub enum Served {
    /// The arguments did not decode.
    NotDecoded(String),
    /// The tool failed.
    Failed(ToolError),
    /// The outcome did not encode.
    NotEncoded(String),
    /// The outcome, as a value and as what the model sees.
    Done { value: Json, model_output: Vec<ContentBlock> },
}

/// What a tool call produced, whatever the tool.
#[derive(Debug, PartialEq, Eq)]
pub struct TypedToolOutput {
    pub tool_id: ToolId,
    /// The outcome, for replay and for surfaces.
    pub value: Json,
    /// What the model sees of it.
    pub model_output: Vec<ContentBlock>,
}

/// What a call of a tool through the common interface answers.
pub fn call_outcome(tool: &ToolId, served: Served) -> (r: Result<TypedToolOutput, ToolError>)
    ensures
        match served {
            Served::NotDecoded(message) => r is Err && r->Err_0@ == (ToolErrorView::InvalidArgs {
                tool: tool@,
                message: message@,
            }),
            Served::Failed(error) => r == Err::<TypedToolOutput, ToolError>(error),
            Served::NotEncoded(message) => r is Err && r->Err_0@ == (ToolErrorView::Execution {
                code: "tool_output_not_serializable"@,
                message: message@,
            }),
            Served::Done { value, model_output } => r is Ok && r->Ok_0.tool_id@ == tool@
                && r->Ok_0.value == value && r->Ok_0.model_output == model_output,
        },
{
    match served {
        Served::NotDecoded(message) => Err(
            ToolError::InvalidArgs { tool: text::copy(tool.as_str()), message },
        ),
        Served::Failed(error) => Err(error),
        Served::NotEncoded(message) => Err(
            ToolError::custom("tool_output_not_serializable", message),
        ),
        Served::Done { value, model_output } => Ok(
            TypedToolOutput { tool_id: tool.clone(), value, model_output },
        ),
    }
}

// Laws.

/// The outcome of a stream is that of its last outcome, whatever progress was told before or behind
/// it; a stream of progress alone has none.
pub proof fn the_last_outcome_counts<T>(events: Seq<ToolEvent<T>>)
    ensures
        match last_outcome(events) {
            Some(result) => exists|i: int|
                {
                    &&& 0 <= i < events.len()
                    &&& #[trigger] events[i] == ToolEvent::Terminal(result)
                    &&& forall|j: int| i < j < events.len() ==> (#[trigger] events[j]) is Progress
                },
            None => forall|j: int| 0 <= j < events.len() ==> (#[trigger] events[j]) is Progress,
        },
    decreases events.len(),
{
    if events.len() > 0 {
        let init = events.drop_last();
        let n = events.len() - 1;
        if events[n] is Terminal {
            assert(events[n] == ToolEvent::Terminal(last_outcome(events)->0));
        } else {
            the_last_outcome_counts(init);
            if last_outcome(init) is Some {
                let result = last_outcome(init)->0;
                let i = choose|i: int|
                    {
                        &&& 0 <= i < init.len()
                        &&& #[trigger] init[i] == ToolEvent::Terminal(result)
                        &&& forall|j: int| i < j < init.len() ==> (#[trigger] init[j]) is Progress
                    };
                assert(events[i] == init[i]);
                assert forall|j: int| i < j < events.len() implies (
                #[trigger] events[j]) is Progress by {
                    if j < n {
                        assert(events[j] == init[j]);
                    }
                }
            } else {
                assert forall|j: int| 0 <= j < events.len() implies (
                #[trigger] events[j]) is Progress by {
                    if j < n {
                        assert(events[j] == init[j]);
                    }
                }
            }
        }
    }
}

/// Only what reads, searches or stays within the harness leaves everything else unchanged.
pub proof fn what_acts_is_not_read_only(kind: ToolKind)
    ensures
        kind == ToolKind::Edit || kind == ToolKind::Execute || kind == ToolKind::Network
            ==> !read_only(kind),
        kind == ToolKind::Read || kind == ToolKind::Search || kind == ToolKind::Meta ==> read_only(
            kind,
        ),
{
}

} // verus!
