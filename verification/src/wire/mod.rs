//! Translating a conversation to the wire formats of inference providers, and their replies
//! back.
//!
//! What the formats share is the part an engine depends on: a successful stream ends with
//! exactly one `Done`, and failures are classified by what the caller should do next, not by
//! which vendor produced them. Anything a format cannot express is dropped rather than
//! approximated.

pub mod chat_completions;
pub mod client;
pub mod http;
pub mod messages;

use vstd::prelude::*;
use std::collections::BTreeMap;
use crate::protocol::{
    block_view, block_views, json_view, json_views, lemma_block_views, lemma_json_views,
    lemma_member_views, member_views, message_views, BlockView, ContentBlock, Json, JsonView,
    Message, MessageView, ReasoningEffort, StopReason, StopView, Usage,
};
use crate::provider::{bare_model, ModelInfo, ModelView};
use crate::text;
use crate::text::{hex_digit, opt, trimmed};

verus! {

/// A tool as it is advertised to the model.
#[derive(Debug, PartialEq, Eq)]
pub struct ToolSpec {
    pub name: String,
    pub description: String,
    pub input_schema: Json,
}

/// What a [`ToolSpec`] says.
pub struct ToolSpecView {
    pub name: Seq<char>,
    pub description: Seq<char>,
    pub input_schema: JsonView,
}

impl View for ToolSpec {
    type V = ToolSpecView;

    open spec fn view(&self) -> ToolSpecView {
        ToolSpecView {
            name: self.name@,
            description: self.description@,
            input_schema: self.input_schema@,
        }
    }
}

/// What some tools say.
pub open spec fn tool_views(tools: Seq<ToolSpec>) -> Seq<ToolSpecView> {
    tools.map_values(|t: ToolSpec| t@)
}

/// What a model is asked.
#[derive(Debug, PartialEq, Eq)]
pub struct ModelRequest {
    pub model: String,
    pub system: Option<String>,
    pub messages: Vec<Message>,
    pub tools: Vec<ToolSpec>,
    pub max_output_tokens: Option<u32>,
    /// The sampling temperature, as its JSON numeral.
    pub temperature: Option<String>,
    pub reasoning_effort: Option<ReasoningEffort>,
}

/// What a [`ModelRequest`] says.
pub struct RequestView {
    pub model: Seq<char>,
    pub system: Option<Seq<char>>,
    pub messages: Seq<MessageView>,
    pub tools: Seq<ToolSpecView>,
    pub max_output_tokens: Option<u32>,
    pub temperature: Option<Seq<char>>,
    pub reasoning_effort: Option<ReasoningEffort>,
}

impl View for ModelRequest {
    type V = RequestView;

    open spec fn view(&self) -> RequestView {
        RequestView {
            model: self.model@,
            system: opt(self.system),
            messages: message_views(self.messages@),
            tools: tool_views(self.tools@),
            max_output_tokens: self.max_output_tokens,
            temperature: opt(self.temperature),
            reasoning_effort: self.reasoning_effort,
        }
    }
}

/// One piece of a reply.
#[derive(Debug, PartialEq, Eq)]
pub enum StreamChunk {
    TextDelta(String),
    ThinkingDelta(String),
    ThinkingSignature(String),
    ToolCallStart { id: String, name: String },
    ToolCallArgsDelta { id: String, delta: String },
    ToolCallEnd { id: String },
    Usage(Usage),
    Done(StopReason),
}

/// What a [`StreamChunk`] says.
pub enum ChunkView {
    TextDelta(Seq<char>),
    ThinkingDelta(Seq<char>),
    ThinkingSignature(Seq<char>),
    ToolCallStart { id: Seq<char>, name: Seq<char> },
    ToolCallArgsDelta { id: Seq<char>, delta: Seq<char> },
    ToolCallEnd { id: Seq<char> },
    Usage(Usage),
    Done(StopView),
}

impl View for StreamChunk {
    type V = ChunkView;

    open spec fn view(&self) -> ChunkView {
        match self {
            StreamChunk::TextDelta(t) => ChunkView::TextDelta(t@),
            StreamChunk::ThinkingDelta(t) => ChunkView::ThinkingDelta(t@),
            StreamChunk::ThinkingSignature(t) => ChunkView::ThinkingSignature(t@),
            StreamChunk::ToolCallStart { id, name } => ChunkView::ToolCallStart {
                id: id@,
                name: name@,
            },
            StreamChunk::ToolCallArgsDelta { id, delta } => ChunkView::ToolCallArgsDelta {
                id: id@,
                delta: delta@,
            },
            StreamChunk::ToolCallEnd { id } => ChunkView::ToolCallEnd { id: id@ },
            StreamChunk::Usage(usage) => ChunkView::Usage(*usage),
            StreamChunk::Done(reason) => ChunkView::Done(reason@),
        }
    }
}

/// Why a call to a provider failed, by what the caller should do next.
#[derive(Debug, PartialEq, Eq)]
pub enum ProviderError {
    /// The credential was rejected; a refresh may help.
    Unauthorized(String),
    /// The account may not make this call; no refresh helps.
    NotEntitled(String),
    UnknownModel(String),
    RateLimited { retry_after_millis: Option<u64> },
    InvalidRequest(String),
    /// The same call may succeed later.
    Transient(String),
    /// The reply made no sense.
    Protocol(String),
}

/// What a [`ProviderError`] says.
pub enum ProviderErrorView {
    Unauthorized(Seq<char>),
    NotEntitled(Seq<char>),
    UnknownModel(Seq<char>),
    RateLimited { retry_after_millis: Option<u64> },
    InvalidRequest(Seq<char>),
    Transient(Seq<char>),
    Protocol(Seq<char>),
}

impl View for ProviderError {
    type V = ProviderErrorView;

    open spec fn view(&self) -> ProviderErrorView {
        match self {
            ProviderError::Unauthorized(t) => ProviderErrorView::Unauthorized(t@),
            ProviderError::NotEntitled(t) => ProviderErrorView::NotEntitled(t@),
            ProviderError::UnknownModel(t) => ProviderErrorView::UnknownModel(t@),
            ProviderError::RateLimited { retry_after_millis } => ProviderErrorView::RateLimited {
                retry_after_millis: *retry_after_millis,
            },
            ProviderError::InvalidRequest(t) => ProviderErrorView::InvalidRequest(t@),
            ProviderError::Transient(t) => ProviderErrorView::Transient(t@),
            ProviderError::Protocol(t) => ProviderErrorView::Protocol(t@),
        }
    }
}

impl ProviderError {
    /// Whether a refreshed credential is worth one more try.
    pub fn needs_reauth(&self) -> (r: bool)
        ensures
            r == (self@ is Unauthorized),
    {
        matches!(self, ProviderError::Unauthorized(_))
    }

    /// Whether the same call is worth repeating after a pause.
    pub fn is_retryable(&self) -> (r: bool)
        ensures
            r == (self@ is RateLimited || self@ is Transient),
    {
        matches!(self, ProviderError::RateLimited { .. } | ProviderError::Transient(_))
    }
}

/// One item of a reply stream: a chunk, or the failure that ends it.
pub type StreamItem = Result<StreamChunk, ProviderError>;

/// What a stream item says.
pub open spec fn item_view(item: StreamItem) -> Result<ChunkView, ProviderErrorView> {
    match item {
        Ok(chunk) => Ok(chunk@),
        Err(error) => Err(error@),
    }
}

/// What some stream items say.
pub open spec fn item_views(items: Seq<StreamItem>) -> Seq<Result<ChunkView, ProviderErrorView>> {
    items.map_values(|i: StreamItem| item_view(i))
}

/// Where a decoder puts what it read. Once the stream is complete, nothing is added.
#[derive(Debug, PartialEq, Eq)]
pub struct Sink {
    items: Vec<StreamItem>,
    complete: bool,
}

/// What a [`Sink`] holds.
pub struct SinkView {
    pub items: Seq<Result<ChunkView, ProviderErrorView>>,
    pub complete: bool,
}

impl View for Sink {
    type V = SinkView;

    closed spec fn view(&self) -> SinkView {
        SinkView { items: item_views(self.items@), complete: self.complete }
    }
}

/// Whether an item ends a stream.
pub open spec fn is_terminal(item: Result<ChunkView, ProviderErrorView>) -> bool {
    match item {
        Ok(chunk) => chunk is Done,
        Err(_) => true,
    }
}

impl SinkView {
    /// A stream of which nothing has been read.
    pub open spec fn start() -> SinkView {
        SinkView { items: Seq::empty(), complete: false }
    }

    /// Whether a stream has at most one terminal item, as its last, and has it just where it
    /// is complete.
    pub open spec fn valid(self) -> bool {
        &&& forall|i: int|
            0 <= i < self.items.len() && is_terminal(#[trigger] self.items[i]) ==> i
                == self.items.len() - 1 && self.complete
        &&& self.complete ==> self.items.len() > 0 && is_terminal(self.items.last())
    }

    /// With one more chunk.
    pub open spec fn pushed(self, chunk: ChunkView) -> SinkView {
        if self.complete {
            self
        } else {
            SinkView {
                items: self.items.push(Ok(chunk)),
                complete: chunk is Done,
            }
        }
    }

    /// Ended by a failure.
    pub open spec fn aborted(self, error: ProviderErrorView) -> SinkView {
        if self.complete {
            self
        } else {
            SinkView { items: self.items.push(Err(error)), complete: true }
        }
    }

    /// Ended by a reply that made no sense.
    pub open spec fn failed(self, message: Seq<char>) -> SinkView {
        self.aborted(ProviderErrorView::Protocol(message))
    }
}

impl Sink {
    /// A stream of which nothing has been read.
    pub fn new() -> (r: Sink)
        ensures
            r@ == SinkView::start(),
            r@.valid(),
    {
        let r = Sink { items: Vec::new(), complete: false };
        assert(r@.items =~= Seq::empty());
        r
    }

    /// Whether the stream has ended.
    pub fn is_complete(&self) -> (r: bool)
        ensures
            r == self@.complete,
    {
        self.complete
    }

    /// Everything that was read, in order.
    pub fn into_items(self) -> (r: Vec<StreamItem>)
        ensures
            item_views(r@) == self@.items,
    {
        self.items
    }

    /// Takes what was read since the last time, in order.
    pub fn take_items(&mut self) -> (r: Vec<StreamItem>)
        ensures
            item_views(r@) == old(self)@.items,
            final(self)@ == (SinkView { items: Seq::empty(), ..old(self)@ }),
    {
        let mut taken: Vec<StreamItem> = Vec::new();
        taken.append(&mut self.items);
        assert(taken@ =~= old(self).items@);
        assert(self@.items =~= Seq::empty());
        taken
    }

    /// Adds a chunk.
    pub fn push(&mut self, chunk: StreamChunk)
        ensures
            final(self)@ == old(self)@.pushed(chunk@),
            old(self)@.valid() ==> final(self)@.valid(),
    {
        if !self.complete {
            let done = matches!(chunk, StreamChunk::Done(_));
            self.items.push(Ok(chunk));
            self.complete = done;
            assert(self@.items =~= old(self)@.items.push(Ok(chunk@)));
        }
    }

    /// Ends the stream with a failure.
    pub fn abort(&mut self, error: ProviderError)
        ensures
            final(self)@ == old(self)@.aborted(error@),
            old(self)@.valid() ==> final(self)@.valid(),
    {
        if !self.complete {
            self.items.push(Err(error));
            self.complete = true;
            assert(self@.items =~= old(self)@.items.push(Err(error@)));
        }
    }

    /// Ends the stream because the reply made no sense.
    pub fn fail(&mut self, message: String)
        ensures
            final(self)@ == old(self)@.failed(message@),
            old(self)@.valid() ==> final(self)@.valid(),
    {
        self.abort(ProviderError::Protocol(message));
    }

    /// Ends the stream because the transport stopped before the reply did: the call may be
    /// repeated.
    pub fn truncated(&mut self, message: &str)
        ensures
            final(self)@ == old(self)@.aborted(ProviderErrorView::Transient(message@)),
            old(self)@.valid() ==> final(self)@.valid(),
    {
        self.abort(ProviderError::Transient(text::copy(message)));
    }

    /// Ends the stream with the reply.
    pub fn finish(&mut self, reason: StopReason)
        ensures
            final(self)@ == old(self)@.pushed(ChunkView::Done(reason@)),
            old(self)@.valid() ==> final(self)@.valid(),
    {
        self.push(StreamChunk::Done(reason));
    }
}

// JSON text.

/// Why a text is no JSON value, where it is none.
pub uninterp spec fn json_fault(s: Seq<char>) -> Option<Seq<char>>;

/// `serde_json::from_str` into a value, and the message of its error. Which texts are JSON,
/// and what the message says, is the crate's; it is a function of the text.
#[verifier::external_body]
pub(crate) fn json_error(s: &str) -> (r: Option<String>)
    ensures
        opt(r) == json_fault(s@),
{
    serde_json::from_str::<serde_json::Value>(s).err().map(|error| error.to_string())
}

/// How the JSON value that a text spells is spelled anew, where it spells one.
pub uninterp spec fn respelled(s: Seq<char>) -> Option<Seq<char>>;

/// `serde_json::from_str` into a value, and that value's `to_string`. How it is spelled anew, with
/// a key that is repeated or a number that does not fit, is the crate's; it is a function of the
/// text.
#[verifier::external_body]
pub(crate) fn json_respelled(s: &str) -> (r: Option<String>)
    ensures
        opt(r) == respelled(s@),
{
    serde_json::from_str::<serde_json::Value>(s).ok().map(|value| value.to_string())
}

/// How a character reads within a JSON string: a quote, a backslash and a control character are
/// escaped, the latter by its letter where it has one and by its number where it has none.
pub open spec fn escaped(c: char) -> Seq<char> {
    if c == '"' || c == '\\' {
        seq!['\\', c]
    } else if c == '\u{8}' {
        seq!['\\', 'b']
    } else if c == '\t' {
        seq!['\\', 't']
    } else if c == '\n' {
        seq!['\\', 'n']
    } else if c == '\u{c}' {
        seq!['\\', 'f']
    } else if c == '\r' {
        seq!['\\', 'r']
    } else if ' ' <= c {
        seq![c]
    } else {
        seq!['\\', 'u', '0', '0', hex_digit(c as int / 16), hex_digit(c as int % 16)]
    }
}

/// The JSON string that spells a text.
pub open spec fn quoted(s: Seq<char>) -> Seq<char> {
    seq!['"'] + s.map_values(|c: char| escaped(c)).flatten() + seq!['"']
}

/// `serde_json::Value::to_string` of a string: the text in quotes, with what JSON escapes
/// escaped.
#[verifier::external_body]
pub(crate) fn json_string(s: &str) -> (r: String)
    ensures
        r@ == quoted(s@),
{
    serde_json::Value::String(s.to_string()).to_string()
}

/// A value in its compact JSON spelling.
pub open spec fn spelled(value: JsonView) -> Seq<char>
    decreases value,
{
    match value {
        JsonView::Null => "null"@,
        JsonView::Bool(b) => if b {
            "true"@
        } else {
            "false"@
        },
        JsonView::Number(n) => n,
        JsonView::Text(t) => quoted(t),
        JsonView::Raw(t) => t,
        JsonView::Array(items) => "["@ + spelled_items(items) + "]"@,
        JsonView::Object(members) => "{"@ + spelled_members(members) + "}"@,
    }
}

/// The items of an array, with commas between them.
pub open spec fn spelled_items(items: Seq<JsonView>) -> Seq<char>
    decreases items,
{
    if items.len() == 0 {
        Seq::empty()
    } else if items.len() == 1 {
        spelled(items[0])
    } else {
        spelled_items(items.drop_last()) + ","@ + spelled(items.last())
    }
}

/// The members of an object, with commas between them.
pub open spec fn spelled_members(members: Seq<(Seq<char>, JsonView)>) -> Seq<char>
    decreases members,
{
    if members.len() == 0 {
        Seq::empty()
    } else if members.len() == 1 {
        quoted(members[0].0) + ":"@ + spelled(members[0].1)
    } else {
        spelled_members(members.drop_last()) + ","@ + (quoted(members.last().0) + ":"@ + spelled(
            members.last().1,
        ))
    }
}

/// A value in its compact JSON spelling.
pub fn spell(value: &Json) -> (r: String)
    ensures
        r@ == spelled(value@),
    decreases value,
{
    match value {
        Json::Null => text::copy("null"),
        Json::Bool(b) => if *b {
            text::copy("true")
        } else {
            text::copy("false")
        },
        Json::Number(n) => n.clone(),
        Json::Text(t) => json_string(t.as_str()),
        Json::Raw(t) => t.clone(),
        Json::Array(items) => {
            let ghost views = json_views(items@);
            let mut inner = String::new();
            let mut i: usize = 0;
            proof {
                lemma_json_views(items@);
                assert(views.take(0) =~= Seq::empty());
                assert(inner@ =~= Seq::<char>::empty());
            }
            while i < items.len()
                invariant
                    i <= items.len(),
                    value == Json::Array(*items),
                    views.len() == items.len(),
                    forall|k: int|
                        0 <= k < items.len() ==> #[trigger] views[k] == json_view(items@[k]),
                    inner@ == spelled_items(views.take(i as int)),
                decreases items.len() - i,
            {
                proof {
                    assert(decreases_to!(*value => value->Array_0));
                    assert(decreases_to!(*items => items@));
                    assert(decreases_to!(items@ => items@[i as int]));
                    assert(views.take(i as int + 1).drop_last() =~= views.take(i as int));
                }
                let item = spell(&items[i]);
                if i > 0 {
                    inner.append(",");
                    inner.append(item.as_str());
                } else {
                    inner = item;
                }
                i += 1;
            }
            assert(views.take(i as int) =~= views);
            text::concat3("[", inner.as_str(), "]")
        },
        Json::Object(members) => {
            let ghost views = member_views(members@);
            let mut inner = String::new();
            let mut i: usize = 0;
            proof {
                lemma_member_views(members@);
                assert(views.take(0) =~= Seq::empty());
                assert(inner@ =~= Seq::<char>::empty());
            }
            while i < members.len()
                invariant
                    i <= members.len(),
                    value == Json::Object(*members),
                    views.len() == members.len(),
                    forall|k: int|
                        0 <= k < members.len() ==> #[trigger] views[k] == (
                            members@[k].0@,
                            json_view(members@[k].1),
                        ),
                    inner@ == spelled_members(views.take(i as int)),
                decreases members.len() - i,
            {
                proof {
                    assert(decreases_to!(*value => value->Object_0));
                    assert(decreases_to!(*members => members@));
                    assert(decreases_to!(members@ => members@[i as int]));
                    assert(decreases_to!(members@[i as int] => members@[i as int].1));
                    assert(views.take(i as int + 1).drop_last() =~= views.take(i as int));
                    assert(views[i as int] == (
                        members@[i as int].0@,
                        json_view(members@[i as int].1),
                    ));
                }
                let key = json_string(members[i].0.as_str());
                let held = spell(&members[i].1);
                let member = text::concat3(key.as_str(), ":", held.as_str());
                if i > 0 {
                    inner.append(",");
                    inner.append(member.as_str());
                } else {
                    inner = member;
                }
                i += 1;
            }
            assert(views.take(i as int) =~= views);
            text::concat3("{", inner.as_str(), "}")
        },
    }
}

/// Tool call arguments as the JSON string that some wires want: a text as it is, any other
/// value in its spelling.
pub open spec fn argument_text(arguments: JsonView) -> Seq<char> {
    match arguments {
        JsonView::Text(t) => t,
        _ => spelled(arguments),
    }
}

/// Tool call arguments travel as a JSON *string* on some wires, so a structured value has to be
/// re-encoded rather than embedded.
pub fn arguments_string(arguments: &Json) -> (r: String)
    ensures
        r@ == argument_text(arguments@),
{
    match arguments {
        Json::Text(t) => t.clone(),
        _ => spell(arguments),
    }
}

/// Tool call arguments as the value that some wires want: what a text spells, where it is JSON.
pub open spec fn argument_value(arguments: JsonView) -> JsonView {
    match arguments {
        JsonView::Text(t) => match respelled(t) {
            Some(spelling) => JsonView::Raw(spelling),
            None => arguments,
        },
        _ => arguments,
    }
}

/// The opposite: a value that arrived as a JSON string is taken for what it spells. A string
/// that is not JSON is passed through as itself, since dropping it would lose the call's only
/// arguments.
pub fn arguments_value(arguments: &Json) -> (r: Json)
    ensures
        r@ == argument_value(arguments@),
{
    match arguments {
        Json::Text(t) => match json_respelled(t.as_str()) {
            Some(spelling) => Json::Raw(spelling),
            None => Json::Text(t.clone()),
        },
        _ => arguments.copy(),
    }
}

/// Why accumulated arguments do not parse, where they do not. Empty arguments are legitimate.
pub open spec fn arguments_fault(arguments: Seq<char>) -> Option<Seq<char>> {
    let body = trimmed(arguments);
    if body.len() == 0 {
        None
    } else {
        json_fault(body)
    }
}

/// The end of a call promises parseable arguments, so accumulated fragments are checked before
/// it is emitted rather than left for the dispatcher to trip over.
pub fn check_arguments(arguments: &str) -> (r: Option<String>)
    ensures
        opt(r) == arguments_fault(arguments@),
{
    let body = text::trim(arguments);
    if body.as_str().unicode_len() == 0 {
        return None;
    }
    json_error(body.as_str())
}

/// What a tool result shows the model.
pub open spec fn result_text_of(content: Seq<BlockView>) -> Seq<char>
    decreases content.len(),
{
    if content.len() == 0 {
        Seq::empty()
    } else {
        let before = result_text_of(content.drop_last());
        match content.last() {
            BlockView::Text { text } => before + text,
            BlockView::Thinking { text, .. } => before + text,
            _ => before,
        }
    }
}

/// What a tool result shows the model. The structured value is deliberately left behind: it
/// exists for replay and for surfaces, not for the model.
pub fn result_text(content: &Vec<ContentBlock>) -> (r: String)
    ensures
        r@ == result_text_of(block_views(content@)),
{
    let ghost views = block_views(content@);
    let mut r = String::new();
    let mut i: usize = 0;
    proof {
        lemma_block_views(content@);
        assert(r@ =~= result_text_of(views.take(0)));
    }
    while i < content.len()
        invariant
            i <= content.len(),
            views.len() == content.len(),
            forall|k: int| 0 <= k < content.len() ==> #[trigger] views[k] == block_view(content@[k]),
            r@ == result_text_of(views.take(i as int)),
        decreases content.len() - i,
    {
        assert(views.take(i as int + 1).drop_last() =~= views.take(i as int));
        assert(views[i as int] == block_view(content@[i as int]));
        match &content[i] {
            ContentBlock::Text { text } => {
                r.append(text.as_str());
            },
            ContentBlock::Thinking { text, .. } => {
                r.append(text.as_str());
            },
            _ => {},
        }
        i += 1;
    }
    assert(views.take(i as int) =~= views);
    r
}

/// A text that is there and says something.
pub open spec fn said(s: Option<String>) -> Option<Seq<char>> {
    match s {
        Some(s) => if s@.len() > 0 {
            Some(s@)
        } else {
            None
        },
        None => None,
    }
}

/// A text that is there and says something.
pub(crate) fn spoken(s: &Option<String>) -> (r: Option<String>)
    ensures
        opt(r) == said(*s),
{
    match s {
        Some(s) => if s.as_str().unicode_len() > 0 {
            Some(s.clone())
        } else {
            None
        },
        None => None,
    }
}

// Tool calls being assembled.

/// A tool call being assembled across frames.
#[derive(Debug, PartialEq, Eq)]
pub struct OpenCall {
    pub id: String,
    pub arguments: String,
}

/// What an [`OpenCall`] says.
pub struct OpenCallView {
    pub id: Seq<char>,
    pub arguments: Seq<char>,
}

impl View for OpenCall {
    type V = OpenCallView;

    open spec fn view(&self) -> OpenCallView {
        OpenCallView { id: self.id@, arguments: self.arguments@ }
    }
}

/// The calls being assembled, each under its place in the reply.
#[derive(Debug, PartialEq, Eq)]
pub struct OpenCalls {
    calls: BTreeMap<usize, OpenCall>,
}

impl View for OpenCalls {
    type V = Map<usize, OpenCallView>;

    closed spec fn view(&self) -> Map<usize, OpenCallView> {
        self.calls@.map_values(|c: OpenCall| c@)
    }
}

/// Whether a call stands before all others.
pub open spec fn is_first(calls: Map<usize, OpenCallView>, index: usize) -> bool {
    calls.contains_key(index) && forall|other: usize|
        #[trigger] calls.contains_key(other) ==> index <= other
}

/// The place of the call that stands before all others.
pub open spec fn first_index(calls: Map<usize, OpenCallView>) -> usize {
    choose|index: usize| is_first(calls, index)
}

/// Where a call stands, one stands before all others.
pub(crate) proof fn lemma_first_index(calls: Map<usize, OpenCallView>)
    ensures
        calls.contains_key(first_index(calls)) ==> is_first(calls, first_index(calls)),
        !calls.contains_key(first_index(calls)) ==> forall|place: usize| !calls.contains_key(place),
{
    if exists|place: usize| calls.contains_key(place) {
        let place = choose|place: usize| calls.contains_key(place);
        lemma_some_first(calls, place);
    }
}

proof fn lemma_some_first(calls: Map<usize, OpenCallView>, place: usize)
    requires
        calls.contains_key(place),
    ensures
        exists|index: usize| is_first(calls, index),
    decreases place,
{
    if exists|other: usize| #[trigger] calls.contains_key(other) && other < place {
        let other = choose|other: usize| #[trigger] calls.contains_key(other) && other < place;
        lemma_some_first(calls, other);
    } else {
        assert(is_first(calls, place));
    }
}

impl OpenCalls {
    /// No calls.
    pub fn new() -> (r: OpenCalls)
        ensures
            r@ == Map::<usize, OpenCallView>::empty(),
    {
        broadcast use vstd::std_specs::btree::group_btree_axioms;

        let r = OpenCalls { calls: BTreeMap::new() };
        assert(r@ =~= Map::empty());
        r
    }

    /// Opens a call, with no arguments yet. It takes the place of one that stood there.
    pub fn open(&mut self, index: usize, id: &str)
        ensures
            final(self)@ == old(self)@.insert(
                index,
                OpenCallView { id: id@, arguments: Seq::empty() },
            ),
    {
        broadcast use vstd::std_specs::btree::group_btree_axioms;

        let call = OpenCall { id: text::copy(id), arguments: String::new() };
        assert(call.arguments@ =~= Seq::<char>::empty());
        let ghost view = call@;
        let ghost before = self@;
        self.calls.insert(index, call);
        assert(self@ =~= before.insert(index, view));
    }

    /// Appends a fragment to the arguments of the call at `index`, and says which call that is.
    pub fn extend(&mut self, index: usize, fragment: &str) -> (r: Option<String>)
        ensures
            if old(self)@.contains_key(index) {
                let call = old(self)@[index];
                &&& r is Some
                &&& r->0@ == call.id
                &&& final(self)@ == old(self)@.insert(
                    index,
                    OpenCallView { arguments: call.arguments + fragment@, ..call },
                )
            } else {
                r is None && final(self)@ == old(self)@
            },
    {
        broadcast use vstd::std_specs::btree::group_btree_axioms;

        let ghost before = self@;
        match self.calls.remove(&index) {
            None => {
                assert(self@ =~= before);
                None
            },
            Some(call) => {
                let id = call.id.clone();
                let longer = OpenCall {
                    arguments: text::concat(call.arguments.as_str(), fragment),
                    id: call.id,
                };
                let ghost view = longer@;
                self.calls.insert(index, longer);
                assert(self@ =~= before.insert(index, view));
                Some(id)
            },
        }
    }

    /// Takes the call at `index` out.
    pub fn close(&mut self, index: usize) -> (r: Option<OpenCall>)
        ensures
            final(self)@ == old(self)@.remove(index),
            if old(self)@.contains_key(index) {
                r is Some && r->0@ == old(self)@[index]
            } else {
                r is None
            },
    {
        broadcast use vstd::std_specs::btree::group_btree_axioms;

        let ghost before = self@;
        let call = self.calls.remove(&index);
        assert(self@ =~= before.remove(index));
        call
    }

    /// The place of the call that stands before all others.
    fn first(&self) -> (r: Option<usize>)
        ensures
            match r {
                Some(index) => self@.contains_key(index) && index == first_index(self@),
                None => self@ == Map::<usize, OpenCallView>::empty(),
            },
    {
        broadcast use vstd::std_specs::btree::group_btree_axioms;

        let ghost keys = vstd::std_specs::iter::IteratorSpec::remaining(&self.calls.keys());
        let mut first: Option<usize> = None;
        for key in it: self.calls.keys()
            invariant
                it.seq() == keys,
                match first {
                    Some(index) => (exists|k: int|
                        0 <= k < it.index() && index == *(#[trigger] keys[k])) && forall|k: int|
                        0 <= k < it.index() ==> index <= *(#[trigger] keys[k]),
                    None => it.index() == 0,
                },
        {
            let index: usize = *key;
            assert(index == *keys[it.index() as int]);
            first = match first {
                Some(least) => if least <= index {
                    Some(least)
                } else {
                    Some(index)
                },
                None => Some(index),
            };
        }
        proof {
            let places = keys.unref();
            assert(places.to_set() == self.calls@.dom());
            assert forall|place: usize| #[trigger] self@.contains_key(place) implies exists|k: int|
                0 <= k < keys.len() && place == *(#[trigger] keys[k]) by {
                assert(places.to_set().contains(place));
                let k = choose|k: int| 0 <= k < places.len() && places[k] == place;
                assert(place == *keys[k]);
            }
            if let Some(index) = first {
                let k = choose|k: int| 0 <= k < keys.len() && index == *(#[trigger] keys[k]);
                assert(places[k] == index);
                assert(places.to_set().contains(index));
                assert(is_first(self@, index));
            }
        }
        first
    }

    /// Takes the first call out.
    pub fn close_first(&mut self) -> (r: Option<OpenCall>)
        ensures
            old(self)@.dom().finite(),
            if old(self)@ == Map::<usize, OpenCallView>::empty() {
                r is None && final(self)@ == old(self)@
            } else {
                let index = first_index(old(self)@);
                &&& old(self)@.contains_key(index)
                &&& r is Some
                &&& r->0@ == old(self)@[index]
                &&& final(self)@ == old(self)@.remove(index)
            },
    {
        proof {
            broadcast use vstd::std_specs::btree::group_btree_axioms;

            assert(self@.dom() =~= self.calls@.dom());
        }
        match self.first() {
            None => None,
            Some(index) => self.close(index),
        }
    }
}

/// The stream with a call ended: with its end, or the failure of one whose arguments do not
/// parse.
pub open spec fn ended(sink: SinkView, call: OpenCallView) -> SinkView {
    match arguments_fault(call.arguments) {
        Some(fault) => sink.failed(
            "unparseable arguments for tool call "@ + call.id + ": "@ + fault,
        ),
        None => sink.pushed(ChunkView::ToolCallEnd { id: call.id }),
    }
}

/// Ends a call on a stream, and says whether its arguments parse.
pub fn end_call(call: OpenCall, out: &mut Sink) -> (r: bool)
    ensures
        final(out)@ == ended(old(out)@, call@),
        r == arguments_fault(call@.arguments) is None,
        old(out)@.valid() ==> final(out)@.valid(),
{
    match check_arguments(call.arguments.as_str()) {
        Some(fault) => {
            let mut message = text::concat3(
                "unparseable arguments for tool call ",
                call.id.as_str(),
                ": ",
            );
            message.append(fault.as_str());
            out.fail(message);
            false
        },
        None => {
            out.push(StreamChunk::ToolCallEnd { id: call.id });
            true
        },
    }
}

// Listing models.

/// A model as a listing has it.
#[derive(Debug, PartialEq, Eq)]
pub struct WireModel {
    pub id: String,
    pub display_name: Option<String>,
    pub context_window: Option<u64>,
    pub max_output_tokens: Option<u64>,
    /// Present on richer listings; absent on the plain one.
    pub input_modalities: Option<Vec<String>>,
}

/// Whether a listing says that a model takes images.
pub open spec fn takes_images(modalities: Option<Vec<String>>) -> bool {
    match modalities {
        Some(kinds) => exists|i: int| 0 <= i < kinds.len() && (#[trigger] kinds@[i])@ == "image"@,
        None => false,
    }
}

impl ModelInfo {
    /// The model that a listing describes. A plain listing says nothing about reasoning levels,
    /// so none are offered: a ladder invented here would be one a person could select and the
    /// endpoint would then reject.
    pub fn from_listing(wire: &WireModel) -> (r: ModelInfo)
        ensures
            r@ == (ModelView {
                display_name: match wire.display_name {
                    Some(name) => name@,
                    None => wire.id@,
                },
                context_window: wire.context_window,
                max_output_tokens: wire.max_output_tokens,
                supports_vision: takes_images(wire.input_modalities),
                ..bare_model(wire.id@)
            }),
    {
        let mut model = ModelInfo::new(wire.id.as_str());
        if let Some(name) = &wire.display_name {
            model.display_name = name.clone();
        }
        model.context_window = wire.context_window;
        model.max_output_tokens = wire.max_output_tokens;
        if let Some(kinds) = &wire.input_modalities {
            let mut i: usize = 0;
            let mut found = false;
            while i < kinds.len()
                invariant
                    i <= kinds.len(),
                    found == exists|k: int| 0 <= k < i && (#[trigger] kinds@[k])@ == "image"@,
                decreases kinds.len() - i,
            {
                if text::eq(kinds[i].as_str(), "image") {
                    found = true;
                    assert(kinds@[i as int]@ == "image"@);
                }
                i += 1;
            }
            model.supports_vision = found;
        }
        model
    }
}

// Laws.

/// A stream stays well-formed whatever a decoder adds: there is at most one terminal item, it
/// is the last, and once it is there nothing follows.
pub proof fn a_stream_ends_once(
    sink: SinkView,
    chunk: ChunkView,
    error: ProviderErrorView,
)
    requires
        sink.valid(),
    ensures
        sink.pushed(chunk).valid(),
        sink.aborted(error).valid(),
        sink.complete ==> sink.pushed(chunk) == sink && sink.aborted(error) == sink,
{
}

/// Whether just one member of an object has this key.
pub open spec fn key_at(members: Seq<(Seq<char>, JsonView)>, key: Seq<char>, i: int) -> bool {
    &&& 0 <= i < members.len()
    &&& forall|j: int| 0 <= j < members.len() ==> ((#[trigger] members[j]).0 == key <==> j == i)
}

/// Whether an object says just this under a key.
pub open spec fn says(object: JsonView, key: Seq<char>, value: JsonView) -> bool {
    object is Object && exists|i: int| #[trigger]
        key_at(object->Object_0, key, i) && object->Object_0[i].1 == value
}

/// Whether an object says nothing under a key.
pub open spec fn is_silent(object: JsonView, key: Seq<char>) -> bool {
    object is Object && forall|j: int|
        0 <= j < object->Object_0.len() ==> (#[trigger] object->Object_0[j]).0 != key
}

/// An object with one more member, of a key that it does not have.
pub(crate) proof fn lemma_says_more(
    members: Seq<(Seq<char>, JsonView)>,
    own: Seq<char>,
    added: JsonView,
)
    requires
        is_silent(JsonView::Object(members), own),
    ensures
        says(JsonView::Object(members.push((own, added))), own, added),
        forall|key: Seq<char>, value: JsonView|
            key != own && #[trigger] says(JsonView::Object(members), key, value) ==> says(
                JsonView::Object(members.push((own, added))),
                key,
                value,
            ),
        forall|key: Seq<char>|
            key != own && #[trigger] is_silent(JsonView::Object(members), key) ==> is_silent(
                JsonView::Object(members.push((own, added))),
                key,
            ),
{
    let all = members.push((own, added));
    let before = JsonView::Object(members);
    let after = JsonView::Object(all);
    assert forall|j: int| 0 <= j < members.len() implies (#[trigger] all[j]).0 != own by {
        assert(all[j] == before->Object_0[j]);
    }
    assert(key_at(after->Object_0, own, members.len() as int));
    assert forall|key: Seq<char>, value: JsonView|
        key != own && #[trigger] says(before, key, value) implies says(after, key, value) by {
        let i = choose|i: int| #[trigger]
            key_at(before->Object_0, key, i) && before->Object_0[i].1 == value;
        assert forall|j: int| 0 <= j < all.len() implies ((#[trigger] all[j]).0 == key <==> j
            == i) by {
            if j < members.len() {
                assert(all[j] == members[j]);
            }
        }
        assert(all[i] == members[i]);
        assert(key_at(after->Object_0, key, i));
    }
    assert forall|key: Seq<char>|
        key != own && #[trigger] is_silent(before, key) implies is_silent(after, key) by {
        assert forall|j: int| 0 <= j < all.len() implies (#[trigger] after->Object_0[j]).0
            != key by {
            if j < members.len() {
                assert(all[j] == before->Object_0[j]);
            }
        }
    }
}

/// What a tool result shows the model is its texts and its reasoning, one after the other, and
/// nothing else.
pub proof fn a_result_shows_its_texts(content: Seq<BlockView>)
    ensures
        result_text_of(content) == content.map_values(
            |block: BlockView|
                match block {
                    BlockView::Text { text } => text,
                    BlockView::Thinking { text, .. } => text,
                    _ => Seq::empty(),
                },
        ).flatten(),
    decreases content.len(),
{
    let f = |block: BlockView|
        match block {
            BlockView::Text { text } => text,
            BlockView::Thinking { text, .. } => text,
            _ => Seq::<char>::empty(),
        };
    if content.len() == 0 {
        assert(content.map_values(f) =~= Seq::empty());
    } else {
        let init = content.drop_last();
        a_result_shows_its_texts(init);
        assert(content.map_values(f) =~= init.map_values(f).push(f(content.last())));
        init.map_values(f).lemma_flatten_push(f(content.last()));
        assert(result_text_of(content) =~= init.map_values(f).flatten() + f(content.last()));
    }
}

/// A call that ends without a fault is announced under its id; one whose arguments do not parse
/// ends the stream instead, with a failure that is not worth repeating. Arguments of nothing but
/// white space are no fault.
pub proof fn a_call_ends_or_fails(sink: SinkView, call: OpenCallView)
    requires
        !sink.complete,
    ensures
        ended(sink, call).items.len() == sink.items.len() + 1,
        ended(sink, call).items.drop_last() == sink.items,
        match ended(sink, call).items.last() {
            Ok(chunk) => {
                &&& chunk == ChunkView::ToolCallEnd { id: call.id }
                &&& !ended(sink, call).complete
                &&& trimmed(call.arguments).len() == 0 || json_fault(trimmed(call.arguments)) is None
            },
            Err(error) => {
                &&& error is Protocol
                &&& ended(sink, call).complete
                &&& trimmed(call.arguments).len() > 0
                &&& json_fault(trimmed(call.arguments)) is Some
            },
        },
{
    assert(ended(sink, call).items.drop_last() =~= sink.items);
}

/// A value is spelled part by part: the items of a list and the members of an object in their order,
/// with a comma between each two and the key before its value.
pub proof fn a_value_is_spelled_part_by_part(
    items: Seq<JsonView>,
    members: Seq<(Seq<char>, JsonView)>,
)
    ensures
        spelled_items(items) == text::joined(items.map_values(|v: JsonView| spelled(v)), ","@),
        spelled_members(members) == text::joined(
            members.map_values(
                |m: (Seq<char>, JsonView)| quoted(m.0) + ":"@ + spelled(m.1),
            ),
            ","@,
        ),
    decreases items.len() + members.len(),
{
    let item = |v: JsonView| spelled(v);
    let member = |m: (Seq<char>, JsonView)| quoted(m.0) + ":"@ + spelled(m.1);
    if items.len() > 0 {
        let init = items.drop_last();
        a_value_is_spelled_part_by_part(init, members);
        assert(items.map_values(item).drop_last() =~= init.map_values(item));
    } else if members.len() > 0 {
        let init = members.drop_last();
        a_value_is_spelled_part_by_part(items, init);
        assert(members.map_values(member).drop_last() =~= init.map_values(member));
    }
}

} // verus!
