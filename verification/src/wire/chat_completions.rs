//! The OpenAI `/chat/completions` wire.
//!
//! Its message shape is flatter than the neutral one: a tool result is a message rather than a
//! content block, and a tool call hangs off the assistant message rather than sitting inline
//! with its text. Translation therefore splits one neutral message into several wire messages.
//!
//! The stream side is a state machine for two reasons. Tool calls arrive index-keyed and
//! fragmented, so a call is only complete once the choice finishes. And the finish reason
//! typically arrives one frame *before* the usage object, while `Done` must be last; the stop
//! reason is therefore held back until the transport actually ends.

use vstd::prelude::*;
use crate::protocol::{
    append_json, block_view, block_views, effort_word, joined_text, json_views, lemma_block_views,
    lemma_json_views, member_views, message_views, no_items, no_members, push_json, push_member,
    text_of, BlockView, ContentBlock, ImageBlock, Json, JsonView, Message, MessageView, Role,
    StopReason, StopView, ToolResult, Usage,
};
use crate::text;
use crate::text::{decimal_of, trimmed};
use crate::wire;
use crate::wire::messages::number;
use crate::wire::{
    argument_text, arguments_fault, result_text_of, said, spoken, tool_views, ChunkView,
    ModelRequest, ProviderErrorView, RequestView, Sink, SinkView, StreamChunk, ToolSpec, ToolSpecView,
};

verus! {

// The request.

/// A message of one text.
pub open spec fn plain_message(role: Seq<char>, content: Seq<char>) -> JsonView {
    JsonView::Object(
        seq![("role"@, JsonView::Text(role)), ("content"@, JsonView::Text(content))],
    )
}

/// The message of a tool result.
pub open spec fn result_message(id: Seq<char>, content: Seq<char>) -> JsonView {
    JsonView::Object(
        seq![
            ("role"@, JsonView::Text("tool"@)),
            ("tool_call_id"@, JsonView::Text(id)),
            ("content"@, JsonView::Text(content)),
        ],
    )
}

/// A tool call as it hangs off an assistant message.
pub open spec fn call_json(id: Seq<char>, name: Seq<char>, arguments: JsonView) -> JsonView {
    JsonView::Object(
        seq![
            ("id"@, JsonView::Text(id)),
            ("type"@, JsonView::Text("function"@)),
            (
                "function"@,
                JsonView::Object(
                    seq![
                        ("name"@, JsonView::Text(name)),
                        ("arguments"@, JsonView::Text(argument_text(arguments))),
                    ],
                ),
            ),
        ],
    )
}

/// The reasoning of a message, one piece after the other.
pub open spec fn reasoning_of(content: Seq<BlockView>) -> Seq<char>
    decreases content.len(),
{
    if content.len() == 0 {
        Seq::empty()
    } else {
        let before = reasoning_of(content.drop_last());
        match content.last() {
            BlockView::Thinking { text, .. } => before + text,
            _ => before,
        }
    }
}

/// The tool calls of a message.
pub open spec fn calls_of(content: Seq<BlockView>) -> Seq<JsonView>
    decreases content.len(),
{
    if content.len() == 0 {
        Seq::empty()
    } else {
        let before = calls_of(content.drop_last());
        match content.last() {
            BlockView::ToolCall(call) => before.push(
                call_json(call.id, call.name, call.arguments),
            ),
            _ => before,
        }
    }
}

/// The messages of the tool results that a message carries.
pub open spec fn results_of(content: Seq<BlockView>) -> Seq<JsonView>
    decreases content.len(),
{
    if content.len() == 0 {
        Seq::empty()
    } else {
        let before = results_of(content.drop_last());
        match content.last() {
            BlockView::ToolResult(result) => before.push(
                result_message(result.id, result_text_of(result.content)),
            ),
            _ => before,
        }
    }
}

/// What a block of a user message becomes, where it becomes anything. A tool call is the
/// model's output; it can only reach the wire on an assistant message.
pub open spec fn part_of(block: BlockView) -> Option<JsonView> {
    match block {
        BlockView::Text { text } => Some(text_part(text)),
        BlockView::Thinking { text, .. } => Some(text_part(text)),
        BlockView::Image(image) => Some(
            JsonView::Object(
                seq![
                    ("type"@, JsonView::Text("image_url"@)),
                    (
                        "image_url"@,
                        JsonView::Object(
                            seq![
                                (
                                    "url"@,
                                    JsonView::Text(
                                        "data:"@ + image.media_type + ";base64,"@ + image.data,
                                    ),
                                ),
                            ],
                        ),
                    ),
                ],
            ),
        ),
        _ => None,
    }
}

/// A part of text.
pub open spec fn text_part(s: Seq<char>) -> JsonView {
    JsonView::Object(seq![("type"@, JsonView::Text("text"@)), ("text"@, JsonView::Text(s))])
}

/// The parts of a user message.
pub open spec fn parts_of(content: Seq<BlockView>) -> Seq<JsonView>
    decreases content.len(),
{
    if content.len() == 0 {
        Seq::empty()
    } else {
        match part_of(content.last()) {
            Some(part) => parts_of(content.drop_last()).push(part),
            None => parts_of(content.drop_last()),
        }
    }
}

/// The assistant message itself: its text, and its reasoning and its calls where it has any.
pub open spec fn assistant_message(content: Seq<BlockView>) -> JsonView {
    let said = seq![
        ("role"@, JsonView::Text("assistant"@)),
        ("content"@, JsonView::Text(text_of(content))),
    ];
    let thought = if reasoning_of(content).len() > 0 {
        said.push(("reasoning_content"@, JsonView::Text(reasoning_of(content))))
    } else {
        said
    };
    JsonView::Object(
        if calls_of(content).len() > 0 {
            thought.push(("tool_calls"@, JsonView::Array(calls_of(content))))
        } else {
            thought
        },
    )
}

/// What a message becomes on the wire.
pub open spec fn messages_of(message: MessageView) -> Seq<JsonView> {
    match message.role {
        Role::Assistant => seq![assistant_message(message.content)] + results_of(message.content),
        Role::System => if text_of(message.content).len() > 0 {
            seq![plain_message("system"@, text_of(message.content))]
        } else {
            Seq::empty()
        },
        _ => if parts_of(message.content).len() > 0 {
            results_of(message.content).push(
                JsonView::Object(
                    seq![
                        ("role"@, JsonView::Text("user"@)),
                        ("content"@, JsonView::Array(parts_of(message.content))),
                    ],
                ),
            )
        } else {
            results_of(message.content)
        },
    }
}

/// What a conversation becomes on the wire: the system prompt leads.
pub open spec fn all_messages(system: Option<Seq<char>>, messages: Seq<MessageView>) -> Seq<
    JsonView,
>
    decreases messages.len(),
{
    if messages.len() == 0 {
        match system {
            Some(system) => seq![plain_message("system"@, system)],
            None => Seq::empty(),
        }
    } else {
        all_messages(system, messages.drop_last()) + messages_of(messages.last())
    }
}

/// A tool as it is sent.
pub open spec fn tool_json(tool: ToolSpecView) -> JsonView {
    JsonView::Object(
        seq![
            ("type"@, JsonView::Text("function"@)),
            (
                "function"@,
                JsonView::Object(
                    seq![
                        ("name"@, JsonView::Text(tool.name)),
                        ("description"@, JsonView::Text(tool.description)),
                        ("parameters"@, tool.input_schema),
                    ],
                ),
            ),
        ],
    )
}

/// The body of a request.
pub open spec fn body_of(request: RequestView, stream: bool) -> Seq<(Seq<char>, JsonView)> {
    let head = seq![
        ("model"@, JsonView::Text(request.model)),
        ("messages"@, JsonView::Array(all_messages(request.system, request.messages))),
        ("stream"@, JsonView::Bool(stream)),
    ];
    let streamed = if stream {
        head.push(
            (
                "stream_options"@,
                JsonView::Object(seq![("include_usage"@, JsonView::Bool(true))]),
            ),
        )
    } else {
        head
    };
    let tooled = if request.tools.len() > 0 {
        streamed.push(
            (
                "tools"@,
                JsonView::Array(request.tools.map_values(|t: ToolSpecView| tool_json(t))),
            ),
        )
    } else {
        streamed
    };
    let bounded = match request.max_output_tokens {
        Some(max) => tooled.push(("max_tokens"@, number(max as nat))),
        None => tooled,
    };
    let sampled = match request.temperature {
        Some(temperature) => bounded.push(("temperature"@, JsonView::Number(temperature))),
        None => bounded,
    };
    match request.reasoning_effort {
        Some(effort) => sampled.push(("reasoning_effort"@, JsonView::Text(effort_word(effort)))),
        None => sampled,
    }
}

/// A message of one text.
fn plain(role: &str, content: &str) -> (r: Json)
    ensures
        r@ == plain_message(role@, content@),
{
    let mut members = no_members();
    push_member(&mut members, "role", Json::text(role));
    push_member(&mut members, "content", Json::text(content));
    assert(member_views(members@) =~= plain_message(role@, content@)->Object_0);
    Json::Object(members)
}

/// The message of a tool result.
fn wire_tool_result(result: &ToolResult) -> (r: Json)
    ensures
        r@ == result_message(result@.id, result_text_of(result@.content)),
{
    let content = wire::result_text(&result.content);
    let mut members = no_members();
    push_member(&mut members, "role", Json::text("tool"));
    push_member(&mut members, "tool_call_id", Json::text(result.id.as_str()));
    push_member(&mut members, "content", Json::text(content.as_str()));
    assert(member_views(members@) =~= result_message(result@.id, content@)->Object_0);
    Json::Object(members)
}

/// An image as a data URI.
pub fn data_uri(image: &ImageBlock) -> (r: String)
    ensures
        r@ == "data:"@ + image.media_type@ + ";base64,"@ + image.data@,
{
    let mut r = text::concat3("data:", image.media_type.as_str(), ";base64,");
    r.append(image.data.as_str());
    r
}

/// The messages of the tool results that a message carries.
fn wire_results(content: &Vec<ContentBlock>) -> (r: Vec<Json>)
    ensures
        json_views(r@) == results_of(block_views(content@)),
{
    let ghost views = block_views(content@);
    let mut items = no_items();
    let mut i: usize = 0;
    proof {
        lemma_block_views(content@);
        assert(views.take(0) =~= Seq::empty());
    }
    while i < content.len()
        invariant
            i <= content.len(),
            views.len() == content.len(),
            forall|k: int| 0 <= k < content.len() ==> #[trigger] views[k] == block_view(content@[k]),
            json_views(items@) == results_of(views.take(i as int)),
        decreases content.len() - i,
    {
        assert(views.take(i as int + 1).drop_last() =~= views.take(i as int));
        assert(views[i as int] == block_view(content@[i as int]));
        if let ContentBlock::ToolResult(result) = &content[i] {
            push_json(&mut items, wire_tool_result(result));
        }
        i += 1;
    }
    assert(views.take(i as int) =~= views);
    items
}

/// Emits the assistant text and any tool calls as one message, then each tool result the same
/// message happened to carry as its own message. The wire schema has nowhere to put an image the
/// assistant produced.
fn push_assistant(out: &mut Vec<Json>, message: &Message)
    ensures
        json_views(final(out)@) == json_views(old(out)@) + (seq![
            assistant_message(message@.content),
        ] + results_of(message@.content)),
{
    let ghost views = block_views(message.content@);
    let ghost start = json_views(out@);
    let said = joined_text(&message.content);
    let mut reasoning = String::new();
    let mut calls = no_items();
    let mut i: usize = 0;
    proof {
        lemma_block_views(message.content@);
        assert(views.take(0) =~= Seq::empty());
        assert(reasoning@ =~= Seq::<char>::empty());
    }
    while i < message.content.len()
        invariant
            i <= message.content.len(),
            views.len() == message.content.len(),
            forall|k: int|
                0 <= k < message.content.len() ==> #[trigger] views[k] == block_view(
                    message.content@[k],
                ),
            reasoning@ == reasoning_of(views.take(i as int)),
            json_views(calls@) == calls_of(views.take(i as int)),
        decreases message.content.len() - i,
    {
        assert(views.take(i as int + 1).drop_last() =~= views.take(i as int));
        assert(views[i as int] == block_view(message.content@[i as int]));
        match &message.content[i] {
            ContentBlock::Thinking { text, .. } => {
                reasoning.append(text.as_str());
            },
            ContentBlock::ToolCall(call) => {
                let arguments = wire::arguments_string(&call.arguments);
                let mut function = no_members();
                push_member(&mut function, "name", Json::text(call.name.as_str()));
                push_member(&mut function, "arguments", Json::text(arguments.as_str()));
                assert(member_views(function@) =~= seq![
                    ("name"@, JsonView::Text(call.name@)),
                    ("arguments"@, JsonView::Text(arguments@)),
                ]);
                let mut members = no_members();
                push_member(&mut members, "id", Json::text(call.id.as_str()));
                push_member(&mut members, "type", Json::text("function"));
                push_member(&mut members, "function", Json::Object(function));
                assert(member_views(members@) =~= call_json(
                    call@.id,
                    call@.name,
                    call@.arguments,
                )->Object_0);
                push_json(&mut calls, Json::Object(members));
            },
            _ => {},
        }
        i += 1;
    }
    assert(views.take(i as int) =~= views);
    let mut wire = no_members();
    push_member(&mut wire, "role", Json::text("assistant"));
    push_member(&mut wire, "content", Json::Text(said));
    assert(member_views(wire@) =~= seq![
        ("role"@, JsonView::Text("assistant"@)),
        ("content"@, JsonView::Text(text_of(views))),
    ]);
    if reasoning.as_str().unicode_len() > 0 {
        push_member(&mut wire, "reasoning_content", Json::Text(reasoning));
    }
    proof {
        lemma_json_views(calls@);
    }
    if calls.len() > 0 {
        push_member(&mut wire, "tool_calls", Json::Array(calls));
    }
    push_json(out, Json::Object(wire));
    let results = wire_results(&message.content);
    append_json(out, results);
    assert(json_views(out@) =~= start + (seq![assistant_message(views)] + results_of(views)));
}

/// What a block of a user message becomes.
fn wire_part(block: &ContentBlock) -> (r: Option<Json>)
    ensures
        match part_of(block@) {
            Some(json) => r is Some && r->0@ == json,
            None => r is None,
        },
{
    let mut members = no_members();
    match block {
        ContentBlock::Text { text } => {
            push_member(&mut members, "type", Json::text("text"));
            push_member(&mut members, "text", Json::text(text.as_str()));
        },
        ContentBlock::Thinking { text, .. } => {
            push_member(&mut members, "type", Json::text("text"));
            push_member(&mut members, "text", Json::text(text.as_str()));
        },
        ContentBlock::Image(image) => {
            let uri = data_uri(image);
            let mut inner = no_members();
            push_member(&mut inner, "url", Json::Text(uri));
            assert(member_views(inner@) =~= seq![("url"@, JsonView::Text(uri@))]);
            push_member(&mut members, "type", Json::text("image_url"));
            push_member(&mut members, "image_url", Json::Object(inner));
        },
        _ => {
            return None;
        },
    }
    assert(member_views(members@) =~= part_of(block@)->0->Object_0);
    Some(Json::Object(members))
}

/// User and tool messages differ only in what a non-result block becomes: both may carry
/// results, and a tool message's stray text would otherwise be dropped, so it is preserved as
/// user content. Results precede the text so the model reads them in the order they were
/// produced.
fn push_user_or_tool(out: &mut Vec<Json>, message: &Message)
    requires
        message.role == Role::User || message.role == Role::Tool,
    ensures
        json_views(final(out)@) == json_views(old(out)@) + messages_of(message@),
{
    let ghost views = block_views(message.content@);
    let ghost start = json_views(out@);
    let mut parts = no_items();
    let mut i: usize = 0;
    proof {
        lemma_block_views(message.content@);
        assert(views.take(0) =~= Seq::empty());
    }
    while i < message.content.len()
        invariant
            i <= message.content.len(),
            views.len() == message.content.len(),
            forall|k: int|
                0 <= k < message.content.len() ==> #[trigger] views[k] == block_view(
                    message.content@[k],
                ),
            json_views(parts@) == parts_of(views.take(i as int)),
        decreases message.content.len() - i,
    {
        assert(views.take(i as int + 1).drop_last() =~= views.take(i as int));
        assert(views[i as int] == block_view(message.content@[i as int]));
        if let Some(part) = wire_part(&message.content[i]) {
            push_json(&mut parts, part);
        }
        i += 1;
    }
    assert(views.take(i as int) =~= views);
    let results = wire_results(&message.content);
    append_json(out, results);
    proof {
        lemma_json_views(parts@);
    }
    if parts.len() > 0 {
        let mut members = no_members();
        push_member(&mut members, "role", Json::text("user"));
        push_member(&mut members, "content", Json::Array(parts));
        assert(member_views(members@) =~= seq![
            ("role"@, JsonView::Text("user"@)),
            ("content"@, JsonView::Array(parts_of(views))),
        ]);
        push_json(out, Json::Object(members));
    }
    assert(json_views(out@) =~= start + messages_of(message@));
}

/// Translates one message.
fn push_message(out: &mut Vec<Json>, message: &Message)
    ensures
        json_views(final(out)@) == json_views(old(out)@) + messages_of(message@),
{
    let ghost start = json_views(out@);
    match message.role {
        Role::Assistant => {
            push_assistant(out, message);
        },
        Role::System => {
            let said = joined_text(&message.content);
            if said.as_str().unicode_len() > 0 {
                push_json(out, plain("system", said.as_str()));
            }
            assert(json_views(out@) =~= start + messages_of(message@));
        },
        _ => {
            push_user_or_tool(out, message);
        },
    }
}

/// Translates the conversation.
pub fn wire_messages(request: &ModelRequest) -> (r: Vec<Json>)
    ensures
        json_views(r@) == all_messages(request@.system, request@.messages),
{
    let ghost all = message_views(request.messages@);
    let mut out = no_items();
    if let Some(system) = &request.system {
        push_json(&mut out, plain("system", system.as_str()));
    }
    let mut i: usize = 0;
    proof {
        assert(all.take(0) =~= Seq::empty());
        assert(json_views(out@) =~= all_messages(request@.system, all.take(0)));
    }
    while i < request.messages.len()
        invariant
            i <= request.messages.len(),
            all == message_views(request.messages@),
            json_views(out@) == all_messages(request@.system, all.take(i as int)),
        decreases request.messages.len() - i,
    {
        assert(all.take(i as int + 1).drop_last() =~= all.take(i as int));
        assert(all[i as int] == request.messages@[i as int]@);
        push_message(&mut out, &request.messages[i]);
        i += 1;
    }
    assert(all.take(i as int) =~= all);
    out
}

/// A tool as it is sent.
fn wire_tool(tool: &ToolSpec) -> (r: Json)
    ensures
        r@ == tool_json(tool@),
{
    let mut function = no_members();
    push_member(&mut function, "name", Json::text(tool.name.as_str()));
    push_member(&mut function, "description", Json::text(tool.description.as_str()));
    push_member(&mut function, "parameters", tool.input_schema.copy());
    assert(member_views(function@) =~= seq![
        ("name"@, JsonView::Text(tool.name@)),
        ("description"@, JsonView::Text(tool.description@)),
        ("parameters"@, tool.input_schema@),
    ]);
    let mut members = no_members();
    push_member(&mut members, "type", Json::text("function"));
    push_member(&mut members, "function", Json::Object(function));
    assert(member_views(members@) =~= tool_json(tool@)->Object_0);
    Json::Object(members)
}

/// The tools as they are sent.
fn wire_tools(tools: &Vec<ToolSpec>) -> (r: Vec<Json>)
    ensures
        json_views(r@) == tool_views(tools@).map_values(|t: ToolSpecView| tool_json(t)),
{
    let ghost views = tool_views(tools@);
    let ghost sent = views.map_values(|t: ToolSpecView| tool_json(t));
    let mut items = no_items();
    let mut i: usize = 0;
    assert(json_views(items@) =~= sent.take(0));
    while i < tools.len()
        invariant
            i <= tools.len(),
            views == tool_views(tools@),
            sent == views.map_values(|t: ToolSpecView| tool_json(t)),
            json_views(items@) == sent.take(i as int),
        decreases tools.len() - i,
    {
        assert(views[i as int] == tools@[i as int]@);
        assert(sent.take(i as int + 1) =~= sent.take(i as int).push(sent[i as int]));
        push_json(&mut items, wire_tool(&tools[i]));
        i += 1;
    }
    assert(sent.take(i as int) =~= sent);
    items
}

/// Builds a `/chat/completions` body. `stream` decides whether the caller gets events back.
///
/// The effort is sent as written, including a level this endpoint may not know: a vendor
/// rejecting it is a visible failure, silently sending a lower one instead is not.
pub fn chat_completions_body(request: &ModelRequest, stream: bool) -> (r: Json)
    ensures
        r@ == JsonView::Object(body_of(request@, stream)),
{
    let mut members = no_members();
    push_member(&mut members, "model", Json::text(request.model.as_str()));
    push_member(&mut members, "messages", Json::Array(wire_messages(request)));
    push_member(&mut members, "stream", Json::Bool(stream));
    assert(member_views(members@) =~= seq![
        ("model"@, JsonView::Text(request.model@)),
        ("messages"@, JsonView::Array(all_messages(request@.system, request@.messages))),
        ("stream"@, JsonView::Bool(stream)),
    ]);
    if stream {
        let mut options = no_members();
        push_member(&mut options, "include_usage", Json::Bool(true));
        assert(member_views(options@) =~= seq![("include_usage"@, JsonView::Bool(true))]);
        push_member(&mut members, "stream_options", Json::Object(options));
    }
    assert(tool_views(request.tools@).len() == request.tools.len());
    if request.tools.len() > 0 {
        push_member(&mut members, "tools", Json::Array(wire_tools(&request.tools)));
    }
    if let Some(max) = request.max_output_tokens {
        push_member(&mut members, "max_tokens", Json::number(max as u64));
    }
    if let Some(temperature) = &request.temperature {
        push_member(&mut members, "temperature", Json::Number(temperature.clone()));
    }
    if let Some(effort) = request.reasoning_effort {
        push_member(&mut members, "reasoning_effort", Json::text(effort.as_str()));
    }
    Json::Object(members)
}

// The reply.

/// A fragment of a tool call.
#[derive(Debug, PartialEq, Eq)]
pub struct ToolCallDelta {
    pub index: usize,
    pub id: Option<String>,
    pub name: Option<String>,
    pub arguments: Option<String>,
}

/// One choice of a frame.
#[derive(Debug, PartialEq, Eq)]
pub struct ReplyChoice {
    pub content: Option<String>,
    pub reasoning_content: Option<String>,
    pub tool_calls: Vec<ToolCallDelta>,
    pub finish_reason: Option<String>,
}

/// The counts that a frame reports.
#[derive(Clone, Copy, Debug, PartialEq, Eq, Structural)]
pub struct WireUsage {
    pub prompt_tokens: u64,
    pub completion_tokens: u64,
    pub cached_tokens: Option<u64>,
    pub reasoning_tokens: Option<u64>,
}

/// The counts that a frame reports, in the neutral form.
pub open spec fn usage_of(wire: WireUsage) -> Usage {
    Usage {
        input_tokens: wire.prompt_tokens,
        output_tokens: wire.completion_tokens,
        cached_input_tokens: match wire.cached_tokens {
            Some(n) => n,
            None => 0,
        },
        reasoning_tokens: match wire.reasoning_tokens {
            Some(n) => n,
            None => 0,
        },
    }
}

impl WireUsage {
    /// The counts in the neutral form.
    pub fn usage(&self) -> (r: Usage)
        ensures
            r == usage_of(*self),
    {
        Usage {
            input_tokens: self.prompt_tokens,
            output_tokens: self.completion_tokens,
            cached_input_tokens: match self.cached_tokens {
                Some(n) => n,
                None => 0,
            },
            reasoning_tokens: match self.reasoning_tokens {
                Some(n) => n,
                None => 0,
            },
        }
    }
}

/// A frame as this wire sends it.
#[derive(Debug, PartialEq, Eq)]
pub struct ChatChunk {
    pub choices: Vec<ReplyChoice>,
    pub usage: Option<WireUsage>,
}

/// What a reply stopped for.
pub open spec fn stop_of(reason: Seq<char>) -> StopView {
    if reason == "tool_calls"@ || reason == "function_call"@ {
        StopView::ToolUse
    } else if reason == "length"@ || reason == "max_tokens"@ {
        StopView::MaxTokens
    } else if reason == "content_filter"@ {
        StopView::Refusal { message: "the provider stopped the reply for content filtering"@ }
    } else if reason == "cancelled"@ || reason == "aborted"@ {
        StopView::Cancelled
    } else {
        StopView::EndTurn
    }
}

/// What a reply stopped for. A label nobody recognizes still ended the reply.
pub fn stop_reason(reason: &str) -> (r: StopReason)
    ensures
        r@ == stop_of(reason@),
{
    if text::eq(reason, "tool_calls") || text::eq(reason, "function_call") {
        StopReason::ToolUse
    } else if text::eq(reason, "length") || text::eq(reason, "max_tokens") {
        StopReason::MaxTokens
    } else if text::eq(reason, "content_filter") {
        StopReason::Refusal {
            message: text::copy("the provider stopped the reply for content filtering"),
        }
    } else if text::eq(reason, "cancelled") || text::eq(reason, "aborted") {
        StopReason::Cancelled
    } else {
        StopReason::EndTurn
    }
}

/// What a frame's payload is.
#[derive(Debug, PartialEq, Eq)]
pub enum Payload {
    /// Nothing to read.
    Blank,
    /// The marker that ends the stream.
    Done,
    /// A frame to decode.
    Frame(String),
}

/// What a frame's payload is.
pub fn payload(data: &str) -> (r: Payload)
    ensures
        match r {
            Payload::Blank => trimmed(data@).len() == 0,
            Payload::Done => trimmed(data@) == "[DONE]"@,
            Payload::Frame(body) => body@ == trimmed(data@) && body@.len() > 0 && body@
                != "[DONE]"@,
        },
{
    let body = text::trim(data);
    if body.as_str().unicode_len() == 0 {
        return Payload::Blank;
    }
    if text::eq(body.as_str(), "[DONE]") {
        return Payload::Done;
    }
    Payload::Frame(body)
}

/// Reads a reply frame by frame.
#[derive(Debug, PartialEq, Eq)]
pub struct Decoder {
    calls: wire::OpenCalls,
    stop: Option<StopReason>,
    usage_seen: bool,
}

/// What a [`Decoder`] knows.
pub struct DecoderView {
    pub calls: Map<usize, wire::OpenCallView>,
    pub stop: Option<StopView>,
    pub usage_seen: bool,
}

impl View for Decoder {
    type V = DecoderView;

    closed spec fn view(&self) -> DecoderView {
        DecoderView {
            calls: self.calls@,
            stop: match self.stop {
                Some(stop) => Some(stop@),
                None => None,
            },
            usage_seen: self.usage_seen,
        }
    }
}

/// The stream with the calls that were open ended in the order of their places, up to the first
/// whose arguments do not parse.
pub open spec fn all_ended(sink: SinkView, calls: Map<usize, wire::OpenCallView>) -> SinkView
    decreases calls.dom().len(),
    when calls.dom().finite()
{
    let index = wire::first_index(calls);
    if !calls.contains_key(index) {
        sink
    } else if arguments_fault(calls[index].arguments) is Some {
        wire::ended(sink, calls[index])
    } else {
        all_ended(wire::ended(sink, calls[index]), calls.remove(index))
    }
}

/// A decoder with the stream it has written.
pub struct Reading {
    pub decoder: DecoderView,
    pub sink: SinkView,
}

impl Reading {
    /// With a call opened, where a fragment names one.
    pub open spec fn opened(self, delta: ToolCallDelta) -> Reading {
        match said(delta.id) {
            None => self,
            Some(id) => Reading {
                decoder: DecoderView {
                    calls: self.decoder.calls.insert(
                        delta.index,
                        wire::OpenCallView { id, arguments: Seq::empty() },
                    ),
                    ..self.decoder
                },
                sink: self.sink.pushed(
                    ChunkView::ToolCallStart {
                        id,
                        name: match delta.name {
                            Some(name) => name@,
                            None => Seq::empty(),
                        },
                    },
                ),
            },
        }
    }

    /// With a fragment of a call. Without an id there is nothing to echo back to the provider
    /// when the result returns, so a fragment of a call that was never opened ends the stream.
    pub open spec fn call_changed(self, delta: ToolCallDelta) -> Reading {
        let now = self.opened(delta);
        if now.decoder.calls.contains_key(delta.index) {
            match said(delta.arguments) {
                None => now,
                Some(arguments) => {
                    let call = now.decoder.calls[delta.index];
                    Reading {
                        decoder: DecoderView {
                            calls: now.decoder.calls.insert(
                                delta.index,
                                wire::OpenCallView {
                                    arguments: call.arguments + arguments,
                                    ..call
                                },
                            ),
                            ..now.decoder
                        },
                        sink: now.sink.pushed(
                            ChunkView::ToolCallArgsDelta { id: call.id, delta: arguments },
                        ),
                    }
                },
            }
        } else {
            Reading {
                sink: now.sink.failed(
                    "a tool call fragment arrived for index "@ + decimal_of(delta.index as nat)
                        + " before any call id"@,
                ),
                ..now
            }
        }
    }

    /// With the fragments from `k` on, up to the first that ends the stream; and whether none
    /// did.
    pub open spec fn calls_changed(self, deltas: Seq<ToolCallDelta>, k: int) -> (Reading, bool)
        decreases deltas.len() - k,
    {
        if k < 0 || k >= deltas.len() {
            (self, true)
        } else {
            let now = self.call_changed(deltas[k]);
            if now.sink.complete {
                (now, false)
            } else {
                now.calls_changed(deltas, k + 1)
            }
        }
    }

    /// With a choice: its reasoning, its text, the fragments of its calls, and its end.
    pub open spec fn chosen(self, choice: ReplyChoice) -> Reading {
        let thought = match said(choice.reasoning_content) {
            Some(t) => self.sink.pushed(ChunkView::ThinkingDelta(t)),
            None => self.sink,
        };
        let spoken = match said(choice.content) {
            Some(t) => thought.pushed(ChunkView::TextDelta(t)),
            None => thought,
        };
        let (now, goes_on) = Reading { sink: spoken, ..self }.calls_changed(
            choice.tool_calls@,
            0,
        );
        if !goes_on {
            now
        } else {
            match choice.finish_reason {
                None => now,
                Some(reason) => Reading {
                    decoder: DecoderView {
                        calls: Map::empty(),
                        stop: Some(stop_of(reason@)),
                        ..now.decoder
                    },
                    sink: all_ended(now.sink, now.decoder.calls),
                },
            }
        }
    }

    /// With the first `n` choices of a frame.
    pub open spec fn all_chosen(self, choices: Seq<ReplyChoice>) -> Reading
        decreases choices.len(),
    {
        if choices.len() == 0 {
            self
        } else {
            self.all_chosen(choices.drop_last()).chosen(choices.last())
        }
    }

    /// With counts. Some models repeat them; one report per call keeps accumulation additive.
    pub open spec fn counted(self, usage: Option<WireUsage>) -> Reading {
        match usage {
            Some(usage) => if self.decoder.usage_seen {
                self
            } else {
                Reading {
                    decoder: DecoderView { usage_seen: true, ..self.decoder },
                    sink: self.sink.pushed(ChunkView::Usage(usage_of(usage))),
                }
            },
            None => self,
        }
    }

    /// With one more frame.
    pub open spec fn next(self, chunk: ChatChunk) -> Reading {
        self.counted(chunk.usage).all_chosen(chunk.choices@)
    }

    /// At the end of the transport. One that ended without a finish reason was cut off, and the
    /// call may be repeated.
    pub open spec fn over(self) -> Reading {
        Reading {
            decoder: DecoderView { stop: None, ..self.decoder },
            sink: match self.decoder.stop {
                Some(stop) => self.sink.pushed(ChunkView::Done(stop)),
                None => self.sink.aborted(
                    ProviderErrorView::Transient(
                        "the chat-completions stream ended without a finish_reason"@,
                    ),
                ),
            },
        }
    }
}

impl Decoder {
    /// A decoder that has read nothing.
    pub fn new() -> (r: Decoder)
        ensures
            r@ == (DecoderView { calls: Map::empty(), stop: None, usage_seen: false }),
    {
        Decoder { calls: wire::OpenCalls::new(), stop: None, usage_seen: false }
    }

    fn on_tool_call(&mut self, delta: &ToolCallDelta, out: &mut Sink)
        ensures
            (Reading { decoder: final(self)@, sink: final(out)@ }) == (Reading {
                decoder: old(self)@,
                sink: old(out)@,
            }).call_changed(*delta),
            old(out)@.valid() ==> final(out)@.valid(),
    {
        if let Some(id) = spoken(&delta.id) {
            let name = match &delta.name {
                Some(name) => name.clone(),
                None => String::new(),
            };
            assert(delta.name is None ==> name@ =~= Seq::<char>::empty());
            self.calls.open(delta.index, id.as_str());
            out.push(StreamChunk::ToolCallStart { id, name });
        }
        let ghost calls = self.calls@;
        let fragment = spoken(&delta.arguments);
        let added = match &fragment {
            Some(fragment) => fragment.as_str(),
            None => "",
        };
        match self.calls.extend(delta.index, added) {
            None => {
                let number = text::decimal(delta.index as u64);
                out.fail(
                    text::concat3(
                        "a tool call fragment arrived for index ",
                        number.as_str(),
                        " before any call id",
                    ),
                );
            },
            Some(id) => {
                if let Some(fragment) = fragment {
                    out.push(StreamChunk::ToolCallArgsDelta { id, delta: fragment });
                } else {
                    proof {
                        reveal_strlit("");
                        let call = calls[delta.index];
                        assert(call.arguments + ""@ =~= call.arguments);
                        assert(self.calls@ =~= calls);
                    }
                }
            },
        }
    }

    fn close_calls(&mut self, out: &mut Sink)
        ensures
            final(self)@ == (DecoderView { calls: Map::empty(), ..old(self)@ }),
            final(out)@ == all_ended(old(out)@, old(self)@.calls),
            old(out)@.valid() ==> final(out)@.valid(),
    {
        let ghost start = self@;
        let ghost whole = all_ended(out@, self@.calls);
        let ghost fine = out@.valid();
        let mut going = true;
        loop
            invariant
                going ==> whole == all_ended(out@, self@.calls),
                !going ==> whole == out@,
                self@.stop == start.stop,
                self@.usage_seen == start.usage_seen,
                fine ==> out@.valid(),
            ensures
                whole == out@,
                self@.calls == Map::<usize, wire::OpenCallView>::empty(),
                self@.stop == start.stop,
                self@.usage_seen == start.usage_seen,
                fine ==> out@.valid(),
            decreases self@.calls.dom().len(),
        {
            match self.calls.close_first() {
                None => {
                    assert(!self@.calls.contains_key(wire::first_index(self@.calls)));
                    break;
                },
                Some(call) => {
                    if going {
                        going = wire::end_call(call, out);
                    }
                },
            }
        }
    }

    fn on_choice(&mut self, choice: &ReplyChoice, out: &mut Sink)
        ensures
            (Reading { decoder: final(self)@, sink: final(out)@ }) == (Reading {
                decoder: old(self)@,
                sink: old(out)@,
            }).chosen(*choice),
            old(out)@.valid() ==> final(out)@.valid(),
    {
        if let Some(t) = spoken(&choice.reasoning_content) {
            out.push(StreamChunk::ThinkingDelta(t));
        }
        if let Some(t) = spoken(&choice.content) {
            out.push(StreamChunk::TextDelta(t));
        }
        let ghost begun = Reading { decoder: self@, sink: out@ };
        let ghost whole = begun.calls_changed(choice.tool_calls@, 0);
        let ghost expected = (Reading { decoder: old(self)@, sink: old(out)@ }).chosen(*choice);
        let mut k: usize = 0;
        while k < choice.tool_calls.len()
            invariant
                k <= choice.tool_calls.len(),
                whole == (Reading { decoder: self@, sink: out@ }).calls_changed(
                    choice.tool_calls@,
                    k as int,
                ),
                whole == begun.calls_changed(choice.tool_calls@, 0),
                !whole.1 ==> expected == whole.0,
                expected == (Reading { decoder: old(self)@, sink: old(out)@ }).chosen(*choice),
                old(out)@.valid() ==> out@.valid(),
            decreases choice.tool_calls.len() - k,
        {
            self.on_tool_call(&choice.tool_calls[k], out);
            if out.is_complete() {
                return ;
            }
            k += 1;
        }
        if let Some(reason) = &choice.finish_reason {
            self.close_calls(out);
            self.stop = Some(stop_reason(reason.as_str()));
        }
    }

    /// Reads one frame.
    pub fn on_frame(&mut self, chunk: &ChatChunk, out: &mut Sink)
        ensures
            (Reading { decoder: final(self)@, sink: final(out)@ }) == (Reading {
                decoder: old(self)@,
                sink: old(out)@,
            }).next(*chunk),
            old(out)@.valid() ==> final(out)@.valid(),
    {
        if let Some(usage) = &chunk.usage {
            if !self.usage_seen {
                self.usage_seen = true;
                out.push(StreamChunk::Usage(usage.usage()));
            }
        }
        let ghost begun = Reading { decoder: self@, sink: out@ };
        let ghost all = chunk.choices@;
        let mut i: usize = 0;
        assert(all.take(0) =~= Seq::empty());
        while i < chunk.choices.len()
            invariant
                i <= chunk.choices.len(),
                all == chunk.choices@,
                (Reading { decoder: self@, sink: out@ }) == begun.all_chosen(all.take(i as int)),
                old(out)@.valid() ==> out@.valid(),
            decreases chunk.choices.len() - i,
        {
            assert(all.take(i as int + 1).drop_last() =~= all.take(i as int));
            self.on_choice(&chunk.choices[i], out);
            i += 1;
        }
        assert(all.take(i as int) =~= all);
    }

    /// A frame that did not decode.
    pub fn on_undecodable(&mut self, error: &str, out: &mut Sink)
        ensures
            final(self)@ == old(self)@,
            final(out)@ == old(out)@.failed("undecodable chat-completions frame: "@ + error@),
            old(out)@.valid() ==> final(out)@.valid(),
    {
        out.fail(text::concat("undecodable chat-completions frame: ", error));
    }

    /// The marker that ends the stream, or the end of the transport.
    pub fn on_end(&mut self, out: &mut Sink)
        ensures
            (Reading { decoder: final(self)@, sink: final(out)@ }) == (Reading {
                decoder: old(self)@,
                sink: old(out)@,
            }).over(),
            old(out)@.valid() ==> final(out)@.valid(),
    {
        match self.stop.take() {
            Some(stop) => {
                out.finish(stop);
            },
            None => {
                out.truncated("the chat-completions stream ended without a finish_reason");
            },
        }
    }
}

// Laws.

/// A fragment that has an id starts its call: the stream grows by the start of a call with that id
/// and with the fragment's own name, and then by the arguments the fragment has, if any, under the
/// same id. The call stands under the fragment's index with just those arguments, and nothing else
/// changes.
pub proof fn a_fragment_with_an_id_starts_its_call(reading: Reading, delta: ToolCallDelta)
    requires
        !reading.sink.complete,
        delta.id is Some,
        delta.id->0@.len() > 0,
    ensures
        ({
            let next = reading.call_changed(delta);
            let id = delta.id->0@;
            let name = if delta.name is Some {
                delta.name->0@
            } else {
                Seq::empty()
            };
            let arguments = if delta.arguments is Some {
                delta.arguments->0@
            } else {
                Seq::empty()
            };
            let old_items = reading.sink.items;
            &&& next.sink.items.len() == old_items.len() + (if arguments.len() > 0 {
                2int
            } else {
                1int
            })
            &&& next.sink.items.take(old_items.len() as int) == old_items
            &&& next.sink.items[old_items.len() as int] == Ok::<ChunkView, ProviderErrorView>(
                ChunkView::ToolCallStart { id, name },
            )
            &&& arguments.len() > 0 ==> next.sink.items.last() == Ok::<ChunkView, ProviderErrorView>(
                ChunkView::ToolCallArgsDelta { id, delta: arguments },
            )
            &&& !next.sink.complete
            &&& next.decoder.calls.dom() == reading.decoder.calls.dom().insert(delta.index)
            &&& next.decoder.calls[delta.index].id == id
            &&& next.decoder.calls[delta.index].arguments == arguments
            &&& forall|other: usize|
                other != delta.index && reading.decoder.calls.contains_key(other)
                    ==> #[trigger] next.decoder.calls[other] == reading.decoder.calls[other]
            &&& next.decoder.stop == reading.decoder.stop
            &&& next.decoder.usage_seen == reading.decoder.usage_seen
        }),
{
    let next = reading.call_changed(delta);
    assert(next.sink.items.take(reading.sink.items.len() as int) =~= reading.sink.items);
    assert(next.decoder.calls.dom() =~= reading.decoder.calls.dom().insert(delta.index));
    assert(Seq::<char>::empty() + delta.arguments->0@ =~= delta.arguments->0@);
    if delta.arguments is Some && delta.arguments->0@.len() == 0 {
        assert(delta.arguments->0@ =~= Seq::<char>::empty());
    }
}

/// A fragment without an id goes on with the call of its index: the stream grows by its arguments,
/// if any, under the id that the call was started with, and they stand behind those the call had.
/// Where no call of its index was started the stream ends with a failure, and nothing else
/// happens.
pub proof fn a_fragment_without_an_id_goes_on_with_its_call(reading: Reading, delta: ToolCallDelta)
    requires
        !reading.sink.complete,
        delta.id is None || delta.id->0@.len() == 0,
    ensures
        ({
            let next = reading.call_changed(delta);
            let arguments = if delta.arguments is Some {
                delta.arguments->0@
            } else {
                Seq::empty()
            };
            if reading.decoder.calls.contains_key(delta.index) {
                let call = reading.decoder.calls[delta.index];
                &&& next.sink.items == (if arguments.len() > 0 {
                    reading.sink.items.push(
                        Ok(ChunkView::ToolCallArgsDelta { id: call.id, delta: arguments }),
                    )
                } else {
                    reading.sink.items
                })
                &&& !next.sink.complete
                &&& next.decoder.calls.dom() == reading.decoder.calls.dom()
                &&& next.decoder.calls[delta.index].id == call.id
                &&& next.decoder.calls[delta.index].arguments == call.arguments + arguments
                &&& forall|other: usize|
                    other != delta.index && reading.decoder.calls.contains_key(other)
                        ==> #[trigger] next.decoder.calls[other] == reading.decoder.calls[other]
                &&& next.decoder.stop == reading.decoder.stop
                &&& next.decoder.usage_seen == reading.decoder.usage_seen
            } else {
                &&& next.sink.items.len() == reading.sink.items.len() + 1
                &&& next.sink.items.drop_last() == reading.sink.items
                &&& next.sink.items.last() matches Err(ProviderErrorView::Protocol(_))
                &&& next.sink.complete
                &&& next.decoder == reading.decoder
            }
        }),
{
    let next = reading.call_changed(delta);
    if reading.decoder.calls.contains_key(delta.index) {
        let call = reading.decoder.calls[delta.index];
        assert(next.decoder.calls.dom() =~= reading.decoder.calls.dom());
        assert(call.arguments + Seq::<char>::empty() =~= call.arguments);
        if delta.arguments is Some && delta.arguments->0@.len() == 0 {
            assert(delta.arguments->0@ =~= Seq::<char>::empty());
        }
    } else {
        assert(next.sink.items.drop_last() =~= reading.sink.items);
    }
}

/// The fragments of a choice are read one after the other, each where the one before left off, to
/// the last one or to the one that ends the stream.
pub proof fn fragments_are_read_in_turn(reading: Reading, deltas: Seq<ToolCallDelta>, k: int) -> (
    states: Seq<Reading>)
    requires
        0 <= k <= deltas.len(),
    ensures
        1 <= states.len() <= deltas.len() - k + 1,
        states.first() == reading,
        states.last() == reading.calls_changed(deltas, k).0,
        reading.calls_changed(deltas, k).1 ==> states.len() == deltas.len() - k + 1,
        !reading.calls_changed(deltas, k).1 ==> states.last().sink.complete,
        forall|i: int|
            0 <= i < states.len() - 1 ==> #[trigger] states[i + 1] == states[i].call_changed(
                deltas[k + i],
            ),
        forall|i: int|
            0 < i < states.len() - 1 ==> !(#[trigger] states[i]).sink.complete,
    decreases deltas.len() - k,
{
    if k >= deltas.len() {
        seq![reading]
    } else {
        let now = reading.call_changed(deltas[k]);
        if now.sink.complete {
            seq![reading, now]
        } else {
            let rest = fragments_are_read_in_turn(now, deltas, k + 1);
            let states = seq![reading] + rest;
            assert forall|i: int| 0 <= i < states.len() - 1 implies #[trigger] states[i + 1]
                == states[i].call_changed(deltas[k + i]) by {
                if i > 0 {
                    assert(rest[i - 1 + 1] == rest[i - 1].call_changed(deltas[k + 1 + (i - 1)]));
                }
            }
            assert forall|i: int| 0 < i < states.len() - 1 implies !(#[trigger]
            states[i]).sink.complete by {
                assert(states[i] == rest[i - 1]);
            }
            states
        }
    }
}

/// What a choice says comes first: its reasoning and then its text, each where there is any. The
/// fragments of its calls follow, and a finish reason comes last: it is kept for the end, the open
/// calls are ended, and none stays open. Without one, the fragments are all there is.
pub proof fn a_choice_says_its_words_first(reading: Reading, choice: ReplyChoice)
    requires
        !reading.sink.complete,
    ensures
        ({
            let next = reading.chosen(choice);
            let thought: Seq<Result<ChunkView, ProviderErrorView>> =
                if choice.reasoning_content is Some && choice.reasoning_content->0@.len() > 0 {
                seq![Ok(ChunkView::ThinkingDelta(choice.reasoning_content->0@))]
            } else {
                Seq::empty()
            };
            let text: Seq<Result<ChunkView, ProviderErrorView>> = if choice.content is Some
                && choice.content->0@.len() > 0 {
                seq![Ok(ChunkView::TextDelta(choice.content->0@))]
            } else {
                Seq::empty()
            };
            let begun = Reading {
                decoder: reading.decoder,
                sink: SinkView { items: reading.sink.items + thought + text, complete: false },
            };
            let (read, goes_on) = begun.calls_changed(choice.tool_calls@, 0);
            if !goes_on {
                next == read
            } else if choice.finish_reason is None {
                next == read
            } else {
                &&& next.decoder.calls.dom() == Set::<usize>::empty()
                &&& next.decoder.stop == Some(stop_of(choice.finish_reason->0@))
                &&& next.decoder.usage_seen == read.decoder.usage_seen
                &&& next.sink == all_ended(read.sink, read.decoder.calls)
            }
        }),
{
    let empty = Seq::<Result<ChunkView, ProviderErrorView>>::empty();
    let items = reading.sink.items;
    let thought = match said(choice.reasoning_content) {
        Some(t) => items.push(Ok(ChunkView::ThinkingDelta(t))),
        None => items,
    };
    assert(items + empty =~= items);
    assert(thought + empty =~= thought);
    assert(Map::<usize, wire::OpenCallView>::empty().dom() =~= Set::empty());
    if let Some(t) = said(choice.reasoning_content) {
        assert(items + seq![Ok::<ChunkView, ProviderErrorView>(ChunkView::ThinkingDelta(t))]
            =~= thought);
    }
    if let Some(t) = said(choice.content) {
        let chunk = Ok::<ChunkView, ProviderErrorView>(ChunkView::TextDelta(t));
        assert(thought + seq![chunk] =~= thought.push(chunk));
    }
}

/// Whether some places are those of all open calls, in their order.
pub open spec fn in_order(calls: Map<usize, wire::OpenCallView>, places: Seq<usize>) -> bool {
    &&& forall|i: int, j: int| 0 <= i < j < places.len() ==> places[i] < places[j]
    &&& forall|place: usize| #[trigger] calls.contains_key(place) <==> places.contains(place)
}

/// Where the arguments of all open calls parse, every call is ended just once, in the order of
/// their places.
pub proof fn every_open_call_is_ended_in_order(
    sink: SinkView,
    calls: Map<usize, wire::OpenCallView>,
) -> (places: Seq<usize>)
    requires
        !sink.complete,
        calls.dom().finite(),
        forall|place: usize|
            calls.contains_key(place) ==> arguments_fault((#[trigger] calls[place]).arguments) is None,
    ensures
        in_order(calls, places),
        all_ended(sink, calls).items == sink.items + places.map_values(
            |place: usize|
                Ok::<ChunkView, ProviderErrorView>(ChunkView::ToolCallEnd { id: calls[place].id }),
        ),
        !all_ended(sink, calls).complete,
    decreases calls.dom().len(),
{
    let index = wire::first_index(calls);
    let end = |place: usize|
        Ok::<ChunkView, ProviderErrorView>(ChunkView::ToolCallEnd { id: calls[place].id });
    wire::lemma_first_index(calls);
    if !calls.contains_key(index) {
        let places = Seq::<usize>::empty();
        assert(sink.items + places.map_values(end) =~= sink.items);
        places
    } else {
        let fewer = calls.remove(index);
        let now = wire::ended(sink, calls[index]);
        assert forall|place: usize| fewer.contains_key(place) implies arguments_fault(
            (#[trigger] fewer[place]).arguments,
        ) is None by {
            assert(fewer[place] == calls[place]);
        }
        let rest = every_open_call_is_ended_in_order(now, fewer);
        let places = seq![index] + rest;
        assert forall|place: usize| #[trigger] calls.contains_key(place) <==> places.contains(
            place,
        ) by {
            if calls.contains_key(place) {
                if place == index {
                    assert(places[0] == place);
                } else {
                    assert(fewer.contains_key(place));
                    let i = rest.index_of(place);
                    assert(places[i + 1] == place);
                }
            }
            if places.contains(place) {
                let i = places.index_of(place);
                if i > 0 {
                    assert(rest[i - 1] == place);
                    assert(fewer.contains_key(place));
                }
            }
        }
        assert forall|i: int, j: int| 0 <= i < j < places.len() implies places[i] < places[j] by {
            assert(rest.contains(rest[j - 1]));
            assert(fewer.contains_key(places[j]));
            assert(calls.contains_key(places[j]));
        }
        let later = |place: usize|
            Ok::<ChunkView, ProviderErrorView>(ChunkView::ToolCallEnd { id: fewer[place].id });
        assert forall|i: int| 0 <= i < rest.len() implies #[trigger] rest.map_values(later)[i]
            == places.map_values(end)[i + 1] by {
            assert(rest.contains(rest[i]));
            assert(fewer.contains_key(rest[i]));
        }
        assert(now.items + rest.map_values(later) =~= sink.items + places.map_values(end));
        places
    }
}

/// The counts are reported as the wire has them, and once: the first that come are added to the
/// stream, and any that follow are not.
pub proof fn counts_are_reported_once(reading: Reading, usage: WireUsage)
    requires
        !reading.sink.complete,
    ensures
        ({
            let next = reading.counted(Some(usage));
            &&& next.decoder.usage_seen
            &&& next.decoder.calls == reading.decoder.calls
            &&& next.decoder.stop == reading.decoder.stop
            &&& reading.decoder.usage_seen ==> next.sink == reading.sink
            &&& !reading.decoder.usage_seen ==> {
                &&& next.sink.items.len() == reading.sink.items.len() + 1
                &&& next.sink.items.drop_last() == reading.sink.items
                &&& next.sink.items.last() matches Ok(ChunkView::Usage(counts)) && {
                    &&& counts.input_tokens == usage.prompt_tokens
                    &&& counts.output_tokens == usage.completion_tokens
                    &&& counts.cached_input_tokens == usage.cached_tokens.unwrap_or(0)
                    &&& counts.reasoning_tokens == usage.reasoning_tokens.unwrap_or(0)
                }
            }
        }),
        reading.counted(None) == reading,
        reading.counted(Some(usage)).counted(Some(usage)) == reading.counted(Some(usage)),
{
    let next = reading.counted(Some(usage));
    if !reading.decoder.usage_seen {
        assert(next.sink.items.drop_last() =~= reading.sink.items);
    }
}

/// Every choice of a frame is read, in order, behind the frame's counts.
pub proof fn a_frame_is_read_choice_by_choice(reading: Reading, chunk: ChatChunk)
    ensures
        chunk.choices@.len() == 0 ==> reading.next(chunk) == reading.counted(chunk.usage),
        chunk.choices@.len() == 1 ==> reading.next(chunk) == reading.counted(chunk.usage).chosen(
            chunk.choices@[0],
        ),
        reading.next(chunk) == chunk.choices@.fold_left(
            reading.counted(chunk.usage),
            |now: Reading, choice: ReplyChoice| now.chosen(choice),
        ),
{
    lemma_choices(reading.counted(chunk.usage), chunk.choices@);
    reveal_with_fuel(Reading::all_chosen, 2);
}

proof fn lemma_choices(reading: Reading, choices: Seq<ReplyChoice>)
    ensures
        reading.all_chosen(choices) == choices.fold_left(
            reading,
            |now: Reading, choice: ReplyChoice| now.chosen(choice),
        ),
    decreases choices.len(),
{
    reveal_with_fuel(Seq::fold_left, 2);
    if choices.len() > 0 {
        lemma_choices(reading, choices.drop_last());
    }
}

/// A reply that named why it stopped ends with that, and one that was cut off ends with a failure
/// worth repeating; either way the stream is over.
pub proof fn a_reply_ends_with_why_it_stopped(reading: Reading)
    requires
        !reading.sink.complete,
    ensures
        ({
            let next = reading.over();
            &&& next.sink.complete
            &&& next.sink.items.len() == reading.sink.items.len() + 1
            &&& next.sink.items.drop_last() == reading.sink.items
            &&& match next.sink.items.last() {
                Ok(ChunkView::Done(stop)) => reading.decoder.stop == Some(stop),
                Err(ProviderErrorView::Transient(_)) => reading.decoder.stop is None,
                _ => false,
            }
        }),
{
    assert(reading.over().sink.items.drop_last() =~= reading.sink.items);
}

/// Which finish reasons stand for what: just two stand for a call, two for a reply that was cut
/// short, one for a refusal and two for a reply that was called off. Every other one ended the
/// turn.
pub proof fn finish_reasons_are_told_apart(reason: Seq<char>)
    ensures
        stop_of(reason) is ToolUse <==> (reason == "tool_calls"@ || reason == "function_call"@),
        stop_of(reason) is MaxTokens <==> (reason == "length"@ || reason == "max_tokens"@),
        stop_of(reason) is Refusal <==> reason == "content_filter"@,
        stop_of(reason) is Cancelled <==> (reason == "cancelled"@ || reason == "aborted"@),
{
    reveal_strlit("tool_calls");
    reveal_strlit("function_call");
    reveal_strlit("length");
    reveal_strlit("max_tokens");
    reveal_strlit("content_filter");
    reveal_strlit("cancelled");
    reveal_strlit("aborted");
    assert("tool_calls"@.len() == 10 && "function_call"@.len() == 13 && "length"@.len() == 6);
    assert("max_tokens"@.len() == 10 && "content_filter"@.len() == 14);
    assert("cancelled"@.len() == 9 && "aborted"@.len() == 7);
    assert("tool_calls"@[0] == 't' && "max_tokens"@[0] == 'm');
}

/// The tool results of a message are sent as messages of their own, one for each and in their
/// order, that name the call they answer and hold what the result shows the model.
pub proof fn every_tool_result_is_a_message(content: Seq<BlockView>)
    ensures
        results_of(content) == content.filter(|b: BlockView| b is ToolResult).map_values(
            |b: BlockView|
                JsonView::Object(
                    seq![
                        ("role"@, JsonView::Text("tool"@)),
                        ("tool_call_id"@, JsonView::Text(b->ToolResult_0.id)),
                        ("content"@, JsonView::Text(result_text_of(b->ToolResult_0.content))),
                    ],
                ),
        ),
    decreases content.len(),
{
    let keep = |b: BlockView| b is ToolResult;
    let json = |b: BlockView|
        JsonView::Object(
            seq![
                ("role"@, JsonView::Text("tool"@)),
                ("tool_call_id"@, JsonView::Text(b->ToolResult_0.id)),
                ("content"@, JsonView::Text(result_text_of(b->ToolResult_0.content))),
            ],
        );
    reveal(Seq::filter);
    if content.len() > 0 {
        let init = content.drop_last();
        every_tool_result_is_a_message(init);
        if content.last() is ToolResult {
            assert(init.filter(keep).push(content.last()).map_values(json) =~= init.filter(
                keep,
            ).map_values(json).push(json(content.last())));
        }
    }
    assert(results_of(content) =~= content.filter(keep).map_values(json));
}

/// The tool calls of a message hang off it one for each and in their order, under their ids and
/// names, with the arguments as text.
pub proof fn every_tool_call_is_sent(content: Seq<BlockView>)
    ensures
        calls_of(content) == content.filter(|b: BlockView| b is ToolCall).map_values(
            |b: BlockView|
                JsonView::Object(
                    seq![
                        ("id"@, JsonView::Text(b->ToolCall_0.id)),
                        ("type"@, JsonView::Text("function"@)),
                        (
                            "function"@,
                            JsonView::Object(
                                seq![
                                    ("name"@, JsonView::Text(b->ToolCall_0.name)),
                                    (
                                        "arguments"@,
                                        JsonView::Text(
                                            if b->ToolCall_0.arguments is Text {
                                                b->ToolCall_0.arguments->Text_0
                                            } else {
                                                wire::spelled(b->ToolCall_0.arguments)
                                            },
                                        ),
                                    ),
                                ],
                            ),
                        ),
                    ],
                ),
        ),
    decreases content.len(),
{
    let keep = |b: BlockView| b is ToolCall;
    let json = |b: BlockView|
        JsonView::Object(
            seq![
                ("id"@, JsonView::Text(b->ToolCall_0.id)),
                ("type"@, JsonView::Text("function"@)),
                (
                    "function"@,
                    JsonView::Object(
                        seq![
                            ("name"@, JsonView::Text(b->ToolCall_0.name)),
                            (
                                "arguments"@,
                                JsonView::Text(
                                    if b->ToolCall_0.arguments is Text {
                                        b->ToolCall_0.arguments->Text_0
                                    } else {
                                        wire::spelled(b->ToolCall_0.arguments)
                                    },
                                ),
                            ),
                        ],
                    ),
                ),
            ],
        );
    reveal(Seq::filter);
    if content.len() > 0 {
        let init = content.drop_last();
        every_tool_call_is_sent(init);
        if let BlockView::ToolCall(call) = content.last() {
            assert(json(content.last()) == call_json(call.id, call.name, call.arguments));
            assert(init.filter(keep).push(content.last()).map_values(json) =~= init.filter(
                keep,
            ).map_values(json).push(json(content.last())));
        }
    }
    assert(calls_of(content) =~= content.filter(keep).map_values(json));
}

/// What a user says is sent part by part and in order: each text and each reasoning as text, each
/// image as its address, and nothing else.
pub proof fn every_part_of_a_message_is_sent(content: Seq<BlockView>)
    ensures
        parts_of(content) == content.filter(
            |b: BlockView| b is Text || b is Thinking || b is Image,
        ).map_values(
            |b: BlockView|
                match b {
                    BlockView::Image(image) => JsonView::Object(
                        seq![
                            ("type"@, JsonView::Text("image_url"@)),
                            (
                                "image_url"@,
                                JsonView::Object(
                                    seq![
                                        (
                                            "url"@,
                                            JsonView::Text(
                                                "data:"@ + image.media_type + ";base64,"@
                                                    + image.data,
                                            ),
                                        ),
                                    ],
                                ),
                            ),
                        ],
                    ),
                    _ => JsonView::Object(
                        seq![
                            ("type"@, JsonView::Text("text"@)),
                            (
                                "text"@,
                                JsonView::Text(
                                    if b is Text {
                                        b->Text_text
                                    } else {
                                        b->Thinking_text
                                    },
                                ),
                            ),
                        ],
                    ),
                },
        ),
    decreases content.len(),
{
    let keep = |b: BlockView| b is Text || b is Thinking || b is Image;
    let json = |b: BlockView|
        match b {
            BlockView::Image(image) => JsonView::Object(
                seq![
                    ("type"@, JsonView::Text("image_url"@)),
                    (
                        "image_url"@,
                        JsonView::Object(
                            seq![
                                (
                                    "url"@,
                                    JsonView::Text(
                                        "data:"@ + image.media_type + ";base64,"@ + image.data,
                                    ),
                                ),
                            ],
                        ),
                    ),
                ],
            ),
            _ => JsonView::Object(
                seq![
                    ("type"@, JsonView::Text("text"@)),
                    (
                        "text"@,
                        JsonView::Text(
                            if b is Text {
                                b->Text_text
                            } else {
                                b->Thinking_text
                            },
                        ),
                    ),
                ],
            ),
        };
    reveal(Seq::filter);
    if content.len() > 0 {
        let init = content.drop_last();
        every_part_of_a_message_is_sent(init);
        if keep(content.last()) {
            assert(init.filter(keep).push(content.last()).map_values(json) =~= init.filter(
                keep,
            ).map_values(json).push(json(content.last())));
        }
    }
    assert(parts_of(content) =~= content.filter(keep).map_values(json));
}

/// The texts of the blocks that a choice of them keeps, one after the other.
proof fn lemma_reasoning(content: Seq<BlockView>)
    ensures
        reasoning_of(content) == content.map_values(
            |b: BlockView|
                if b is Thinking {
                    b->Thinking_text
                } else {
                    Seq::empty()
                },
        ).flatten(),
        text_of(content) == content.map_values(
            |b: BlockView|
                if b is Text {
                    b->Text_text
                } else {
                    Seq::empty()
                },
        ).flatten(),
    decreases content.len(),
{
    let thought = |b: BlockView|
        if b is Thinking {
            b->Thinking_text
        } else {
            Seq::<char>::empty()
        };
    let text = |b: BlockView|
        if b is Text {
            b->Text_text
        } else {
            Seq::<char>::empty()
        };
    if content.len() == 0 {
        assert(content.map_values(thought) =~= Seq::empty());
        assert(content.map_values(text) =~= Seq::empty());
    } else {
        let init = content.drop_last();
        let last = content.last();
        lemma_reasoning(init);
        assert(content.map_values(thought) =~= init.map_values(thought).push(thought(last)));
        assert(content.map_values(text) =~= init.map_values(text).push(text(last)));
        init.map_values(thought).lemma_flatten_push(thought(last));
        init.map_values(text).lemma_flatten_push(text(last));
        assert(reasoning_of(content) =~= reasoning_of(init) + thought(last));
        assert(text_of(content) =~= text_of(init) + text(last));
    }
}

/// An assistant message is sent first, with the results it carries behind it: it says the message's
/// text as its content, its reasoning where it has any, and its calls where it has any.
pub proof fn an_assistant_says_all_of_its_message(message: MessageView)
    requires
        message.role == Role::Assistant,
    ensures
        ({
            let sent = messages_of(message);
            let text = message.content.map_values(
                |b: BlockView|
                    if b is Text {
                        b->Text_text
                    } else {
                        Seq::empty()
                    },
            ).flatten();
            let thought = message.content.map_values(
                |b: BlockView|
                    if b is Thinking {
                        b->Thinking_text
                    } else {
                        Seq::empty()
                    },
            ).flatten();
            let calls = calls_of(message.content);
            &&& sent.len() == 1 + results_of(message.content).len()
            &&& sent.skip(1) == results_of(message.content)
            &&& wire::says(sent[0], "role"@, JsonView::Text("assistant"@))
            &&& wire::says(sent[0], "content"@, JsonView::Text(text))
            &&& thought.len() > 0 ==> wire::says(
                sent[0],
                "reasoning_content"@,
                JsonView::Text(thought),
            )
            &&& thought.len() == 0 ==> wire::is_silent(sent[0], "reasoning_content"@)
            &&& calls.len() > 0 ==> wire::says(sent[0], "tool_calls"@, JsonView::Array(calls))
            &&& calls.len() == 0 ==> wire::is_silent(sent[0], "tool_calls"@)
        }),
{
    let content = message.content;
    lemma_reasoning(content);
    assert(messages_of(message).skip(1) =~= results_of(content));
    reveal_strlit("role");
    reveal_strlit("content");
    reveal_strlit("reasoning_content");
    reveal_strlit("tool_calls");
    let none = Seq::<(Seq<char>, JsonView)>::empty();
    let role = ("role"@, JsonView::Text("assistant"@));
    let said = ("content"@, JsonView::Text(text_of(content)));
    assert("role"@.len() == 4 && "content"@.len() == 7);
    assert("reasoning_content"@.len() == 17 && "tool_calls"@.len() == 10);
    assert(wire::is_silent(JsonView::Object(none), "content"@));
    assert(wire::is_silent(JsonView::Object(none), "reasoning_content"@));
    assert(wire::is_silent(JsonView::Object(none), "tool_calls"@));
    wire::lemma_says_more(none, role.0, role.1);
    wire::lemma_says_more(none.push(role), said.0, said.1);
    let head = none.push(role).push(said);
    assert(head =~= seq![role, said]);
    let thought = if reasoning_of(content).len() > 0 {
        let member = ("reasoning_content"@, JsonView::Text(reasoning_of(content)));
        wire::lemma_says_more(head, member.0, member.1);
        head.push(member)
    } else {
        head
    };
    if calls_of(content).len() > 0 {
        wire::lemma_says_more(thought, "tool_calls"@, JsonView::Array(calls_of(content)));
    }
}

/// A message of the user or of a tool is sent results first, and then as one message of the user
/// with all its parts, where it has any. A system message says its text, where it has any.
pub proof fn other_messages_are_sent_as_they_are(message: MessageView)
    requires
        message.role != Role::Assistant,
    ensures
        ({
            let sent = messages_of(message);
            let results = results_of(message.content);
            let parts = parts_of(message.content);
            let text = message.content.map_values(
                |b: BlockView|
                    if b is Text {
                        b->Text_text
                    } else {
                        Seq::empty()
                    },
            ).flatten();
            &&& message.role == Role::System && text.len() == 0 ==> sent.len() == 0
            &&& message.role == Role::System && text.len() > 0 ==> sent.len() == 1 && wire::says(
                sent[0],
                "role"@,
                JsonView::Text("system"@),
            ) && wire::says(sent[0], "content"@, JsonView::Text(text))
            &&& message.role != Role::System && parts.len() == 0 ==> sent == results
            &&& message.role != Role::System && parts.len() > 0 ==> {
                &&& sent.len() == results.len() + 1
                &&& sent.drop_last() == results
                &&& wire::says(sent.last(), "role"@, JsonView::Text("user"@))
                &&& wire::says(sent.last(), "content"@, JsonView::Array(parts))
            }
        }),
{
    lemma_reasoning(message.content);
    let sent = messages_of(message);
    let results = results_of(message.content);
    reveal_strlit("role");
    reveal_strlit("content");
    assert("role"@.len() == 4 && "content"@.len() == 7);
    let none = Seq::<(Seq<char>, JsonView)>::empty();
    let (role, said) = if message.role == Role::System {
        (JsonView::Text("system"@), JsonView::Text(text_of(message.content)))
    } else {
        (JsonView::Text("user"@), JsonView::Array(parts_of(message.content)))
    };
    assert(wire::is_silent(JsonView::Object(none), "content"@));
    wire::lemma_says_more(none, "role"@, role);
    wire::lemma_says_more(none.push(("role"@, role)), "content"@, said);
    assert(none.push(("role"@, role)).push(("content"@, said)) =~= seq![
        ("role"@, role),
        ("content"@, said),
    ]);
    if sent.len() > 0 {
        assert(message.role != Role::System && parts_of(message.content).len() > 0
            ==> sent.drop_last() =~= results);
    }
}

/// A conversation is sent message by message and in order, behind the system prompt.
pub proof fn every_message_is_sent(system: Option<Seq<char>>, messages: Seq<MessageView>)
    ensures
        all_messages(system, messages) == (match system {
            Some(prompt) => seq![
                JsonView::Object(
                    seq![
                        ("role"@, JsonView::Text("system"@)),
                        ("content"@, JsonView::Text(prompt)),
                    ],
                ),
            ],
            None => Seq::empty(),
        }) + messages.map_values(|m: MessageView| messages_of(m)).flatten(),
    decreases messages.len(),
{
    let f = |m: MessageView| messages_of(m);
    if messages.len() == 0 {
        assert(messages.map_values(f) =~= Seq::empty());
        assert(all_messages(system, messages) + Seq::<JsonView>::empty() =~= all_messages(
            system,
            messages,
        ));
    } else {
        let init = messages.drop_last();
        every_message_is_sent(system, init);
        assert(messages.map_values(f) =~= init.map_values(f).push(f(messages.last())));
        init.map_values(f).lemma_flatten_push(f(messages.last()));
        assert(all_messages(system, messages) =~= (match system {
            Some(prompt) => seq![plain_message("system"@, prompt)],
            None => Seq::empty(),
        }) + messages.map_values(f).flatten());
    }
}

/// The body says what the request asks: its model, its conversation and whether to stream; and its
/// tools, its budget, its temperature and its effort, each just where the request has one. A
/// stream is asked to end with its counts.
pub proof fn the_body_says_what_is_asked(request: RequestView, stream: bool)
    ensures
        ({
            let body = JsonView::Object(body_of(request, stream));
            &&& wire::says(body, "model"@, JsonView::Text(request.model))
            &&& wire::says(
                body,
                "messages"@,
                JsonView::Array(all_messages(request.system, request.messages)),
            )
            &&& wire::says(body, "stream"@, JsonView::Bool(stream))
            &&& stream ==> wire::says(
                body,
                "stream_options"@,
                JsonView::Object(seq![("include_usage"@, JsonView::Bool(true))]),
            )
            &&& !stream ==> wire::is_silent(body, "stream_options"@)
            &&& request.tools.len() == 0 ==> wire::is_silent(body, "tools"@)
            &&& request.tools.len() > 0 ==> wire::says(
                body,
                "tools"@,
                JsonView::Array(
                    request.tools.map_values(
                        |tool: ToolSpecView|
                            JsonView::Object(
                                seq![
                                    ("type"@, JsonView::Text("function"@)),
                                    (
                                        "function"@,
                                        JsonView::Object(
                                            seq![
                                                ("name"@, JsonView::Text(tool.name)),
                                                ("description"@, JsonView::Text(tool.description)),
                                                ("parameters"@, tool.input_schema),
                                            ],
                                        ),
                                    ),
                                ],
                            ),
                    ),
                ),
            )
            &&& match request.max_output_tokens {
                Some(max) => wire::says(
                    body,
                    "max_tokens"@,
                    JsonView::Number(decimal_of(max as nat)),
                ),
                None => wire::is_silent(body, "max_tokens"@),
            }
            &&& match request.temperature {
                Some(t) => wire::says(body, "temperature"@, JsonView::Number(t)),
                None => wire::is_silent(body, "temperature"@),
            }
            &&& match request.reasoning_effort {
                Some(effort) => wire::says(
                    body,
                    "reasoning_effort"@,
                    JsonView::Text(effort_word(effort)),
                ),
                None => wire::is_silent(body, "reasoning_effort"@),
            }
        }),
{
    reveal_strlit("model");
    reveal_strlit("messages");
    reveal_strlit("stream");
    reveal_strlit("stream_options");
    reveal_strlit("tools");
    reveal_strlit("max_tokens");
    reveal_strlit("temperature");
    reveal_strlit("reasoning_effort");
    assert("model"@.len() == 5 && "messages"@.len() == 8 && "stream"@.len() == 6);
    assert("stream_options"@.len() == 14 && "tools"@.len() == 5 && "max_tokens"@.len() == 10);
    assert("temperature"@.len() == 11 && "reasoning_effort"@.len() == 16);
    assert("model"@[0] == 'm' && "tools"@[0] == 't');
    let none = Seq::<(Seq<char>, JsonView)>::empty();
    let model = ("model"@, JsonView::Text(request.model));
    let messages = (
        "messages"@,
        JsonView::Array(all_messages(request.system, request.messages)),
    );
    let streams = ("stream"@, JsonView::Bool(stream));
    assert forall|key: Seq<char>| #[trigger]
        wire::is_silent(JsonView::Object(none), key) by {}
    assert(wire::is_silent(JsonView::Object(none), "model"@));
    assert(wire::is_silent(JsonView::Object(none), "messages"@));
    assert(wire::is_silent(JsonView::Object(none), "stream"@));
    assert(wire::is_silent(JsonView::Object(none), "stream_options"@));
    assert(wire::is_silent(JsonView::Object(none), "tools"@));
    assert(wire::is_silent(JsonView::Object(none), "max_tokens"@));
    assert(wire::is_silent(JsonView::Object(none), "temperature"@));
    assert(wire::is_silent(JsonView::Object(none), "reasoning_effort"@));
    wire::lemma_says_more(none, model.0, model.1);
    wire::lemma_says_more(none.push(model), messages.0, messages.1);
    wire::lemma_says_more(none.push(model).push(messages), streams.0, streams.1);
    let head = none.push(model).push(messages).push(streams);
    assert(head =~= seq![model, messages, streams]);
    let streamed = if stream {
        let member = (
            "stream_options"@,
            JsonView::Object(seq![("include_usage"@, JsonView::Bool(true))]),
        );
        wire::lemma_says_more(head, member.0, member.1);
        head.push(member)
    } else {
        head
    };
    let tooled = if request.tools.len() > 0 {
        let json = request.tools.map_values(|t: ToolSpecView| tool_json(t));
        wire::lemma_says_more(streamed, "tools"@, JsonView::Array(json));
        assert(json =~= request.tools.map_values(
            |tool: ToolSpecView|
                JsonView::Object(
                    seq![
                        ("type"@, JsonView::Text("function"@)),
                        (
                            "function"@,
                            JsonView::Object(
                                seq![
                                    ("name"@, JsonView::Text(tool.name)),
                                    ("description"@, JsonView::Text(tool.description)),
                                    ("parameters"@, tool.input_schema),
                                ],
                            ),
                        ),
                    ],
                ),
        ));
        streamed.push(("tools"@, JsonView::Array(json)))
    } else {
        streamed
    };
    let bounded = match request.max_output_tokens {
        Some(max) => {
            wire::lemma_says_more(tooled, "max_tokens"@, number(max as nat));
            tooled.push(("max_tokens"@, number(max as nat)))
        },
        None => tooled,
    };
    let sampled = match request.temperature {
        Some(t) => {
            wire::lemma_says_more(bounded, "temperature"@, JsonView::Number(t));
            bounded.push(("temperature"@, JsonView::Number(t)))
        },
        None => bounded,
    };
    if let Some(effort) = request.reasoning_effort {
        wire::lemma_says_more(
            sampled,
            "reasoning_effort"@,
            JsonView::Text(effort_word(effort)),
        );
    }
}

} // verus!
