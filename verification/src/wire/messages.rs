//! The Anthropic `/messages` wire.
//!
//! The system prompt is a top-level field rather than a message, so a system message has to be
//! lifted out of the array instead of translated in place. Tool results are `user` content
//! blocks that must sit adjacent to the assistant turn that asked for them, so consecutive
//! same-role messages are merged rather than sent as-is. And the stream is block-structured: a
//! tool call's arguments arrive as fragments under its own index.

use vstd::prelude::*;
use crate::protocol::{
    append_json, block_view, block_views, json_views, lemma_block_views, lemma_json_views,
    member_views, message_views, no_items, no_members, push_json, push_member, BlockView,
    ContentBlock, Json, JsonView, Message, MessageView, ReasoningEffort, Role, StopReason,
    StopView, ToolResultView, ToolStatus, Usage,
};
use crate::text;
use crate::text::{decimal_of, opt};
use crate::wire;
use crate::wire::{
    argument_value, result_text_of, said, spoken, tool_views, ChunkView, ModelRequest,
    ProviderError, ProviderErrorView, RequestView, Sink, SinkView, StreamChunk, ToolSpec,
    ToolSpecView,
};

verus! {

/// The API version these messages are written for.
pub const ANTHROPIC_VERSION: &'static str = "2023-06-01";

/// Last resort when a request is built by hand without a budget: the field is mandatory on this
/// wire and a request that omits it is rejected outright.
pub const UNSET_MAX_OUTPUT_TOKENS: u32 = 4096;

/// The smallest thinking budget this wire accepts. A reply budget with no room for it means
/// extended thinking is left off rather than sent in a shape that cannot be served.
pub const MIN_THINKING_BUDGET: u32 = 1024;

/// What each rung of the neutral ladder buys on this wire.
pub open spec fn budget_of(effort: ReasoningEffort) -> u32 {
    match effort {
        ReasoningEffort::Low => 4_096,
        ReasoningEffort::Medium => 8_192,
        ReasoningEffort::High => 16_384,
        ReasoningEffort::XHigh => 32_768,
        ReasoningEffort::Max => 65_536,
        ReasoningEffort::Ultra => 65_536,
    }
}

/// What each rung of the neutral ladder buys on this wire. It has no rung above the top one, so
/// the ladder's top buys the same budget as the one below.
pub fn thinking_budget(effort: ReasoningEffort) -> (r: u32)
    ensures
        r == budget_of(effort),
{
    match effort {
        ReasoningEffort::Low => 4_096,
        ReasoningEffort::Medium => 8_192,
        ReasoningEffort::High => 16_384,
        ReasoningEffort::XHigh => 32_768,
        ReasoningEffort::Max => 65_536,
        ReasoningEffort::Ultra => 65_536,
    }
}

/// The reply budget of a request.
pub open spec fn reply_budget(max_output_tokens: Option<u32>) -> u32 {
    match max_output_tokens {
        Some(max) => max,
        None => UNSET_MAX_OUTPUT_TOKENS,
    }
}

/// The thinking budget of a request: what its level buys, below the reply budget by the
/// minimum, and none where that leaves less than the minimum.
pub open spec fn thinking_of(effort: Option<ReasoningEffort>, max_tokens: u32) -> Option<u32> {
    match effort {
        None => None,
        Some(level) => {
            let room: int = if max_tokens > MIN_THINKING_BUDGET {
                max_tokens - MIN_THINKING_BUDGET
            } else {
                0
            };
            let budget: int = if budget_of(level) < room {
                budget_of(level) as int
            } else {
                room
            };
            if budget >= MIN_THINKING_BUDGET {
                Some(budget as u32)
            } else {
                None
            }
        },
    }
}

/// The thinking budget of a request.
fn thinking(effort: Option<ReasoningEffort>, max_tokens: u32) -> (r: Option<u32>)
    ensures
        r == thinking_of(effort, max_tokens),
{
    match effort {
        None => None,
        Some(level) => {
            let room: u32 = if max_tokens > MIN_THINKING_BUDGET {
                max_tokens - MIN_THINKING_BUDGET
            } else {
                0
            };
            let bought: u32 = thinking_budget(level);
            let budget: u32 = if bought < room {
                bought
            } else {
                room
            };
            if budget >= MIN_THINKING_BUDGET {
                Some(budget)
            } else {
                None
            }
        },
    }
}

// The request.

/// A JSON number.
pub open spec fn number(n: nat) -> JsonView {
    JsonView::Number(decimal_of(n))
}

/// A block of text.
pub open spec fn text_block(s: Seq<char>) -> JsonView {
    JsonView::Object(
        seq![("type"@, JsonView::Text("text"@)), ("text"@, JsonView::Text(s))],
    )
}

/// A block of signed reasoning.
pub open spec fn thinking_block(s: Seq<char>, signature: Seq<char>) -> JsonView {
    JsonView::Object(
        seq![
            ("type"@, JsonView::Text("thinking"@)),
            ("thinking"@, JsonView::Text(s)),
            ("signature"@, JsonView::Text(signature)),
        ],
    )
}

/// A block with an image.
pub open spec fn image_block(media_type: Seq<char>, data: Seq<char>) -> JsonView {
    JsonView::Object(
        seq![
            ("type"@, JsonView::Text("image"@)),
            (
                "source"@,
                JsonView::Object(
                    seq![
                        ("type"@, JsonView::Text("base64"@)),
                        ("media_type"@, JsonView::Text(media_type)),
                        ("data"@, JsonView::Text(data)),
                    ],
                ),
            ),
        ],
    )
}

/// A block with a tool call.
pub open spec fn call_block(id: Seq<char>, name: Seq<char>, arguments: JsonView) -> JsonView {
    JsonView::Object(
        seq![
            ("type"@, JsonView::Text("tool_use"@)),
            ("id"@, JsonView::Text(id)),
            ("name"@, JsonView::Text(name)),
            ("input"@, argument_value(arguments)),
        ],
    )
}

/// A block with a tool result.
pub open spec fn result_block(id: Seq<char>, content: Seq<char>, failed: bool) -> JsonView {
    JsonView::Object(
        seq![
            ("type"@, JsonView::Text("tool_result"@)),
            ("tool_use_id"@, JsonView::Text(id)),
            ("content"@, JsonView::Text(content)),
            ("is_error"@, JsonView::Bool(failed)),
        ],
    )
}

/// What a block becomes on the wire, where it is no tool result. Reasoning is replayed only
/// with the signature this wire minted: it rejects a thinking block without one, and reasoning
/// that arrived from another vendor is dropped rather than forged.
pub open spec fn wire_block(block: BlockView) -> Option<JsonView> {
    match block {
        BlockView::Text { text } => if text.len() > 0 {
            Some(text_block(text))
        } else {
            None
        },
        BlockView::Thinking { text, signature } => match signature {
            Some(signature) => if text.len() > 0 {
                Some(thinking_block(text, signature))
            } else {
                None
            },
            None => None,
        },
        BlockView::Image(image) => Some(image_block(image.media_type, image.data)),
        BlockView::ToolCall(call) => Some(call_block(call.id, call.name, call.arguments)),
        BlockView::ToolResult(_) => None,
    }
}

/// What a tool result becomes on the wire.
pub open spec fn wire_result(block: BlockView) -> Option<JsonView> {
    match block {
        BlockView::ToolResult(result) => Some(
            result_block(
                result.id,
                result_text_of(result.content),
                result.status == ToolStatus::Error || result.status == ToolStatus::Denied,
            ),
        ),
        _ => None,
    }
}

/// The blocks of a message that are no tool results.
pub open spec fn wire_blocks(content: Seq<BlockView>) -> Seq<JsonView>
    decreases content.len(),
{
    if content.len() == 0 {
        Seq::empty()
    } else {
        match wire_block(content.last()) {
            Some(block) => wire_blocks(content.drop_last()).push(block),
            None => wire_blocks(content.drop_last()),
        }
    }
}

/// The tool results of a message.
pub open spec fn wire_results(content: Seq<BlockView>) -> Seq<JsonView>
    decreases content.len(),
{
    if content.len() == 0 {
        Seq::empty()
    } else {
        match wire_result(content.last()) {
            Some(block) => wire_results(content.drop_last()).push(block),
            None => wire_results(content.drop_last()),
        }
    }
}

/// A turn on the wire: whose it is and what it holds.
pub struct TurnView {
    pub assistant: bool,
    pub content: Seq<JsonView>,
}

/// What a message becomes on the wire. A result answers the previous assistant turn, so it
/// leads its own user turn; anything else the message carried follows it.
pub open spec fn wire_turn(message: MessageView) -> TurnView {
    let results = wire_results(message.content);
    let blocks = wire_blocks(message.content);
    if results.len() == 0 {
        TurnView { assistant: message.role == Role::Assistant, content: blocks }
    } else {
        TurnView { assistant: false, content: results + blocks }
    }
}

/// The turns with one more: one without content is left out, and one of the same role as the
/// last is merged with it, since a tool result must be the user turn that directly answers the
/// assistant turn holding the call.
pub open spec fn with_turn(turns: Seq<TurnView>, turn: TurnView) -> Seq<TurnView> {
    if turn.content.len() == 0 {
        turns
    } else if turns.len() > 0 && turns.last().assistant == turn.assistant {
        turns.drop_last().push(
            TurnView {
                assistant: turn.assistant,
                content: turns.last().content + turn.content,
            },
        )
    } else {
        turns.push(turn)
    }
}

/// The turns of a conversation.
pub open spec fn turns_of(messages: Seq<MessageView>) -> Seq<TurnView>
    decreases messages.len(),
{
    if messages.len() == 0 {
        Seq::empty()
    } else if messages.last().role == Role::System {
        turns_of(messages.drop_last())
    } else {
        with_turn(turns_of(messages.drop_last()), wire_turn(messages.last()))
    }
}

/// The system prompt with the text blocks of one more system message.
pub open spec fn with_system(system: Seq<char>, content: Seq<BlockView>) -> Seq<char>
    decreases content.len(),
{
    if content.len() == 0 {
        system
    } else {
        let before = with_system(system, content.drop_last());
        match content.last() {
            BlockView::Text { text } => if before.len() > 0 {
                before + "\n\n"@ + text
            } else {
                text
            },
            _ => before,
        }
    }
}

/// The system prompt: the request's own and every system message of the conversation.
pub open spec fn system_of(own: Option<Seq<char>>, messages: Seq<MessageView>) -> Seq<char>
    decreases messages.len(),
{
    if messages.len() == 0 {
        match own {
            Some(own) => own,
            None => Seq::empty(),
        }
    } else if messages.last().role == Role::System {
        with_system(system_of(own, messages.drop_last()), messages.last().content)
    } else {
        system_of(own, messages.drop_last())
    }
}

/// A turn as it is sent.
pub open spec fn turn_json(turn: TurnView) -> JsonView {
    JsonView::Object(
        seq![
            (
                "role"@,
                JsonView::Text(
                    if turn.assistant {
                        "assistant"@
                    } else {
                        "user"@
                    },
                ),
            ),
            ("content"@, JsonView::Array(turn.content)),
        ],
    )
}

/// A tool as it is sent: its schema under `input_schema`, with no envelope.
pub open spec fn tool_json(tool: ToolSpecView) -> JsonView {
    JsonView::Object(
        seq![
            ("name"@, JsonView::Text(tool.name)),
            ("description"@, JsonView::Text(tool.description)),
            ("input_schema"@, tool.input_schema),
        ],
    )
}

/// The body of a request.
pub open spec fn body_of(request: RequestView, stream: bool) -> Seq<(Seq<char>, JsonView)> {
    let max_tokens = reply_budget(request.max_output_tokens);
    let head = seq![
        ("model"@, JsonView::Text(request.model)),
        ("stream"@, JsonView::Bool(stream)),
        ("max_tokens"@, number(max_tokens as nat)),
    ];
    let system = system_of(request.system, request.messages);
    let prompted = if system.len() > 0 {
        head.push(("system"@, JsonView::Text(system)))
    } else {
        head
    };
    let spoken = prompted.push(
        (
            "messages"@,
            JsonView::Array(turns_of(request.messages).map_values(|t: TurnView| turn_json(t))),
        ),
    );
    let tooled = if request.tools.len() > 0 {
        spoken.push(
            (
                "tools"@,
                JsonView::Array(request.tools.map_values(|t: ToolSpecView| tool_json(t))),
            ),
        )
    } else {
        spoken
    };
    match thinking_of(request.reasoning_effort, max_tokens) {
        Some(budget) => tooled.push(
            (
                "thinking"@,
                JsonView::Object(
                    seq![
                        ("type"@, JsonView::Text("enabled"@)),
                        ("budget_tokens"@, number(budget as nat)),
                    ],
                ),
            ),
        ),
        None => match request.temperature {
            Some(temperature) => tooled.push(("temperature"@, JsonView::Number(temperature))),
            None => tooled,
        },
    }
}

/// What a block becomes on the wire, where it is no tool result.
fn to_wire_block(block: &ContentBlock) -> (r: Option<Json>)
    ensures
        match wire_block(block@) {
            Some(json) => r is Some && r->0@ == json,
            None => r is None,
        },
{
    let mut members = no_members();
    match block {
        ContentBlock::Text { text } => {
            if text.as_str().unicode_len() == 0 {
                return None;
            }
            push_member(&mut members, "type", Json::text("text"));
            push_member(&mut members, "text", Json::text(text.as_str()));
        },
        ContentBlock::Thinking { text, signature } => {
            match signature {
                Some(signature) => {
                    if text.as_str().unicode_len() == 0 {
                        return None;
                    }
                    push_member(&mut members, "type", Json::text("thinking"));
                    push_member(&mut members, "thinking", Json::text(text.as_str()));
                    push_member(&mut members, "signature", Json::text(signature.as_str()));
                },
                None => {
                    return None;
                },
            }
        },
        ContentBlock::Image(image) => {
            let mut source = no_members();
            push_member(&mut source, "type", Json::text("base64"));
            push_member(&mut source, "media_type", Json::text(image.media_type.as_str()));
            push_member(&mut source, "data", Json::text(image.data.as_str()));
            assert(member_views(source@) =~= seq![
                ("type"@, JsonView::Text("base64"@)),
                ("media_type"@, JsonView::Text(image.media_type@)),
                ("data"@, JsonView::Text(image.data@)),
            ]);
            push_member(&mut members, "type", Json::text("image"));
            push_member(&mut members, "source", Json::Object(source));
        },
        ContentBlock::ToolCall(call) => {
            push_member(&mut members, "type", Json::text("tool_use"));
            push_member(&mut members, "id", Json::text(call.id.as_str()));
            push_member(&mut members, "name", Json::text(call.name.as_str()));
            push_member(&mut members, "input", wire::arguments_value(&call.arguments));
        },
        ContentBlock::ToolResult(_) => {
            return None;
        },
    }
    let ghost expected = wire_block(block@)->0->Object_0;
    assert(member_views(members@) =~= expected);
    Some(Json::Object(members))
}

/// What a tool result becomes on the wire.
fn to_wire_result(block: &ContentBlock) -> (r: Option<Json>)
    ensures
        match wire_result(block@) {
            Some(json) => r is Some && r->0@ == json,
            None => r is None,
        },
{
    match block {
        ContentBlock::ToolResult(result) => {
            let failed = result.status == ToolStatus::Error || result.status == ToolStatus::Denied;
            let content = wire::result_text(&result.content);
            let mut members = no_members();
            push_member(&mut members, "type", Json::text("tool_result"));
            push_member(&mut members, "tool_use_id", Json::text(result.id.as_str()));
            push_member(&mut members, "content", Json::text(content.as_str()));
            push_member(&mut members, "is_error", Json::Bool(failed));
            let ghost expected = wire_result(block@)->0->Object_0;
            assert(member_views(members@) =~= expected);
            Some(Json::Object(members))
        },
        _ => None,
    }
}

/// What a message becomes on the wire: whether the turn is the assistant's, and its content.
pub fn wire_message(message: &Message) -> (r: (bool, Vec<Json>))
    ensures
        r.0 == wire_turn(message@).assistant,
        json_views(r.1@) == wire_turn(message@).content,
{
    let ghost views = block_views(message.content@);
    let mut blocks = no_items();
    let mut results = no_items();
    let mut i: usize = 0;
    proof {
        lemma_block_views(message.content@);
        assert(views.take(0) =~= Seq::empty());
    }
    while i < message.content.len()
        invariant
            i <= message.content.len(),
            views.len() == message.content.len(),
            forall|k: int|
                0 <= k < message.content.len() ==> #[trigger] views[k] == block_view(
                    message.content@[k],
                ),
            json_views(blocks@) == wire_blocks(views.take(i as int)),
            json_views(results@) == wire_results(views.take(i as int)),
        decreases message.content.len() - i,
    {
        assert(views.take(i as int + 1).drop_last() =~= views.take(i as int));
        assert(views[i as int] == block_view(message.content@[i as int]));
        if let Some(block) = to_wire_block(&message.content[i]) {
            push_json(&mut blocks, block);
        }
        if let Some(result) = to_wire_result(&message.content[i]) {
            push_json(&mut results, result);
        }
        i += 1;
    }
    assert(views.take(i as int) =~= views);
    proof {
        lemma_json_views(results@);
    }
    if results.len() == 0 {
        return (message.role == Role::Assistant, blocks);
    }
    append_json(&mut results, blocks);
    (false, results)
}

/// A turn on the wire.
struct WireTurn {
    assistant: bool,
    content: Vec<Json>,
}

spec fn wire_turn_view(turn: WireTurn) -> TurnView {
    TurnView { assistant: turn.assistant, content: json_views(turn.content@) }
}

spec fn wire_turn_views(turns: Seq<WireTurn>) -> Seq<TurnView> {
    turns.map_values(|t: WireTurn| wire_turn_view(t))
}

/// Puts one more turn behind the others.
fn push_turn(turns: &mut Vec<WireTurn>, assistant: bool, content: Vec<Json>)
    ensures
        wire_turn_views(final(turns)@) == with_turn(
            wire_turn_views(old(turns)@),
            TurnView { assistant, content: json_views(content@) },
        ),
{
    let ghost before = wire_turn_views(turns@);
    let ghost turn = TurnView { assistant, content: json_views(content@) };
    proof {
        lemma_json_views(content@);
    }
    if content.len() == 0 {
        return ;
    }
    match turns.pop() {
        None => {
            turns.push(WireTurn { assistant, content });
            assert(wire_turn_views(turns@) =~= with_turn(before, turn));
        },
        Some(last) => {
            assert(before.last() == wire_turn_view(last));
            if last.assistant == assistant {
                let mut merged = last.content;
                append_json(&mut merged, content);
                turns.push(WireTurn { assistant, content: merged });
                assert(wire_turn_views(turns@) =~= with_turn(before, turn));
            } else {
                turns.push(last);
                turns.push(WireTurn { assistant, content });
                assert(wire_turn_views(turns@) =~= with_turn(before, turn));
            }
        },
    }
}

/// Lifts a system message's text into the system prompt.
fn lift_system(system: String, content: &Vec<ContentBlock>) -> (r: String)
    ensures
        r@ == with_system(system@, block_views(content@)),
{
    let ghost views = block_views(content@);
    let ghost own = system@;
    let mut r = system;
    let mut i: usize = 0;
    proof {
        lemma_block_views(content@);
        assert(views.take(0) =~= Seq::empty());
    }
    while i < content.len()
        invariant
            i <= content.len(),
            views.len() == content.len(),
            forall|k: int| 0 <= k < content.len() ==> #[trigger] views[k] == block_view(content@[k]),
            r@ == with_system(own, views.take(i as int)),
        decreases content.len() - i,
    {
        assert(views.take(i as int + 1).drop_last() =~= views.take(i as int));
        assert(views[i as int] == block_view(content@[i as int]));
        if let ContentBlock::Text { text } = &content[i] {
            if r.as_str().unicode_len() > 0 {
                r.append("\n\n");
                r.append(text.as_str());
            } else {
                r = text.clone();
            }
        }
        i += 1;
    }
    assert(views.take(i as int) =~= views);
    r
}

/// A turn as it is sent.
fn send_turn(turn: WireTurn) -> (r: Json)
    ensures
        r@ == turn_json(wire_turn_view(turn)),
{
    let mut members = no_members();
    push_member(
        &mut members,
        "role",
        Json::text(
            if turn.assistant {
                "assistant"
            } else {
                "user"
            },
        ),
    );
    push_member(&mut members, "content", Json::Array(turn.content));
    assert(member_views(members@) =~= turn_json(wire_turn_view(turn))->Object_0);
    Json::Object(members)
}

/// Lifts every system instruction to the top level and translates the rest.
///
/// A system message left in the array would be rejected: this wire has exactly two roles.
/// Concatenating instead of dropping is what keeps a mid-conversation system note visible to
/// the model.
pub fn split_system(request: &ModelRequest) -> (r: (String, Vec<Json>))
    ensures
        r.0@ == system_of(request@.system, request@.messages),
        json_views(r.1@) == turns_of(request@.messages).map_values(|t: TurnView| turn_json(t)),
{
    let ghost all = message_views(request.messages@);
    let mut system = match &request.system {
        Some(system) => system.clone(),
        None => String::new(),
    };
    assert(request.system is None ==> system@ =~= Seq::<char>::empty());
    let mut turns: Vec<WireTurn> = Vec::new();
    let mut i: usize = 0;
    proof {
        assert(all.take(0) =~= Seq::empty());
        assert(wire_turn_views(turns@) =~= Seq::empty());
    }
    while i < request.messages.len()
        invariant
            i <= request.messages.len(),
            all == message_views(request.messages@),
            system@ == system_of(request@.system, all.take(i as int)),
            wire_turn_views(turns@) == turns_of(all.take(i as int)),
        decreases request.messages.len() - i,
    {
        assert(all.take(i as int + 1).drop_last() =~= all.take(i as int));
        assert(all[i as int] == request.messages@[i as int]@);
        let message = &request.messages[i];
        if message.role == Role::System {
            system = lift_system(system, &message.content);
        } else {
            let (assistant, content) = wire_message(message);
            push_turn(&mut turns, assistant, content);
        }
        i += 1;
    }
    assert(all.take(i as int) =~= all);
    let ghost views = wire_turn_views(turns@);
    let ghost sent = views.map_values(|t: TurnView| turn_json(t));
    let mut items = no_items();
    assert(json_views(items@) =~= sent.take(0));
    for turn in it: turns
        invariant
            wire_turn_views(it.seq()) == views,
            sent == views.map_values(|t: TurnView| turn_json(t)),
            json_views(items@) == sent.take(it.index() as int),
    {
        proof {
            let k = it.index() as int;
            assert(views[k] == wire_turn_view(it.seq()[k]));
            assert(sent.take(k + 1) =~= sent.take(k).push(sent[k]));
        }
        push_json(&mut items, send_turn(turn));
    }
    assert(sent.take(sent.len() as int) =~= sent);
    (system, items)
}

/// A tool as it is sent.
fn wire_tool(tool: &ToolSpec) -> (r: Json)
    ensures
        r@ == tool_json(tool@),
{
    let mut members = no_members();
    push_member(&mut members, "name", Json::text(tool.name.as_str()));
    push_member(&mut members, "description", Json::text(tool.description.as_str()));
    push_member(&mut members, "input_schema", tool.input_schema.copy());
    assert(member_views(members@) =~= tool_json(tool@)->Object_0);
    Json::Object(members)
}

/// The tools as they are sent.
fn wire_tools(tools: &Vec<ToolSpec>) -> (r: Vec<Json>)
    ensures
        json_views(r@) == tool_views(tools@).map_values(|t: ToolSpecView| tool_json(t)),
{
    let ghost views = tool_views(tools@);
    let ghost sent = views.map_values(|t: ToolSpecView| tool_json(t));
    let mut items = no_items();
    let mut i: usize = 0;
    assert(json_views(items@) =~= sent.take(0));
    while i < tools.len()
        invariant
            i <= tools.len(),
            views == tool_views(tools@),
            sent == views.map_values(|t: ToolSpecView| tool_json(t)),
            json_views(items@) == sent.take(i as int),
        decreases tools.len() - i,
    {
        assert(views[i as int] == tools@[i as int]@);
        assert(sent.take(i as int + 1) =~= sent.take(i as int).push(sent[i as int]));
        push_json(&mut items, wire_tool(&tools[i]));
        i += 1;
    }
    assert(sent.take(i as int) =~= sent);
    items
}

/// Builds a `/messages` body.
///
/// The thinking budget has to leave room for an answer, so it is capped below the reply budget
/// rather than sent as the ladder names it. This wire refuses a temperature alongside extended
/// thinking; effort wins, since it was asked for explicitly.
pub fn messages_body(request: &ModelRequest, stream: bool) -> (r: Json)
    ensures
        r@ == JsonView::Object(body_of(request@, stream)),
{
    let mut members = no_members();
    push_member(&mut members, "model", Json::text(request.model.as_str()));
    push_member(&mut members, "stream", Json::Bool(stream));
    let max_tokens: u32 = match request.max_output_tokens {
        Some(max) => max,
        None => UNSET_MAX_OUTPUT_TOKENS,
    };
    push_member(&mut members, "max_tokens", Json::number(max_tokens as u64));
    assert(member_views(members@) =~= seq![
        ("model"@, JsonView::Text(request.model@)),
        ("stream"@, JsonView::Bool(stream)),
        ("max_tokens"@, number(max_tokens as nat)),
    ]);
    let (system, messages) = split_system(request);
    if system.as_str().unicode_len() > 0 {
        push_member(&mut members, "system", Json::Text(system));
    }
    push_member(&mut members, "messages", Json::Array(messages));
    assert(tool_views(request.tools@).len() == request.tools.len());
    if request.tools.len() > 0 {
        push_member(&mut members, "tools", Json::Array(wire_tools(&request.tools)));
    }
    match thinking(request.reasoning_effort, max_tokens) {
        Some(budget) => {
            let mut inner = no_members();
            push_member(&mut inner, "type", Json::text("enabled"));
            push_member(&mut inner, "budget_tokens", Json::number(budget as u64));
            assert(member_views(inner@) =~= seq![
                ("type"@, JsonView::Text("enabled"@)),
                ("budget_tokens"@, number(budget as nat)),
            ]);
            push_member(&mut members, "thinking", Json::Object(inner));
        },
        None => {
            if let Some(temperature) = &request.temperature {
                push_member(&mut members, "temperature", Json::Number(temperature.clone()));
            }
        },
    }
    Json::Object(members)
}

// The reply.

/// The start of a content block.
#[derive(Debug, PartialEq, Eq)]
pub struct BlockStart {
    pub kind: String,
    pub id: Option<String>,
    pub name: Option<String>,
}

/// What changes: text and argument fragments of a block, or the stop reason of the message.
#[derive(Debug, PartialEq, Eq)]
pub struct Delta {
    pub text: Option<String>,
    pub thinking: Option<String>,
    pub partial_json: Option<String>,
    /// Closes a thinking block. Opaque, and replayed unchanged on the next turn.
    pub signature: Option<String>,
    pub stop_reason: Option<String>,
}

/// A failure in the middle of a stream.
#[derive(Debug, PartialEq, Eq)]
pub struct WireError {
    pub kind: Option<String>,
    pub message: Option<String>,
}

/// The counts that a frame reports.
#[derive(Clone, Copy, Debug, PartialEq, Eq, Structural)]
pub struct WireUsage {
    pub input_tokens: u64,
    pub output_tokens: u64,
    pub cache_read_input_tokens: u64,
}

/// One typed frame. The events share one envelope and differ only in which fields they
/// populate.
#[derive(Debug, PartialEq, Eq)]
pub struct MessageEvent {
    pub kind: String,
    pub index: Option<usize>,
    pub content_block: Option<BlockStart>,
    pub delta: Option<Delta>,
    /// The counts at the start of a message.
    pub message_usage: Option<WireUsage>,
    pub usage: Option<WireUsage>,
    pub error: Option<WireError>,
}

/// What a reply stopped for.
pub open spec fn stop_of(reason: Seq<char>) -> StopView {
    if reason == "tool_use"@ || reason == "pause_turn"@ {
        StopView::ToolUse
    } else if reason == "max_tokens"@ {
        StopView::MaxTokens
    } else if reason == "refusal"@ {
        StopView::Refusal { message: "the provider refused to continue the reply"@ }
    } else {
        StopView::EndTurn
    }
}

/// What a reply stopped for. A label nobody recognizes still ended the reply, and failing the
/// turn over it would lose a complete answer.
pub fn stop_reason(reason: &str) -> (r: StopReason)
    ensures
        r@ == stop_of(reason@),
{
    if text::eq(reason, "tool_use") || text::eq(reason, "pause_turn") {
        StopReason::ToolUse
    } else if text::eq(reason, "max_tokens") {
        StopReason::MaxTokens
    } else if text::eq(reason, "refusal") {
        StopReason::Refusal { message: text::copy("the provider refused to continue the reply") }
    } else {
        StopReason::EndTurn
    }
}

/// Reads a reply frame by frame.
#[derive(Debug, PartialEq, Eq)]
pub struct Decoder {
    calls: wire::OpenCalls,
    usage: Usage,
    stop: Option<StopReason>,
}

/// What a [`Decoder`] knows.
pub struct DecoderView {
    pub calls: Map<usize, wire::OpenCallView>,
    pub usage: Usage,
    pub stop: Option<StopView>,
}

impl View for Decoder {
    type V = DecoderView;

    closed spec fn view(&self) -> DecoderView {
        DecoderView {
            calls: self.calls@,
            usage: self.usage,
            stop: match self.stop {
                Some(stop) => Some(stop@),
                None => None,
            },
        }
    }
}

/// Counts are merged rather than replaced: input counts are reported once at the start and
/// output counts again at the end.
pub open spec fn absorbed(usage: Usage, wire: WireUsage) -> Usage {
    Usage {
        input_tokens: if wire.input_tokens > 0 {
            wire.input_tokens
        } else {
            usage.input_tokens
        },
        output_tokens: if wire.output_tokens > 0 {
            wire.output_tokens
        } else {
            usage.output_tokens
        },
        cached_input_tokens: if wire.cache_read_input_tokens > 0 {
            wire.cache_read_input_tokens
        } else {
            usage.cached_input_tokens
        },
        reasoning_tokens: usage.reasoning_tokens,
    }
}

/// Where a frame belongs; the first block where it does not say.
pub open spec fn index_of(event: MessageEvent) -> usize {
    match event.index {
        Some(index) => index,
        None => 0,
    }
}

/// The failure that an error frame stands for. The status line was fine, so the class has to
/// come from the payload's own type.
pub open spec fn failure_of(error: Option<WireError>) -> ProviderErrorView {
    let kind = match error {
        Some(error) => opt(error.kind),
        None => None,
    };
    let detail = match error {
        Some(error) => match error.message {
            Some(message) => message@,
            None => "the provider failed the message"@,
        },
        None => "the provider failed the message"@,
    };
    match kind {
        Some(kind) => if kind == "authentication_error"@ || kind == "permission_error"@ {
            ProviderErrorView::Unauthorized(detail)
        } else if kind == "rate_limit_error"@ {
            ProviderErrorView::RateLimited { retry_after_millis: None }
        } else if kind == "invalid_request_error"@ {
            ProviderErrorView::InvalidRequest(detail)
        } else if kind == "not_found_error"@ {
            ProviderErrorView::UnknownModel(detail)
        } else {
            ProviderErrorView::Transient(detail)
        },
        None => ProviderErrorView::Transient(detail),
    }
}

/// A decoder with the stream it has written.
pub struct Reading {
    pub decoder: DecoderView,
    pub sink: SinkView,
}

impl Reading {
    /// With a block that has started: only a tool call opens anything.
    pub open spec fn block_started(self, event: MessageEvent) -> Reading {
        match event.content_block {
            Some(block) => if block.kind@ != "tool_use"@ {
                self
            } else {
                match block.id {
                    None => Reading {
                        sink: self.sink.failed("a tool_use block arrived without an id"@),
                        ..self
                    },
                    Some(id) => Reading {
                        decoder: DecoderView {
                            calls: self.decoder.calls.insert(
                                index_of(event),
                                wire::OpenCallView { id: id@, arguments: Seq::empty() },
                            ),
                            ..self.decoder
                        },
                        sink: self.sink.pushed(
                            ChunkView::ToolCallStart {
                                id: id@,
                                name: match block.name {
                                    Some(name) => name@,
                                    None => Seq::empty(),
                                },
                            },
                        ),
                    },
                }
            },
            None => self,
        }
    }

    /// With a fragment of a call's arguments.
    pub open spec fn fragment(self, index: usize, fragment: Seq<char>) -> Reading {
        if self.decoder.calls.contains_key(index) {
            let call = self.decoder.calls[index];
            Reading {
                decoder: DecoderView {
                    calls: self.decoder.calls.insert(
                        index,
                        wire::OpenCallView { arguments: call.arguments + fragment, ..call },
                    ),
                    ..self.decoder
                },
                sink: self.sink.pushed(
                    ChunkView::ToolCallArgsDelta { id: call.id, delta: fragment },
                ),
            }
        } else {
            Reading {
                sink: self.sink.failed(
                    "an input_json_delta arrived for block "@ + decimal_of(index as nat)
                        + " before its tool_use block"@,
                ),
                ..self
            }
        }
    }

    /// With a delta of a block: reasoning, its signature, text, and a fragment of arguments, as
    /// far as it has them.
    pub open spec fn block_changed(self, event: MessageEvent) -> Reading {
        match event.delta {
            None => self,
            Some(delta) => {
                let thought = match said(delta.thinking) {
                    Some(t) => self.sink.pushed(ChunkView::ThinkingDelta(t)),
                    None => self.sink,
                };
                let signed = match said(delta.signature) {
                    Some(t) => thought.pushed(ChunkView::ThinkingSignature(t)),
                    None => thought,
                };
                let spoken = match said(delta.text) {
                    Some(t) => signed.pushed(ChunkView::TextDelta(t)),
                    None => signed,
                };
                let now = Reading { sink: spoken, ..self };
                match said(delta.partial_json) {
                    Some(fragment) => now.fragment(index_of(event), fragment),
                    None => now,
                }
            },
        }
    }

    /// With a block that has ended. Text blocks end too, so a missing call is ordinary.
    pub open spec fn block_ended(self, index: usize) -> Reading {
        if self.decoder.calls.contains_key(index) {
            Reading {
                decoder: DecoderView { calls: self.decoder.calls.remove(index), ..self.decoder },
                sink: wire::ended(self.sink, self.decoder.calls[index]),
            }
        } else {
            self
        }
    }

    /// With counts.
    pub open spec fn counted(self, usage: Option<WireUsage>) -> Reading {
        match usage {
            Some(usage) => Reading {
                decoder: DecoderView {
                    usage: absorbed(self.decoder.usage, usage),
                    ..self.decoder
                },
                ..self
            },
            None => self,
        }
    }

    /// With what ends a message.
    pub open spec fn message_changed(self, event: MessageEvent) -> Reading {
        let now = self.counted(event.usage);
        match event.delta {
            Some(delta) => match delta.stop_reason {
                Some(reason) => Reading {
                    decoder: DecoderView { stop: Some(stop_of(reason@)), ..now.decoder },
                    ..now
                },
                None => now,
            },
            None => now,
        }
    }

    /// With the message over. One that named no stop reason still ended the reply.
    pub open spec fn message_ended(self) -> Reading {
        Reading {
            decoder: DecoderView { stop: None, ..self.decoder },
            sink: self.sink.pushed(ChunkView::Usage(self.decoder.usage)).pushed(
                ChunkView::Done(
                    match self.decoder.stop {
                        Some(stop) => stop,
                        None => StopView::EndTurn,
                    },
                ),
            ),
        }
    }

    /// With one more frame.
    pub open spec fn next(self, event: MessageEvent) -> Reading {
        let kind = event.kind@;
        if kind == "message_start"@ {
            self.counted(event.message_usage)
        } else if kind == "content_block_start"@ {
            self.block_started(event)
        } else if kind == "content_block_delta"@ {
            self.block_changed(event)
        } else if kind == "content_block_stop"@ {
            self.block_ended(index_of(event))
        } else if kind == "message_delta"@ {
            self.message_changed(event)
        } else if kind == "message_stop"@ {
            self.message_ended()
        } else if kind == "error"@ {
            Reading { sink: self.sink.aborted(failure_of(event.error)), ..self }
        } else {
            self
        }
    }
}

impl MessageEvent {
    /// Where this frame belongs.
    fn place(&self) -> (r: usize)
        ensures
            r == index_of(*self),
    {
        match self.index {
            Some(index) => index,
            None => 0,
        }
    }
}

impl Decoder {
    /// A decoder that has read nothing.
    pub fn new() -> (r: Decoder)
        ensures
            r@ == (DecoderView {
                calls: Map::empty(),
                usage: Usage {
                    input_tokens: 0,
                    output_tokens: 0,
                    cached_input_tokens: 0,
                    reasoning_tokens: 0,
                },
                stop: None,
            }),
    {
        Decoder { calls: wire::OpenCalls::new(), usage: Usage::default(), stop: None }
    }

    /// Merges counts.
    fn absorb(&mut self, wire: &WireUsage)
        ensures
            final(self)@ == (DecoderView {
                usage: absorbed(old(self)@.usage, *wire),
                ..old(self)@
            }),
    {
        if wire.input_tokens > 0 {
            self.usage.input_tokens = wire.input_tokens;
        }
        if wire.output_tokens > 0 {
            self.usage.output_tokens = wire.output_tokens;
        }
        if wire.cache_read_input_tokens > 0 {
            self.usage.cached_input_tokens = wire.cache_read_input_tokens;
        }
    }

    fn on_block_start(&mut self, event: &MessageEvent, out: &mut Sink)
        ensures
            (Reading { decoder: final(self)@, sink: final(out)@ }) == (Reading {
                decoder: old(self)@,
                sink: old(out)@,
            }).block_started(*event),
            old(out)@.valid() ==> final(out)@.valid(),
    {
        if let Some(block) = &event.content_block {
            if !text::eq(block.kind.as_str(), "tool_use") {
                return ;
            }
            match &block.id {
                None => {
                    out.fail(text::copy("a tool_use block arrived without an id"));
                },
                Some(id) => {
                    let name = match &block.name {
                        Some(name) => name.clone(),
                        None => String::new(),
                    };
                    assert(block.name is None ==> name@ =~= Seq::<char>::empty());
                    out.push(StreamChunk::ToolCallStart { id: id.clone(), name });
                    self.calls.open(event.place(), id.as_str());
                },
            }
        }
    }

    fn on_block_delta(&mut self, event: &MessageEvent, out: &mut Sink)
        ensures
            (Reading { decoder: final(self)@, sink: final(out)@ }) == (Reading {
                decoder: old(self)@,
                sink: old(out)@,
            }).block_changed(*event),
            old(out)@.valid() ==> final(out)@.valid(),
    {
        if let Some(delta) = &event.delta {
            if let Some(t) = spoken(&delta.thinking) {
                out.push(StreamChunk::ThinkingDelta(t));
            }
            if let Some(t) = spoken(&delta.signature) {
                out.push(StreamChunk::ThinkingSignature(t));
            }
            if let Some(t) = spoken(&delta.text) {
                out.push(StreamChunk::TextDelta(t));
            }
            if let Some(fragment) = spoken(&delta.partial_json) {
                let index: usize = event.place();
                match self.calls.extend(index, fragment.as_str()) {
                    None => {
                        let number = text::decimal(index as u64);
                        out.fail(
                            text::concat3(
                                "an input_json_delta arrived for block ",
                                number.as_str(),
                                " before its tool_use block",
                            ),
                        );
                    },
                    Some(id) => {
                        out.push(StreamChunk::ToolCallArgsDelta { id, delta: fragment });
                    },
                }
            }
        }
    }

    fn close_call(&mut self, index: usize, out: &mut Sink)
        ensures
            (Reading { decoder: final(self)@, sink: final(out)@ }) == (Reading {
                decoder: old(self)@,
                sink: old(out)@,
            }).block_ended(index),
            old(out)@.valid() ==> final(out)@.valid(),
    {
        let ghost before = self.calls@;
        assert(!before.contains_key(index) ==> before.remove(index) =~= before);
        if let Some(call) = self.calls.close(index) {
            wire::end_call(call, out);
        }
    }

    fn on_error(error: &Option<WireError>) -> (r: ProviderError)
        ensures
            r@ == failure_of(*error),
    {
        let mut detail = text::copy("the provider failed the message");
        let mut kind = String::new();
        let mut known = false;
        if let Some(error) = error {
            if let Some(message) = &error.message {
                detail = message.clone();
            }
            if let Some(own) = &error.kind {
                kind = own.clone();
                known = true;
            }
        }
        if !known {
            return ProviderError::Transient(detail);
        }
        let kind = kind.as_str();
        if text::eq(kind, "authentication_error") || text::eq(kind, "permission_error") {
            ProviderError::Unauthorized(detail)
        } else if text::eq(kind, "rate_limit_error") {
            ProviderError::RateLimited { retry_after_millis: None }
        } else if text::eq(kind, "invalid_request_error") {
            ProviderError::InvalidRequest(detail)
        } else if text::eq(kind, "not_found_error") {
            ProviderError::UnknownModel(detail)
        } else {
            ProviderError::Transient(detail)
        }
    }

    /// Reads one frame.
    pub fn on_frame(&mut self, event: &MessageEvent, out: &mut Sink)
        ensures
            (Reading { decoder: final(self)@, sink: final(out)@ }) == (Reading {
                decoder: old(self)@,
                sink: old(out)@,
            }).next(*event),
            old(out)@.valid() ==> final(out)@.valid(),
    {
        let kind = event.kind.as_str();
        if text::eq(kind, "message_start") {
            if let Some(usage) = &event.message_usage {
                self.absorb(usage);
            }
        } else if text::eq(kind, "content_block_start") {
            self.on_block_start(event, out);
        } else if text::eq(kind, "content_block_delta") {
            self.on_block_delta(event, out);
        } else if text::eq(kind, "content_block_stop") {
            self.close_call(event.place(), out);
        } else if text::eq(kind, "message_delta") {
            if let Some(usage) = &event.usage {
                self.absorb(usage);
            }
            if let Some(delta) = &event.delta {
                if let Some(reason) = &delta.stop_reason {
                    self.stop = Some(stop_reason(reason.as_str()));
                }
            }
        } else if text::eq(kind, "message_stop") {
            out.push(StreamChunk::Usage(self.usage));
            let stop = match self.stop.take() {
                Some(stop) => stop,
                None => StopReason::EndTurn,
            };
            out.finish(stop);
        } else if text::eq(kind, "error") {
            out.abort(Decoder::on_error(&event.error));
        }
    }

    /// A frame that did not decode.
    pub fn on_undecodable(&mut self, error: &str, out: &mut Sink)
        ensures
            final(self)@ == old(self)@,
            final(out)@ == old(out)@.failed("undecodable messages frame: "@ + error@),
            old(out)@.valid() ==> final(out)@.valid(),
    {
        out.fail(text::concat("undecodable messages frame: ", error));
    }

    /// The end of the transport. A stream that ends without its terminal event made no sense.
    pub fn on_end(&mut self, out: &mut Sink)
        ensures
            final(self)@ == old(self)@,
            final(out)@ == old(out)@.failed(
                "the messages stream ended without message_stop"@,
            ),
            old(out)@.valid() ==> final(out)@.valid(),
    {
        out.fail(text::copy("the messages stream ended without message_stop"));
    }
}

// Laws.

/// No two turns in a row are of the same role, and no turn is empty.
pub proof fn turns_alternate(messages: Seq<MessageView>)
    ensures
        forall|i: int|
            0 <= i < turns_of(messages).len() - 1 ==> (#[trigger] turns_of(messages)[i]).assistant
                != turns_of(messages)[i + 1].assistant,
        forall|i: int|
            0 <= i < turns_of(messages).len() ==> (#[trigger] turns_of(messages)[i]).content.len() > 0,
    decreases messages.len(),
{
    if messages.len() > 0 {
        turns_alternate(messages.drop_last());
        let before = turns_of(messages.drop_last());
        let all = turns_of(messages);
        assert forall|i: int| 0 <= i < all.len() - 1 implies (#[trigger] all[i]).assistant != all[i
            + 1].assistant by {
            if i < before.len() - 1 {
                assert(before[i].assistant != before[i + 1].assistant);
            }
        }
        assert forall|i: int| 0 <= i < all.len() implies (#[trigger] all[i]).content.len() > 0 by {
            if i < before.len() {
                assert(before[i].content.len() > 0);
            }
        }
    }
}

/// A thinking budget leaves the reply at least as much room as the smallest budget there is,
/// and is never below that itself.
pub proof fn thinking_leaves_room_for_an_answer(effort: Option<ReasoningEffort>, max_tokens: u32)
    ensures
        thinking_of(effort, max_tokens) matches Some(budget) ==> MIN_THINKING_BUDGET <= budget
            && budget + MIN_THINKING_BUDGET <= max_tokens,
{
}

/// Every tool result of a message is sent, in order, as a block that names the call it answers and
/// holds what the result shows the model; it says that the call failed just where the result's
/// status is an error or a denial.
pub proof fn tool_results_say_whether_they_failed(content: Seq<BlockView>)
    ensures
        wire_results(content) == content.filter(|b: BlockView| b is ToolResult).map_values(
            |b: BlockView|
                JsonView::Object(
                    seq![
                        ("type"@, JsonView::Text("tool_result"@)),
                        ("tool_use_id"@, JsonView::Text(b->ToolResult_0.id)),
                        ("content"@, JsonView::Text(result_text_of(b->ToolResult_0.content))),
                        (
                            "is_error"@,
                            JsonView::Bool(
                                match b->ToolResult_0.status {
                                    ToolStatus::Succeeded => false,
                                    ToolStatus::Error => true,
                                    ToolStatus::Denied => true,
                                    ToolStatus::Cancelled => false,
                                },
                            ),
                        ),
                    ],
                ),
        ),
    decreases content.len(),
{
    let keep = |b: BlockView| b is ToolResult;
    let json = |b: BlockView|
        JsonView::Object(
            seq![
                ("type"@, JsonView::Text("tool_result"@)),
                ("tool_use_id"@, JsonView::Text(b->ToolResult_0.id)),
                ("content"@, JsonView::Text(result_text_of(b->ToolResult_0.content))),
                (
                    "is_error"@,
                    JsonView::Bool(
                        match b->ToolResult_0.status {
                            ToolStatus::Succeeded => false,
                            ToolStatus::Error => true,
                            ToolStatus::Denied => true,
                            ToolStatus::Cancelled => false,
                        },
                    ),
                ),
            ],
        );
    reveal(Seq::filter);
    if content.len() > 0 {
        let init = content.drop_last();
        let last = content.last();
        tool_results_say_whether_they_failed(init);
        if last is ToolResult {
            assert(json(last)->Object_0 =~= wire_result(last)->0->Object_0);
            assert(init.filter(keep).push(last).map_values(json) =~= init.filter(keep).map_values(
                json,
            ).push(json(last)));
        }
    }
    assert(wire_results(content) =~= content.filter(keep).map_values(json));
}

/// Whether a block of a request's body stands for a tool result: it names the call, holds what the
/// result shows the model, and says that the call failed just where it ended in an error or was
/// denied.
pub open spec fn answers(block: JsonView, result: ToolResultView) -> bool {
    &&& wire::says(block, "type"@, JsonView::Text("tool_result"@))
    &&& wire::says(block, "tool_use_id"@, JsonView::Text(result.id))
    &&& wire::says(block, "content"@, JsonView::Text(result_text_of(result.content)))
    &&& match result.status {
        ToolStatus::Error => wire::says(block, "is_error"@, JsonView::Bool(true)),
        ToolStatus::Denied => wire::says(block, "is_error"@, JsonView::Bool(true)),
        ToolStatus::Succeeded => wire::says(block, "is_error"@, JsonView::Bool(false)),
        ToolStatus::Cancelled => wire::says(block, "is_error"@, JsonView::Bool(false)),
    }
}

/// Whether one of the turns that a body holds is of the user and has a block that stands for a
/// tool result.
pub open spec fn answered(turns: Seq<JsonView>, i: int, j: int, result: ToolResultView) -> bool {
    &&& 0 <= i < turns.len()
    &&& wire::says(turns[i], "role"@, JsonView::Text("user"@))
    &&& exists|blocks: Seq<JsonView>| #[trigger]
        wire::says(turns[i], "content"@, JsonView::Array(blocks)) && 0 <= j < blocks.len()
            && answers(blocks[j], result)
}

/// The body of a request answers every tool result of its conversation: among the messages that it
/// holds, a turn of the user has a block for the result.
pub proof fn every_tool_result_is_answered(
    request: RequestView,
    stream: bool,
    m: int,
    b: int,
)
    requires
        0 <= m < request.messages.len(),
        request.messages[m].role != Role::System,
        0 <= b < request.messages[m].content.len(),
        request.messages[m].content[b] is ToolResult,
    ensures
        exists|turns: Seq<JsonView>, i: int, j: int|
            wire::says(
                JsonView::Object(body_of(request, stream)),
                "messages"@,
                JsonView::Array(turns),
            ) && #[trigger] answered(
                turns,
                i,
                j,
                request.messages[m].content[b]->ToolResult_0,
            ),
{
    let message = request.messages[m];
    let block = message.content[b];
    let result = block->ToolResult_0;
    let sent = wire_result(block)->0;
    lemma_result_sent(message.content, b);
    let k = wire_results(message.content).index_of(sent);
    assert(wire_turn(message).content[k] == sent);
    lemma_turn_kept(request.messages, m, sent);
    let all = turns_of(request.messages);
    let turns = all.map_values(|t: TurnView| turn_json(t));
    let i = choose|i: int|
        0 <= i < all.len() && !(#[trigger] all[i]).assistant && all[i].content.contains(sent);
    let j = all[i].content.index_of(sent);
    assert(turns[i] == turn_json(all[i]));
    lemma_turn_says(all[i]);
    lemma_result_says(result);
    the_body_says_what_is_asked(request, stream);
    assert(answered(turns, i, j, result));
}

proof fn lemma_turn_says(turn: TurnView)
    ensures
        wire::says(
            turn_json(turn),
            "role"@,
            JsonView::Text(
                if turn.assistant {
                    "assistant"@
                } else {
                    "user"@
                },
            ),
        ),
        wire::says(turn_json(turn), "content"@, JsonView::Array(turn.content)),
{
    reveal_strlit("role");
    reveal_strlit("content");
    assert("role"@.len() == 4 && "content"@.len() == 7);
    let members = turn_json(turn)->Object_0;
    assert(wire::key_at(members, "role"@, 0));
    assert(wire::key_at(members, "content"@, 1));
}

proof fn lemma_result_says(result: ToolResultView)
    ensures
        answers(wire_result(BlockView::ToolResult(result))->0, result),
{
    reveal_strlit("type");
    reveal_strlit("tool_use_id");
    reveal_strlit("content");
    reveal_strlit("is_error");
    assert("type"@.len() == 4 && "tool_use_id"@.len() == 11);
    assert("content"@.len() == 7 && "is_error"@.len() == 8);
    let members = wire_result(BlockView::ToolResult(result))->0->Object_0;
    assert(wire::key_at(members, "type"@, 0));
    assert(wire::key_at(members, "tool_use_id"@, 1));
    assert(wire::key_at(members, "content"@, 2));
    assert(wire::key_at(members, "is_error"@, 3));
}

proof fn lemma_result_sent(content: Seq<BlockView>, b: int)
    requires
        0 <= b < content.len(),
        content[b] is ToolResult,
    ensures
        wire_results(content).contains(wire_result(content[b])->0),
    decreases content.len(),
{
    let init = content.drop_last();
    let sent = wire_result(content[b])->0;
    if b < init.len() {
        lemma_result_sent(init, b);
        let k = wire_results(init).index_of(sent);
        assert(wire_results(content)[k] == sent);
    } else {
        assert(wire_results(content).last() == sent);
    }
}

proof fn lemma_turn_kept(messages: Seq<MessageView>, m: int, block: JsonView)
    requires
        0 <= m < messages.len(),
        messages[m].role != Role::System,
        wire_turn(messages[m]).content.contains(block),
    ensures
        exists|i: int|
            0 <= i < turns_of(messages).len() && (#[trigger] turns_of(messages)[i]).assistant
                == wire_turn(messages[m]).assistant && turns_of(messages)[i].content.contains(
                block,
            ),
    decreases messages.len(),
{
    let init = messages.drop_last();
    let before = turns_of(init);
    let all = turns_of(messages);
    let whose = wire_turn(messages[m]).assistant;
    if m < init.len() {
        lemma_turn_kept(init, m, block);
        let i = choose|i: int|
            0 <= i < before.len() && (#[trigger] before[i]).assistant == whose
                && before[i].content.contains(block);
        let k = before[i].content.index_of(block);
        assert(all[i].content[k] == block);
        assert(all[i].assistant == whose);
    } else {
        let turn = wire_turn(messages.last());
        let k = turn.content.index_of(block);
        let last = all[all.len() - 1];
        assert(last.assistant == whose);
        if before.len() > 0 && before.last().assistant == turn.assistant {
            assert(last.content[before.last().content.len() + k] == block);
        } else {
            assert(last.content[k] == block);
        }
    }
}

/// The rest of a message is sent block by block and in order: text and signed reasoning where they
/// say something, images, and calls under their ids and names. Nothing else is: reasoning that
/// another vendor left unsigned stays behind.
pub proof fn the_other_blocks_are_sent(content: Seq<BlockView>)
    ensures
        wire_blocks(content) == content.filter(
            |b: BlockView|
                match b {
                    BlockView::Text { text } => text.len() > 0,
                    BlockView::Thinking { text, signature } => text.len() > 0 && signature is Some,
                    BlockView::Image(_) => true,
                    BlockView::ToolCall(_) => true,
                    BlockView::ToolResult(_) => false,
                },
        ).map_values(
            |b: BlockView|
                match b {
                    BlockView::Text { text } => JsonView::Object(
                        seq![("type"@, JsonView::Text("text"@)), ("text"@, JsonView::Text(text))],
                    ),
                    BlockView::Thinking { text, signature } => JsonView::Object(
                        seq![
                            ("type"@, JsonView::Text("thinking"@)),
                            ("thinking"@, JsonView::Text(text)),
                            ("signature"@, JsonView::Text(signature->0)),
                        ],
                    ),
                    BlockView::Image(image) => JsonView::Object(
                        seq![
                            ("type"@, JsonView::Text("image"@)),
                            (
                                "source"@,
                                JsonView::Object(
                                    seq![
                                        ("type"@, JsonView::Text("base64"@)),
                                        ("media_type"@, JsonView::Text(image.media_type)),
                                        ("data"@, JsonView::Text(image.data)),
                                    ],
                                ),
                            ),
                        ],
                    ),
                    BlockView::ToolCall(call) => JsonView::Object(
                        seq![
                            ("type"@, JsonView::Text("tool_use"@)),
                            ("id"@, JsonView::Text(call.id)),
                            ("name"@, JsonView::Text(call.name)),
                            ("input"@, argument_value(call.arguments)),
                        ],
                    ),
                    BlockView::ToolResult(_) => JsonView::Null,
                },
        ),
    decreases content.len(),
{
    let keep = |b: BlockView|
        match b {
            BlockView::Text { text } => text.len() > 0,
            BlockView::Thinking { text, signature } => text.len() > 0 && signature is Some,
            BlockView::Image(_) => true,
            BlockView::ToolCall(_) => true,
            BlockView::ToolResult(_) => false,
        };
    let json = |b: BlockView|
        match b {
            BlockView::Text { text } => JsonView::Object(
                seq![("type"@, JsonView::Text("text"@)), ("text"@, JsonView::Text(text))],
            ),
            BlockView::Thinking { text, signature } => JsonView::Object(
                seq![
                    ("type"@, JsonView::Text("thinking"@)),
                    ("thinking"@, JsonView::Text(text)),
                    ("signature"@, JsonView::Text(signature->0)),
                ],
            ),
            BlockView::Image(image) => JsonView::Object(
                seq![
                    ("type"@, JsonView::Text("image"@)),
                    (
                        "source"@,
                        JsonView::Object(
                            seq![
                                ("type"@, JsonView::Text("base64"@)),
                                ("media_type"@, JsonView::Text(image.media_type)),
                                ("data"@, JsonView::Text(image.data)),
                            ],
                        ),
                    ),
                ],
            ),
            BlockView::ToolCall(call) => JsonView::Object(
                seq![
                    ("type"@, JsonView::Text("tool_use"@)),
                    ("id"@, JsonView::Text(call.id)),
                    ("name"@, JsonView::Text(call.name)),
                    ("input"@, argument_value(call.arguments)),
                ],
            ),
            BlockView::ToolResult(_) => JsonView::Null,
        };
    reveal(Seq::filter);
    if content.len() > 0 {
        let init = content.drop_last();
        let last = content.last();
        the_other_blocks_are_sent(init);
        if keep(last) {
            assert(json(last) == wire_block(last)->0);
            assert(init.filter(keep).push(last).map_values(json) =~= init.filter(keep).map_values(
                json,
            ).push(json(last)));
        }
    }
    assert(wire_blocks(content) =~= content.filter(keep).map_values(json));
}

/// Merging turns loses nothing and mixes nothing up: the blocks of the turns, each with whose it
/// is, are the blocks of the messages that are not the system's, in order. A message with tool
/// results is the user's and leads with them.
pub proof fn turns_hold_every_block(messages: Seq<MessageView>)
    ensures
        turns_of(messages).map_values(
            |t: TurnView| t.content.map_values(|block: JsonView| (t.assistant, block)),
        ).flatten() == messages.filter(|m: MessageView| m.role != Role::System).map_values(
            |m: MessageView|
                (wire_results(m.content) + wire_blocks(m.content)).map_values(
                    |block: JsonView|
                        (
                            m.role == Role::Assistant && wire_results(m.content).len() == 0,
                            block,
                        ),
                ),
        ).flatten(),
    decreases messages.len(),
{
    let own = |t: TurnView| t.content.map_values(|block: JsonView| (t.assistant, block));
    let keep = |m: MessageView| m.role != Role::System;
    let sent = |m: MessageView|
        (wire_results(m.content) + wire_blocks(m.content)).map_values(
            |block: JsonView|
                (m.role == Role::Assistant && wire_results(m.content).len() == 0, block),
        );
    reveal(Seq::filter);
    let all = turns_of(messages);
    if messages.len() == 0 {
        assert(all.map_values(own) =~= Seq::empty());
        assert(messages.filter(keep).map_values(sent) =~= Seq::empty());
    } else {
        let init = messages.drop_last();
        let last = messages.last();
        turns_hold_every_block(init);
        let before = turns_of(init);
        if last.role != Role::System {
            let turn = wire_turn(last);
            let kept = init.filter(keep);
            assert(kept.push(last).map_values(sent) =~= kept.map_values(sent).push(sent(last)));
            kept.map_values(sent).lemma_flatten_push(sent(last));
            assert(wire_results(last.content).len() == 0 ==> wire_results(last.content)
                + wire_blocks(last.content) =~= wire_blocks(last.content));
            assert(own(turn) =~= sent(last));
            if turn.content.len() == 0 {
                assert(sent(last) =~= Seq::empty());
                assert(kept.map_values(sent).flatten() + sent(last) =~= kept.map_values(
                    sent,
                ).flatten());
            } else if before.len() > 0 && before.last().assistant == turn.assistant {
                let first = before.drop_last();
                let end = before.last();
                let merged = TurnView {
                    assistant: turn.assistant,
                    content: end.content + turn.content,
                };
                assert(first.push(end) =~= before);
                assert(before.map_values(own) =~= first.map_values(own).push(own(end)));
                assert(all.map_values(own) =~= first.map_values(own).push(own(merged)));
                first.map_values(own).lemma_flatten_push(own(end));
                first.map_values(own).lemma_flatten_push(own(merged));
                assert(own(merged) =~= own(end) + own(turn));
                assert(all.map_values(own).flatten() =~= before.map_values(own).flatten() + own(
                    turn,
                ));
            } else {
                assert(all.map_values(own) =~= before.map_values(own).push(own(turn)));
                before.map_values(own).lemma_flatten_push(own(turn));
            }
        }
    }
}

/// The system prompt is the request's own and every text of the system's messages, in order, with
/// a blank line before each but the first that says something.
pub proof fn the_system_prompt_is_lifted_out(own: Option<Seq<char>>, messages: Seq<MessageView>)
    ensures
        system_of(own, messages) == messages.filter(
            |m: MessageView| m.role == Role::System,
        ).map_values(|m: MessageView| m.content).flatten().filter(
            |b: BlockView| b is Text,
        ).fold_left(
            own.unwrap_or(Seq::empty()),
            |prompt: Seq<char>, b: BlockView|
                if prompt.len() == 0 {
                    b->Text_text
                } else {
                    prompt + seq!['\n', '\n'] + b->Text_text
                },
        ),
    decreases messages.len(),
{
    let keep = |m: MessageView| m.role == Role::System;
    let content = |m: MessageView| m.content;
    let is_text = |b: BlockView| b is Text;
    let join = |prompt: Seq<char>, b: BlockView|
        if prompt.len() == 0 {
            b->Text_text
        } else {
            prompt + seq!['\n', '\n'] + b->Text_text
        };
    let start = own.unwrap_or(Seq::empty());
    reveal(Seq::filter);
    reveal_with_fuel(Seq::fold_left, 2);
    if messages.len() == 0 {
        assert(messages.filter(keep).map_values(content) =~= Seq::empty());
    } else {
        let init = messages.drop_last();
        let last = messages.last();
        the_system_prompt_is_lifted_out(own, init);
        if last.role == Role::System {
            let before = init.filter(keep);
            assert(before.push(last).map_values(content) =~= before.map_values(content).push(
                last.content,
            ));
            before.map_values(content).lemma_flatten_push(last.content);
            let blocks = before.map_values(content).flatten();
            Seq::filter_distributes_over_add(blocks, last.content, is_text);
            lemma_prompt(start, blocks.filter(is_text), last.content);
        }
    }
}

proof fn lemma_prompt(start: Seq<char>, before: Seq<BlockView>, content: Seq<BlockView>)
    ensures
        ({
            let join = |prompt: Seq<char>, b: BlockView|
                if prompt.len() == 0 {
                    b->Text_text
                } else {
                    prompt + seq!['\n', '\n'] + b->Text_text
                };
            with_system(before.fold_left(start, join), content) == (before + content.filter(
                |b: BlockView| b is Text,
            )).fold_left(start, join)
        }),
    decreases content.len(),
{
    let join = |prompt: Seq<char>, b: BlockView|
        if prompt.len() == 0 {
            b->Text_text
        } else {
            prompt + seq!['\n', '\n'] + b->Text_text
        };
    let is_text = |b: BlockView| b is Text;
    reveal(Seq::filter);
    reveal_with_fuel(Seq::fold_left, 2);
    reveal_strlit("\n\n");
    assert("\n\n"@ =~= seq!['\n', '\n']);
    if content.len() == 0 {
        assert(before + content.filter(is_text) =~= before);
    } else {
        let init = content.drop_last();
        let last = content.last();
        lemma_prompt(start, before, init);
        if last is Text {
            let all = before + content.filter(is_text);
            assert(all =~= (before + init.filter(is_text)).push(last));
            assert(all.drop_last() =~= before + init.filter(is_text));
        }
    }
}

/// The body says what the request asks: its model, whether to stream, its reply budget or the one
/// for a request without, and its turns; and the system prompt, the tools, the thinking budget and
/// the temperature, each just where there is one to send. A temperature is never sent beside a
/// thinking budget.
pub proof fn the_body_says_what_is_asked(request: RequestView, stream: bool)
    ensures
        ({
            let body = JsonView::Object(body_of(request, stream));
            let max: u32 = request.max_output_tokens.unwrap_or(4096);
            let system = system_of(request.system, request.messages);
            let thinking = thinking_of(request.reasoning_effort, max);
            &&& wire::says(body, "model"@, JsonView::Text(request.model))
            &&& wire::says(body, "stream"@, JsonView::Bool(stream))
            &&& wire::says(body, "max_tokens"@, JsonView::Number(decimal_of(max as nat)))
            &&& system.len() > 0 ==> wire::says(body, "system"@, JsonView::Text(system))
            &&& system.len() == 0 ==> wire::is_silent(body, "system"@)
            &&& wire::says(
                body,
                "messages"@,
                JsonView::Array(turns_of(request.messages).map_values(|t: TurnView| turn_json(t))),
            )
            &&& request.tools.len() == 0 ==> wire::is_silent(body, "tools"@)
            &&& request.tools.len() > 0 ==> wire::says(
                body,
                "tools"@,
                JsonView::Array(
                    request.tools.map_values(
                        |tool: ToolSpecView|
                            JsonView::Object(
                                seq![
                                    ("name"@, JsonView::Text(tool.name)),
                                    ("description"@, JsonView::Text(tool.description)),
                                    ("input_schema"@, tool.input_schema),
                                ],
                            ),
                    ),
                ),
            )
            &&& match thinking {
                Some(budget) => wire::says(
                    body,
                    "thinking"@,
                    JsonView::Object(
                        seq![
                            ("type"@, JsonView::Text("enabled"@)),
                            ("budget_tokens"@, JsonView::Number(decimal_of(budget as nat))),
                        ],
                    ),
                ) && wire::is_silent(body, "temperature"@),
                None => wire::is_silent(body, "thinking"@) && match request.temperature {
                    Some(t) => wire::says(body, "temperature"@, JsonView::Number(t)),
                    None => wire::is_silent(body, "temperature"@),
                },
            }
        }),
{
    reveal_strlit("model");
    reveal_strlit("stream");
    reveal_strlit("max_tokens");
    reveal_strlit("system");
    reveal_strlit("messages");
    reveal_strlit("tools");
    reveal_strlit("thinking");
    reveal_strlit("temperature");
    assert("model"@.len() == 5 && "messages"@.len() == 8 && "stream"@.len() == 6);
    assert("system"@.len() == 6 && "tools"@.len() == 5 && "max_tokens"@.len() == 10);
    assert("temperature"@.len() == 11 && "thinking"@.len() == 8);
    assert("model"@[0] == 'm' && "tools"@[0] == 't' && "messages"@[0] == 'm');
    assert("thinking"@[0] == 't' && "system"@[1] == 'y' && "stream"@[1] == 't');
    let none = Seq::<(Seq<char>, JsonView)>::empty();
    let max_tokens = reply_budget(request.max_output_tokens);
    let model = ("model"@, JsonView::Text(request.model));
    let streams = ("stream"@, JsonView::Bool(stream));
    let max = ("max_tokens"@, number(max_tokens as nat));
    assert(wire::is_silent(JsonView::Object(none), "model"@));
    assert(wire::is_silent(JsonView::Object(none), "stream"@));
    assert(wire::is_silent(JsonView::Object(none), "max_tokens"@));
    assert(wire::is_silent(JsonView::Object(none), "system"@));
    assert(wire::is_silent(JsonView::Object(none), "messages"@));
    assert(wire::is_silent(JsonView::Object(none), "tools"@));
    assert(wire::is_silent(JsonView::Object(none), "thinking"@));
    assert(wire::is_silent(JsonView::Object(none), "temperature"@));
    wire::lemma_says_more(none, model.0, model.1);
    wire::lemma_says_more(none.push(model), streams.0, streams.1);
    wire::lemma_says_more(none.push(model).push(streams), max.0, max.1);
    let head = none.push(model).push(streams).push(max);
    assert(head =~= seq![model, streams, max]);
    let system = system_of(request.system, request.messages);
    let prompted = if system.len() > 0 {
        wire::lemma_says_more(head, "system"@, JsonView::Text(system));
        head.push(("system"@, JsonView::Text(system)))
    } else {
        head
    };
    let turns = JsonView::Array(
        turns_of(request.messages).map_values(|t: TurnView| turn_json(t)),
    );
    wire::lemma_says_more(prompted, "messages"@, turns);
    let spoken = prompted.push(("messages"@, turns));
    let tooled = if request.tools.len() > 0 {
        let json = request.tools.map_values(|t: ToolSpecView| tool_json(t));
        wire::lemma_says_more(spoken, "tools"@, JsonView::Array(json));
        assert(json =~= request.tools.map_values(
            |tool: ToolSpecView|
                JsonView::Object(
                    seq![
                        ("name"@, JsonView::Text(tool.name)),
                        ("description"@, JsonView::Text(tool.description)),
                        ("input_schema"@, tool.input_schema),
                    ],
                ),
        ));
        spoken.push(("tools"@, JsonView::Array(json)))
    } else {
        spoken
    };
    match thinking_of(request.reasoning_effort, max_tokens) {
        Some(budget) => {
            wire::lemma_says_more(
                tooled,
                "thinking"@,
                JsonView::Object(
                    seq![
                        ("type"@, JsonView::Text("enabled"@)),
                        ("budget_tokens"@, number(budget as nat)),
                    ],
                ),
            );
        },
        None => {
            if let Some(t) = request.temperature {
                wire::lemma_says_more(tooled, "temperature"@, JsonView::Number(t));
            }
        },
    }
}

/// A higher level never buys a smaller thinking budget, and a request without a level thinks
/// nothing. With room for all of it, a level buys its whole budget.
pub proof fn a_higher_level_buys_no_less(low: ReasoningEffort, high: ReasoningEffort, max: u32)
    requires
        rank(low) <= rank(high),
    ensures
        budget_of(low) <= budget_of(high),
        budget_of(low) == 4096 * (if rank(low) > 4 {
            16int
        } else {
            vstd::arithmetic::power2::pow2(rank(low)) as int
        }),
        thinking_of(None, max) is None,
        max >= budget_of(high) + 1024 ==> thinking_of(Some(high), max) == Some(budget_of(high)),
        max < 2048 ==> thinking_of(Some(high), max) is None,
        2048 <= max < budget_of(high) + 1024 ==> thinking_of(Some(high), max) == Some(
            (max - 1024) as u32,
        ),
{
    vstd::arithmetic::power2::lemma2_to64();
}

/// How far up the ladder a level stands.
pub open spec fn rank(effort: ReasoningEffort) -> nat {
    match effort {
        ReasoningEffort::Low => 0,
        ReasoningEffort::Medium => 1,
        ReasoningEffort::High => 2,
        ReasoningEffort::XHigh => 3,
        ReasoningEffort::Max => 4,
        ReasoningEffort::Ultra => 5,
    }
}

/// A tool call that starts is announced with its id and its name, and stands open under its place
/// with no arguments; one without an id ends the stream with a failure. The start of any other
/// block changes nothing.
pub proof fn a_started_call_is_announced(reading: Reading, event: MessageEvent)
    requires
        !reading.sink.complete,
        event.kind@ == "content_block_start"@,
    ensures
        ({
            let next = reading.next(event);
            let place: usize = event.index.unwrap_or(0);
            match event.content_block {
                Some(block) => if block.kind@ == "tool_use"@ {
                    match block.id {
                        Some(id) => {
                            &&& next.sink.items == reading.sink.items.push(
                                Ok(
                                    ChunkView::ToolCallStart {
                                        id: id@,
                                        name: if block.name is Some {
                                            block.name->0@
                                        } else {
                                            Seq::empty()
                                        },
                                    },
                                ),
                            )
                            &&& next.decoder.calls.dom() == reading.decoder.calls.dom().insert(place)
                            &&& next.decoder.calls[place].id == id@
                            &&& next.decoder.calls[place].arguments.len() == 0
                            &&& forall|other: usize|
                                other != place && reading.decoder.calls.contains_key(other)
                                    ==> #[trigger] next.decoder.calls[other]
                                    == reading.decoder.calls[other]
                            &&& next.decoder.usage == reading.decoder.usage
                            &&& next.decoder.stop == reading.decoder.stop
                        },
                        None => {
                            &&& next.decoder == reading.decoder
                            &&& next.sink.items.len() == reading.sink.items.len() + 1
                            &&& next.sink.items.last() matches Err(ProviderErrorView::Protocol(_))
                            &&& next.sink.complete
                        },
                    }
                } else {
                    next == reading
                },
                None => next == reading,
            }
        }),
{
    lemma_kinds();
    let place: usize = event.index.unwrap_or(0);
    assert(reading.next(event) == reading.block_started(event));
    if event.content_block is Some && event.content_block->0.id is Some {
        assert(reading.decoder.calls.insert(
            place,
            wire::OpenCallView { id: event.content_block->0.id->0@, arguments: Seq::empty() },
        ).dom() =~= reading.decoder.calls.dom().insert(place));
    }
}

/// The kinds of frame differ.
proof fn lemma_kinds()
    ensures
        "message_start"@.len() == 13,
        "content_block_start"@.len() == 19,
        "content_block_delta"@.len() == 19,
        "content_block_start"@ != "content_block_delta"@,
        "content_block_stop"@.len() == 18,
        "message_delta"@.len() == 13,
        "message_delta"@ != "message_start"@,
        "message_stop"@.len() == 12,
        "error"@.len() == 5,
{
    reveal_strlit("message_start");
    reveal_strlit("content_block_start");
    reveal_strlit("content_block_delta");
    reveal_strlit("content_block_stop");
    reveal_strlit("message_delta");
    reveal_strlit("message_stop");
    reveal_strlit("error");
    assert("content_block_start"@[14] == 's' && "content_block_delta"@[14] == 'd');
    assert("message_start"@[8] == 's' && "message_delta"@[8] == 'd');
}

/// What a block says is passed on: reasoning, its signature and text, in this order and each where
/// there is any; and then a fragment of arguments, under the id of the call of its place, behind
/// the arguments that the call had. A fragment for no call ends the stream with a failure.
pub proof fn what_a_block_says_is_passed_on(reading: Reading, event: MessageEvent)
    requires
        !reading.sink.complete,
        event.kind@ == "content_block_delta"@,
        event.delta is Some,
    ensures
        ({
            let next = reading.next(event);
            let delta = event.delta->0;
            let place: usize = event.index.unwrap_or(0);
            let thought: Seq<Result<ChunkView, ProviderErrorView>> = if delta.thinking is Some
                && delta.thinking->0@.len() > 0 {
                seq![Ok(ChunkView::ThinkingDelta(delta.thinking->0@))]
            } else {
                Seq::empty()
            };
            let signed: Seq<Result<ChunkView, ProviderErrorView>> = if delta.signature is Some
                && delta.signature->0@.len() > 0 {
                seq![Ok(ChunkView::ThinkingSignature(delta.signature->0@))]
            } else {
                Seq::empty()
            };
            let text: Seq<Result<ChunkView, ProviderErrorView>> = if delta.text is Some
                && delta.text->0@.len() > 0 {
                seq![Ok(ChunkView::TextDelta(delta.text->0@))]
            } else {
                Seq::empty()
            };
            let said = reading.sink.items + thought + signed + text;
            if delta.partial_json is None || delta.partial_json->0@.len() == 0 {
                next.sink.items == said && !next.sink.complete && next.decoder == reading.decoder
            } else if reading.decoder.calls.contains_key(place) {
                let call = reading.decoder.calls[place];
                let fragment = delta.partial_json->0@;
                &&& next.sink.items == said.push(
                    Ok(ChunkView::ToolCallArgsDelta { id: call.id, delta: fragment }),
                )
                &&& !next.sink.complete
                &&& next.decoder.calls.dom() == reading.decoder.calls.dom()
                &&& next.decoder.calls[place].id == call.id
                &&& next.decoder.calls[place].arguments == call.arguments + fragment
                &&& forall|other: usize|
                    other != place && reading.decoder.calls.contains_key(other)
                        ==> #[trigger] next.decoder.calls[other] == reading.decoder.calls[other]
                &&& next.decoder.usage == reading.decoder.usage
                &&& next.decoder.stop == reading.decoder.stop
            } else {
                &&& next.decoder == reading.decoder
                &&& next.sink.complete
                &&& next.sink.items.len() == said.len() + 1
                &&& next.sink.items.drop_last() == said
                &&& next.sink.items.last() matches Err(ProviderErrorView::Protocol(_))
            }
        }),
{
    lemma_kinds();
    let next = reading.next(event);
    let delta = event.delta->0;
    let place: usize = event.index.unwrap_or(0);
    let empty = Seq::<Result<ChunkView, ProviderErrorView>>::empty();
    let items = reading.sink.items;
    let thought = match said(delta.thinking) {
        Some(t) => items.push(Ok(ChunkView::ThinkingDelta(t))),
        None => items,
    };
    let signed = match said(delta.signature) {
        Some(t) => thought.push(Ok(ChunkView::ThinkingSignature(t))),
        None => thought,
    };
    let spoken = match said(delta.text) {
        Some(t) => signed.push(Ok(ChunkView::TextDelta(t))),
        None => signed,
    };
    assert(items + empty =~= items);
    assert(thought + empty =~= thought);
    assert(signed + empty =~= signed);
    if let Some(t) = said(delta.thinking) {
        assert(items + seq![Ok::<ChunkView, ProviderErrorView>(ChunkView::ThinkingDelta(t))]
            =~= thought);
    }
    if let Some(t) = said(delta.signature) {
        assert(thought + seq![
            Ok::<ChunkView, ProviderErrorView>(ChunkView::ThinkingSignature(t)),
        ] =~= signed);
    }
    if let Some(t) = said(delta.text) {
        assert(signed + seq![Ok::<ChunkView, ProviderErrorView>(ChunkView::TextDelta(t))]
            =~= spoken);
    }
    assert(next == reading.block_changed(event));
    assert(next.sink.complete ==> next.sink.items.drop_last() =~= spoken);
    if reading.decoder.calls.contains_key(place) {
        assert(next.decoder.calls.dom() =~= reading.decoder.calls.dom());
    }
}

/// A block that ends closes the call of its place and no other: the call is ended as any call is,
/// and where no call stood there nothing happens.
pub proof fn an_ended_block_closes_its_call(reading: Reading, event: MessageEvent)
    requires
        event.kind@ == "content_block_stop"@,
    ensures
        ({
            let next = reading.next(event);
            let place: usize = event.index.unwrap_or(0);
            &&& next.decoder.calls == reading.decoder.calls.remove(place)
            &&& next.decoder.usage == reading.decoder.usage
            &&& next.decoder.stop == reading.decoder.stop
            &&& next.sink == (if reading.decoder.calls.contains_key(place) {
                wire::ended(reading.sink, reading.decoder.calls[place])
            } else {
                reading.sink
            })
        }),
{
    lemma_kinds();
    let place: usize = event.index.unwrap_or(0);
    if !reading.decoder.calls.contains_key(place) {
        assert(reading.decoder.calls.remove(place) =~= reading.decoder.calls);
    }
}

/// The counts of a message are kept until it ends: each that a frame reports takes the place of the
/// one before, and one that it does not report stays. Only the start and the change of a message
/// report any, and only its change says why it stopped.
pub proof fn counts_are_kept_until_the_end(reading: Reading, event: MessageEvent)
    requires
        event.kind@ == "message_start"@ || event.kind@ == "message_delta"@,
    ensures
        ({
            let next = reading.next(event);
            let reported = if event.kind@ == "message_start"@ {
                event.message_usage
            } else {
                event.usage
            };
            &&& next.sink == reading.sink
            &&& next.decoder.calls == reading.decoder.calls
            &&& reported is None ==> next.decoder.usage == reading.decoder.usage
            &&& reported matches Some(counts) ==> {
                let was = reading.decoder.usage;
                let is = next.decoder.usage;
                &&& counts.input_tokens > 0 ==> is.input_tokens == counts.input_tokens
                &&& counts.input_tokens == 0 ==> is.input_tokens == was.input_tokens
                &&& counts.output_tokens > 0 ==> is.output_tokens == counts.output_tokens
                &&& counts.output_tokens == 0 ==> is.output_tokens == was.output_tokens
                &&& counts.cache_read_input_tokens > 0 ==> is.cached_input_tokens
                    == counts.cache_read_input_tokens
                &&& counts.cache_read_input_tokens == 0 ==> is.cached_input_tokens
                    == was.cached_input_tokens
                &&& is.reasoning_tokens == was.reasoning_tokens
            }
            &&& next.decoder.stop == (if event.kind@ == "message_delta"@ && event.delta is Some
                && event.delta->0.stop_reason is Some {
                Some(stop_of(event.delta->0.stop_reason->0@))
            } else {
                reading.decoder.stop
            })
        }),
{
    lemma_kinds();
}

/// A message ends with its counts and then with why it stopped, which is the end of its turn where
/// nothing else was said; and that is the end of the stream. A failure is the end too, and a frame
/// of any other kind changes nothing.
pub proof fn a_message_ends_once(reading: Reading, event: MessageEvent)
    requires
        !reading.sink.complete,
    ensures
        ({
            let next = reading.next(event);
            let kind = event.kind@;
            &&& kind == "message_stop"@ ==> {
                &&& next.sink.complete
                &&& next.sink.items == reading.sink.items.push(
                    Ok(ChunkView::Usage(reading.decoder.usage)),
                ).push(Ok(ChunkView::Done(reading.decoder.stop.unwrap_or(StopView::EndTurn))))
            }
            &&& kind == "error"@ ==> {
                &&& next.sink.complete
                &&& next.sink.items.len() == reading.sink.items.len() + 1
                &&& next.sink.items.drop_last() == reading.sink.items
                &&& next.sink.items.last() is Err
                &&& next.decoder == reading.decoder
            }
            &&& kind != "message_start"@ && kind != "content_block_start"@ && kind
                != "content_block_delta"@ && kind != "content_block_stop"@ && kind
                != "message_delta"@ && kind != "message_stop"@ && kind != "error"@ ==> next
                == reading
        }),
{
    lemma_kinds();
    if event.kind@ == "error"@ {
        assert(reading.next(event).sink.items.drop_last() =~= reading.sink.items);
    }
}

/// Which failures a frame stands for: only a rate limit and what nobody can place are worth
/// repeating, only a rejected credential or permission is worth signing in again over, and every
/// failure but a rate limit is told in the vendor's own words, where it has any.
pub proof fn failures_are_told_apart(error: Option<WireError>)
    ensures
        ({
            let failure = failure_of(error);
            let kind = if error is Some && error->0.kind is Some {
                error->0.kind->0@
            } else {
                Seq::empty()
            };
            let detail = match failure {
                ProviderErrorView::Unauthorized(detail) => detail,
                ProviderErrorView::InvalidRequest(detail) => detail,
                ProviderErrorView::UnknownModel(detail) => detail,
                ProviderErrorView::Transient(detail) => detail,
                _ => Seq::empty(),
            };
            &&& failure is Unauthorized <==> (kind == "authentication_error"@ || kind
                == "permission_error"@)
            &&& failure is RateLimited <==> kind == "rate_limit_error"@
            &&& failure is InvalidRequest <==> kind == "invalid_request_error"@
            &&& failure is UnknownModel <==> kind == "not_found_error"@
            &&& !(failure is NotEntitled) && !(failure is Protocol)
            &&& error is Some && error->0.message is Some && !(failure is RateLimited) ==> detail
                == error->0.message->0@
        }),
{
    reveal_strlit("authentication_error");
    reveal_strlit("permission_error");
    reveal_strlit("rate_limit_error");
    reveal_strlit("invalid_request_error");
    reveal_strlit("not_found_error");
    assert("authentication_error"@.len() == 20 && "permission_error"@.len() == 16);
    assert("rate_limit_error"@.len() == 16 && "invalid_request_error"@.len() == 21);
    assert("not_found_error"@.len() == 15);
    assert("permission_error"@[0] == 'p' && "rate_limit_error"@[0] == 'r');
}

/// Which stop reasons stand for what: just two stand for a call, one for a reply that was cut short
/// and one for a refusal. Every other one ended the turn.
pub proof fn stop_reasons_are_told_apart(reason: Seq<char>)
    ensures
        stop_of(reason) is ToolUse <==> (reason == "tool_use"@ || reason == "pause_turn"@),
        stop_of(reason) is MaxTokens <==> reason == "max_tokens"@,
        stop_of(reason) is Refusal <==> reason == "refusal"@,
        !(stop_of(reason) is Cancelled),
{
    reveal_strlit("tool_use");
    reveal_strlit("pause_turn");
    reveal_strlit("max_tokens");
    reveal_strlit("refusal");
    assert("tool_use"@.len() == 8 && "pause_turn"@.len() == 10);
    assert("max_tokens"@.len() == 10 && "refusal"@.len() == 7);
    assert("pause_turn"@[0] == 'p' && "max_tokens"@[0] == 'm');
}

} // verus!
