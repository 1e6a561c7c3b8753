//! The wire formats.

use keke::protocol::{
    ContentBlock, Json, Message, ReasoningEffort, Role, StopReason, ToolCall, ToolResult,
    ToolStatus, Usage,
};
use keke::provider::ModelInfo;
use keke::wire::chat_completions::{
    chat_completions_body, payload, ChatChunk, Payload, ReplyChoice, ToolCallDelta,
};
use keke::wire::client::{WireApi, WireClient};
use keke::wire::http::{
    check_status, chosen_detail, error_detail, names_an_auth_failure, transport_error,
};
use keke::wire::messages::{
    messages_body, BlockStart, Delta, MessageEvent, WireError, WireUsage,
};
use keke::wire::{
    arguments_string, arguments_value, check_arguments, spell, ModelRequest, ProviderError, Sink,
    StreamChunk, ToolSpec, WireModel,
};
use keke::wire::{chat_completions, messages};

fn request() -> ModelRequest {
    ModelRequest {
        model: "a-model".to_string(),
        system: None,
        messages: vec![Message::user("hello")],
        tools: Vec::new(),
        max_output_tokens: None,
        temperature: None,
        reasoning_effort: None,
    }
}

fn read(body: &Json) -> serde_json::Value {
    serde_json::from_str(&spell(body)).expect("what is spelled is JSON")
}

fn text(value: &serde_json::Value) -> &str {
    value.as_str().unwrap_or("(no text)")
}

fn object(members: &[(&str, &str)]) -> Json {
    Json::Object(
        members
            .iter()
            .map(|(key, value)| (key.to_string(), Json::Text(value.to_string())))
            .collect(),
    )
}

const XAI_OUT_OF_CREDITS: &str = r#"{"code":"personal-team-blocked:spending-limit","error":"You have run out of credits or need a Grok subscription. Add credits at https://grok.com/?_s=usage or upgrade at https://grok.com/supergrok."}"#;

#[test]
fn an_out_of_credits_403_is_not_an_authentication_failure() {
    assert!(!names_an_auth_failure(XAI_OUT_OF_CREDITS));

    let error = ProviderError::NotEntitled(error_detail(XAI_OUT_OF_CREDITS));
    assert!(
        !error.needs_reauth(),
        "refreshing a token buys no credits, and the retry hides the account message"
    );
    assert!(!error.is_retryable());
    let ProviderError::NotEntitled(detail) = &error else {
        panic!("not entitled");
    };
    assert!(
        detail.contains("run out of credits"),
        "the vendor's own words are what tell a person what to do: {detail}"
    );
}

#[test]
fn a_403_that_blames_the_credential_still_refreshes() {
    let body = r#"{"code":"unauthenticated","error":"API key is missing."}"#;
    assert!(names_an_auth_failure(body));
}

#[test]
fn a_failure_says_what_its_vendor_said() {
    assert_eq!(error_detail(r#"{"error":{"message":"bad model"}}"#), "bad model");
    assert_eq!(error_detail(r#"{"error":"plain"}"#), "plain");
    assert_eq!(error_detail(r#"{"message":"beside"}"#), "beside");
    assert_eq!(error_detail(r#"{"error":{"code":1}}"#), r#"{"error":{"code":1}}"#);
    assert_eq!(error_detail("  gateway timeout \n"), "gateway timeout");
    assert_eq!(
        chosen_detail(Some(None), Some(Some("inner".to_string())), "body"),
        "inner"
    );
    assert_eq!(chosen_detail(None, None, " body "), "body");
}

#[test]
fn a_status_becomes_what_to_do_next() {
    let at = |status: u16| check_status(status, Some(3000), "why");
    assert_eq!(at(204), Ok(()));
    assert_eq!(at(401), Err(ProviderError::Unauthorized("why".to_string())));
    assert_eq!(at(402), Err(ProviderError::NotEntitled("why".to_string())));
    assert_eq!(at(403), Err(ProviderError::NotEntitled("why".to_string())));
    assert_eq!(
        check_status(403, None, "Token EXPIRED"),
        Err(ProviderError::Unauthorized("Token EXPIRED".to_string()))
    );
    assert_eq!(at(404), Err(ProviderError::UnknownModel("why".to_string())));
    assert_eq!(
        at(429),
        Err(ProviderError::RateLimited { retry_after_millis: Some(3000) })
    );
    assert_eq!(at(400), Err(ProviderError::InvalidRequest("why".to_string())));
    assert_eq!(at(422), Err(ProviderError::InvalidRequest("why".to_string())));
    assert_eq!(at(503), Err(ProviderError::Transient("why".to_string())));
    assert_eq!(
        at(418),
        Err(ProviderError::Protocol("provider returned HTTP 418: why".to_string()))
    );
}

#[test]
fn a_failure_to_connect_may_be_retried() {
    let error = transport_error(false, true, false, "refused".to_string());
    assert!(error.is_retryable());
    let error = transport_error(false, false, false, "odd".to_string());
    assert_eq!(error, ProviderError::Protocol("odd".to_string()));
}

#[test]
fn effort_is_sent_as_written() {
    let body = chat_completions_body(
        &ModelRequest { reasoning_effort: Some(ReasoningEffort::XHigh), ..request() },
        false,
    );
    assert_eq!(text(&read(&body)["reasoning_effort"]), "xhigh");
}

#[test]
fn chat_completions_an_unset_effort_leaves_the_field_off() {
    let body = chat_completions_body(&request(), false);
    assert!(read(&body).get("reasoning_effort").is_none(), "{body:?}");
}

#[test]
fn the_system_prompt_leads_the_message_array() {
    let request = ModelRequest { system: Some("be \"terse\"\n".to_string()), ..request() };
    let body = read(&chat_completions_body(&request, true));
    assert_eq!(text(&body["messages"][0]["role"]), "system");
    assert_eq!(text(&body["messages"][0]["content"]), "be \"terse\"\n");
    assert_eq!(body["stream_options"]["include_usage"].as_bool(), Some(true));
    assert!(body.get("input").is_none());
}

fn conversation() -> ModelRequest {
    ModelRequest {
        system: Some("be terse".to_string()),
        messages: vec![
            Message { role: Role::System, content: vec![ContentBlock::text("and be kind")] },
            Message::user("read it"),
            Message {
                role: Role::Assistant,
                content: vec![
                    ContentBlock::text("Looking."),
                    ContentBlock::ToolCall(ToolCall {
                        id: "toolu_9".to_string(),
                        name: "read_file".to_string(),
                        arguments: object(&[("path", "a.rs")]),
                    }),
                ],
            },
            Message {
                role: Role::Tool,
                content: vec![ContentBlock::ToolResult(ToolResult {
                    id: "toolu_9".to_string(),
                    status: ToolStatus::Succeeded,
                    content: vec![ContentBlock::text("fn main() {}")],
                    value: None,
                })],
            },
        ],
        tools: vec![ToolSpec {
            name: "read_file".to_string(),
            description: "read a file".to_string(),
            input_schema: object(&[("type", "object")]),
        }],
        max_output_tokens: Some(256),
        ..request()
    }
}

#[test]
fn the_system_prompt_is_a_top_level_field_not_a_message() {
    let body = read(&messages_body(&conversation(), true));
    assert_eq!(text(&body["system"]), "be terse\n\nand be kind");
    assert_eq!(body["max_tokens"].as_u64(), Some(256));
    assert_eq!(text(&body["tools"][0]["input_schema"]["type"]), "object");

    let messages = body["messages"].as_array().expect("messages");
    assert!(
        messages.iter().all(|message| text(&message["role"]) != "system"),
        "a system message reached the array: {messages:?}"
    );
    assert_eq!(text(&messages[0]["role"]), "user");
    assert_eq!(text(&messages[0]["content"][0]["text"]), "read it");
    assert_eq!(text(&messages[1]["role"]), "assistant");
    assert_eq!(text(&messages[1]["content"][1]["type"]), "tool_use");
    assert_eq!(text(&messages[1]["content"][1]["input"]["path"]), "a.rs");
    assert_eq!(text(&messages[2]["role"]), "user");
    assert_eq!(text(&messages[2]["content"][0]["type"]), "tool_result");
    assert_eq!(text(&messages[2]["content"][0]["tool_use_id"]), "toolu_9");
    assert_eq!(messages.len(), 3);
}

#[test]
fn a_flat_wire_splits_one_message_into_several() {
    let body = read(&chat_completions_body(&conversation(), false));
    let messages = body["messages"].as_array().expect("messages");
    let roles: Vec<&str> = messages.iter().map(|message| text(&message["role"])).collect();
    assert_eq!(roles, vec!["system", "system", "user", "assistant", "tool"]);
    assert_eq!(text(&messages[3]["content"]), "Looking.");
    assert_eq!(
        text(&messages[3]["tool_calls"][0]["function"]["arguments"]),
        r#"{"path":"a.rs"}"#
    );
    assert_eq!(text(&messages[4]["tool_call_id"]), "toolu_9");
    assert_eq!(text(&messages[4]["content"]), "fn main() {}");
}

#[test]
fn a_request_without_a_token_budget_still_names_one() {
    let body = read(&messages_body(&request(), true));
    assert!(body["max_tokens"].as_u64().is_some_and(|n| n > 0));
}

fn frame(kind: &str) -> MessageEvent {
    MessageEvent {
        kind: kind.to_string(),
        index: None,
        content_block: None,
        delta: None,
        message_usage: None,
        usage: None,
        error: None,
    }
}

fn delta() -> Delta {
    Delta { text: None, thinking: None, partial_json: None, signature: None, stop_reason: None }
}

fn counts(input_tokens: u64, output_tokens: u64, cache_read_input_tokens: u64) -> WireUsage {
    WireUsage { input_tokens, output_tokens, cache_read_input_tokens }
}

fn decode(frames: &[MessageEvent]) -> Vec<Result<StreamChunk, ProviderError>> {
    let mut decoder = messages::Decoder::new();
    let mut out = Sink::new();
    for frame in frames {
        decoder.on_frame(frame, &mut out);
    }
    decoder.on_end(&mut out);
    out.into_items()
}

fn text_frame(index: usize, part: &str) -> MessageEvent {
    MessageEvent {
        index: Some(index),
        delta: Some(Delta { text: Some(part.to_string()), ..delta() }),
        ..frame("content_block_delta")
    }
}

fn stop(reason: &str) -> Vec<MessageEvent> {
    vec![
        MessageEvent {
            delta: Some(Delta { stop_reason: Some(reason.to_string()), ..delta() }),
            usage: Some(counts(0, 2, 0)),
            ..frame("message_delta")
        },
        frame("message_stop"),
    ]
}

fn start(input: u64, cached: u64) -> MessageEvent {
    MessageEvent { message_usage: Some(counts(input, 0, cached)), ..frame("message_start") }
}

#[test]
fn text_deltas_assemble_and_end_with_one_done() {
    let mut frames = vec![
        start(7, 0),
        MessageEvent {
            index: Some(0),
            content_block: Some(BlockStart { kind: "text".to_string(), id: None, name: None }),
            ..frame("content_block_start")
        },
        frame("ping"),
        text_frame(0, "Hel"),
        text_frame(0, "lo"),
        MessageEvent { index: Some(0), ..frame("content_block_stop") },
    ];
    frames.extend(stop("end_turn"));
    assert_eq!(
        decode(&frames),
        vec![
            Ok(StreamChunk::TextDelta("Hel".to_string())),
            Ok(StreamChunk::TextDelta("lo".to_string())),
            Ok(StreamChunk::Usage(Usage {
                input_tokens: 7,
                output_tokens: 2,
                ..Usage::default()
            })),
            Ok(StreamChunk::Done(StopReason::EndTurn)),
        ]
    );
}

#[test]
fn a_tool_call_split_across_frames_reassembles() {
    let part = |json: &str| MessageEvent {
        index: Some(0),
        delta: Some(Delta { partial_json: Some(json.to_string()), ..delta() }),
        ..frame("content_block_delta")
    };
    let mut frames = vec![
        start(7, 0),
        MessageEvent {
            index: Some(0),
            content_block: Some(BlockStart {
                kind: "tool_use".to_string(),
                id: Some("toolu_1".to_string()),
                name: Some("read_file".to_string()),
            }),
            ..frame("content_block_start")
        },
        part("{\"path\":"),
        part("\"a.rs\"}"),
        MessageEvent { index: Some(0), ..frame("content_block_stop") },
    ];
    frames.extend(stop("tool_use"));
    let chunks = decode(&frames);
    let arguments: String = chunks
        .iter()
        .filter_map(|chunk| match chunk {
            Ok(StreamChunk::ToolCallArgsDelta { id, delta }) if id == "toolu_1" => {
                Some(delta.as_str())
            }
            _ => None,
        })
        .collect();
    assert_eq!(arguments, r#"{"path":"a.rs"}"#);
    assert!(chunks.contains(&Ok(StreamChunk::ToolCallStart {
        id: "toolu_1".to_string(),
        name: "read_file".to_string(),
    })));
    assert!(chunks.contains(&Ok(StreamChunk::ToolCallEnd { id: "toolu_1".to_string() })));
    assert_eq!(chunks.last(), Some(&Ok(StreamChunk::Done(StopReason::ToolUse))));
}

#[test]
fn a_stream_without_its_terminal_event_is_a_protocol_error() {
    let chunks = decode(&[
        start(7, 0),
        text_frame(0, "half an answ"),
        MessageEvent {
            delta: Some(Delta { stop_reason: Some("end_turn".to_string()), ..delta() }),
            ..frame("message_delta")
        },
    ]);
    assert!(!chunks.iter().any(|chunk| matches!(chunk, Ok(StreamChunk::Done(_)))));
    assert!(
        matches!(chunks.last(), Some(Err(ProviderError::Protocol(_)))),
        "got {chunks:?}"
    );
}

#[test]
fn usage_is_reported() {
    let mut frames = vec![start(7, 4)];
    frames.extend(stop("end_turn"));
    assert!(decode(&frames).contains(&Ok(StreamChunk::Usage(Usage {
        input_tokens: 7,
        output_tokens: 2,
        cached_input_tokens: 4,
        reasoning_tokens: 0,
    }))));
}

#[test]
fn a_mid_stream_overload_is_transient() {
    let chunks = decode(&[
        start(7, 0),
        MessageEvent {
            error: Some(WireError {
                kind: Some("overloaded_error".to_string()),
                message: Some("Overloaded".to_string()),
            }),
            ..frame("error")
        },
    ]);
    assert!(
        matches!(chunks.last(), Some(Err(ProviderError::Transient(detail))) if detail.contains("Overloaded")),
        "got {chunks:?}"
    );
}

fn choice() -> ReplyChoice {
    ReplyChoice {
        content: None,
        reasoning_content: None,
        tool_calls: Vec::new(),
        finish_reason: None,
    }
}

fn chunk(choice: ReplyChoice) -> ChatChunk {
    ChatChunk { choices: vec![choice], usage: None }
}

fn decode_chat(frames: &[ChatChunk]) -> Vec<Result<StreamChunk, ProviderError>> {
    let mut decoder = chat_completions::Decoder::new();
    let mut out = Sink::new();
    for frame in frames {
        decoder.on_frame(frame, &mut out);
    }
    decoder.on_end(&mut out);
    out.into_items()
}

fn finish(reason: &str) -> ChatChunk {
    chunk(ReplyChoice { finish_reason: Some(reason.to_string()), ..choice() })
}

#[test]
fn chat_deltas_assemble_and_end_with_one_done() {
    let frames = [
        chunk(ReplyChoice { content: Some("Hel".to_string()), ..choice() }),
        chunk(ReplyChoice { reasoning_content: Some("pondering".to_string()), ..choice() }),
        chunk(ReplyChoice { content: Some("lo".to_string()), ..choice() }),
        finish("stop"),
    ];
    assert_eq!(
        decode_chat(&frames),
        vec![
            Ok(StreamChunk::TextDelta("Hel".to_string())),
            Ok(StreamChunk::ThinkingDelta("pondering".to_string())),
            Ok(StreamChunk::TextDelta("lo".to_string())),
            Ok(StreamChunk::Done(StopReason::EndTurn)),
        ]
    );
}

#[test]
fn chat_calls_close_in_the_order_of_their_index() {
    let call = |index: usize, id: Option<&str>, arguments: &str| ToolCallDelta {
        index,
        id: id.map(str::to_string),
        name: id.map(|_| "read_file".to_string()),
        arguments: Some(arguments.to_string()),
    };
    let frames = [
        chunk(ReplyChoice {
            tool_calls: vec![call(1, Some("b"), "{}"), call(0, Some("a"), "{\"x\":")],
            ..choice()
        }),
        chunk(ReplyChoice { tool_calls: vec![call(0, None, "1}")], ..choice() }),
        finish("tool_calls"),
    ];
    let ends: Vec<String> = decode_chat(&frames)
        .into_iter()
        .filter_map(|chunk| match chunk {
            Ok(StreamChunk::ToolCallEnd { id }) => Some(id),
            _ => None,
        })
        .collect();
    assert_eq!(ends, vec!["a", "b"]);
}

#[test]
fn a_chat_call_with_arguments_that_do_not_parse_ends_the_stream() {
    let frames = [
        chunk(ReplyChoice {
            tool_calls: vec![ToolCallDelta {
                index: 0,
                id: Some("a".to_string()),
                name: None,
                arguments: Some("{".to_string()),
            }],
            ..choice()
        }),
        finish("tool_calls"),
    ];
    let chunks = decode_chat(&frames);
    assert!(
        matches!(chunks.last(), Some(Err(ProviderError::Protocol(detail))) if detail.starts_with("unparseable arguments for tool call a: ")),
        "got {chunks:?}"
    );
}

#[test]
fn a_chat_fragment_before_any_id_ends_the_stream() {
    let chunks = decode_chat(&[chunk(ReplyChoice {
        tool_calls: vec![ToolCallDelta { index: 3, id: None, name: None, arguments: None }],
        ..choice()
    })]);
    assert_eq!(
        chunks,
        vec![Err(ProviderError::Protocol(
            "a tool call fragment arrived for index 3 before any call id".to_string()
        ))]
    );
}

#[test]
fn a_stream_that_stops_early_is_retryable_rather_than_malformed() {
    let chunks =
        decode_chat(&[chunk(ReplyChoice { content: Some("half".to_string()), ..choice() })]);
    assert!(
        matches!(chunks.last(), Some(Err(ProviderError::Transient(_)))),
        "got {chunks:?}"
    );
}

#[test]
fn chat_usage_is_reported_once() {
    let counted = ChatChunk {
        choices: Vec::new(),
        usage: Some(chat_completions::WireUsage {
            prompt_tokens: 10,
            completion_tokens: 4,
            cached_tokens: Some(3),
            reasoning_tokens: None,
        }),
    };
    let again = ChatChunk { choices: Vec::new(), usage: counted.usage };
    let chunks = decode_chat(&[counted, again, finish("length")]);
    assert_eq!(
        chunks,
        vec![
            Ok(StreamChunk::Usage(Usage {
                input_tokens: 10,
                output_tokens: 4,
                cached_input_tokens: 3,
                reasoning_tokens: 0,
            })),
            Ok(StreamChunk::Done(StopReason::MaxTokens)),
        ]
    );
}

#[test]
fn a_payload_is_blank_or_the_end_or_a_frame() {
    assert_eq!(payload("  "), Payload::Blank);
    assert_eq!(payload(" [DONE]\n"), Payload::Done);
    assert_eq!(payload(" {} "), Payload::Frame("{}".to_string()));
}

#[test]
fn an_endpoint_is_asked_where_its_format_lives() {
    let client = WireClient::new("https://api.x.ai/v1//")
        .with_extra_headers(vec![("x-gateway".to_string(), "1".to_string())]);
    assert_eq!(client.base_url(), "https://api.x.ai/v1");
    let sent = client.outgoing(WireApi::Messages, &request()).expect("sent");
    assert_eq!(sent.url, "https://api.x.ai/v1/messages");
    assert!(
        sent.headers
            .contains(&("anthropic-version".to_string(), messages::ANTHROPIC_VERSION.to_string())),
        "{:?}",
        sent.headers
    );
    let credential = vec![("authorization".to_string(), "Bearer t".to_string())];
    let headers = client.authorized(sent.headers, &credential);
    assert_eq!(headers.last(), credential.last());
    assert_eq!(headers[headers.len() - 2].0, "x-gateway");
    let refused = client.outgoing(WireApi::Custom, &request()).expect_err("refused");
    assert!(matches!(refused, ProviderError::InvalidRequest(_)));
    assert!(client.with_fixed_sampling().sampling_is_fixed());
}

#[test]
fn arguments_travel_as_text_or_as_a_value() {
    assert_eq!(arguments_string(&Json::text("{\"a\":1}")), "{\"a\":1}");
    assert_eq!(arguments_string(&object(&[("a", "b\"c")])), "{\"a\":\"b\\\"c\"}");
    assert_eq!(spell(&arguments_value(&Json::text("{\"a\":1}"))), "{\"a\":1}");
    assert_eq!(spell(&arguments_value(&Json::text("not json"))), "\"not json\"");
    assert_eq!(check_arguments("  "), None);
    assert_eq!(check_arguments("{}"), None);
    assert!(check_arguments("{").is_some());
}

#[test]
fn a_listing_says_what_a_model_takes() {
    let wire = WireModel {
        id: "m".to_string(),
        display_name: None,
        context_window: Some(8),
        max_output_tokens: None,
        input_modalities: Some(vec!["text".to_string(), "image".to_string()]),
    };
    let model = ModelInfo::from_listing(&wire);
    assert_eq!(model.display_name, "m");
    assert!(model.supports_vision);
    assert_eq!(model.context_window, Some(8));
    assert!(model.reasoning_efforts.is_empty());
}

fn limited() -> Result<(), ProviderError> {
    check_status(429, Some(3000), "slow down")
}

#[test]
fn chat_completions_rate_limiting_carries_the_stated_delay_and_rejection_is_unauthorized() {
    assert_eq!(
        limited(),
        Err(ProviderError::RateLimited { retry_after_millis: Some(3000) })
    );
    let rejected = check_status(401, None, r#"{"error":{"message":"Incorrect API key"}}"#)
        .expect_err("rejected");
    assert!(
        matches!(rejected, ProviderError::Unauthorized(ref detail) if detail.contains("Incorrect API key")),
        "got {rejected:?}"
    );
    assert!(rejected.needs_reauth());
}

#[test]
fn messages_rate_limiting_carries_the_stated_delay_and_rejection_is_unauthorized() {
    assert_eq!(
        limited(),
        Err(ProviderError::RateLimited { retry_after_millis: Some(3000) })
    );
    let body = r#"{"error":{"type":"authentication_error","message":"invalid x-api-key"}}"#;
    let rejected = check_status(401, None, body).expect_err("rejected");
    assert!(
        matches!(rejected, ProviderError::Unauthorized(ref detail) if detail.contains("invalid x-api-key")),
        "got {rejected:?}"
    );
}

#[test]
fn responses_rate_limiting_carries_the_stated_delay_and_rejection_is_unauthorized() {
    assert_eq!(
        limited(),
        Err(ProviderError::RateLimited { retry_after_millis: Some(3000) })
    );
    let rejected = check_status(403, None, r#"{"error":"no access"}"#).expect_err("rejected");
    assert!(matches!(rejected, ProviderError::Unauthorized(_)));
}

/// The authorization of two requests in a row, each with the credential fetched for it.
fn authorizations(api: WireApi) -> Vec<String> {
    let client = WireClient::new("https://api.example/v1");
    (0..2)
        .flat_map(|turn| {
            let sent = client.outgoing(api, &request()).expect("sent");
            let credential = vec![("authorization".to_string(), format!("Bearer token-{turn}"))];
            client.authorized(sent.headers, &credential)
        })
        .filter(|(name, _)| name == "authorization")
        .map(|(_, value)| value)
        .collect()
}

#[test]
fn chat_completions_credentials_are_fetched_again_for_every_request() {
    assert_eq!(
        authorizations(WireApi::ChatCompletions),
        vec!["Bearer token-0", "Bearer token-1"]
    );
}

#[test]
fn messages_credentials_are_fetched_again_for_every_request() {
    assert_eq!(authorizations(WireApi::Messages), vec!["Bearer token-0", "Bearer token-1"]);
}

#[test]
fn responses_credentials_are_fetched_again_for_every_request() {
    assert_eq!(authorizations(WireApi::Responses), vec!["Bearer token-0", "Bearer token-1"]);
}

#[test]
fn the_api_version_header_is_sent() {
    let client = WireClient::new("https://api.example/v1");
    let sent = client.outgoing(WireApi::Messages, &request()).expect("sent");
    assert_eq!(sent.url, "https://api.example/v1/messages");
    assert!(
        sent.headers.contains(&("anthropic-version".to_string(), "2023-06-01".to_string())),
        "{:?}",
        sent.headers
    );
}

#[test]
fn arguments_are_spelled_anew_where_they_are_a_value() {
    let raw = Json::text("{ \"a\": 1, \"a\": 2 }");
    assert_eq!(spell(&arguments_value(&raw)), r#"{"a":2}"#);
    assert_eq!(arguments_string(&raw), "{ \"a\": 1, \"a\": 2 }");
    assert_eq!(arguments_value(&Json::text("not json")), Json::text("not json"));
}
