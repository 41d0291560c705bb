use nostra::json::{Json, JsonNumber};
use nostra::llm::error::GatewayError;
use nostra::llm::event::{FinishReason, GenerationEvent};
use nostra::llm::model::{
    ChatReasoningField, ContentBlock, Message, ProviderMetadata, ReasoningContent, Role, ToolCall,
    ToolResult,
};
use nostra::llm::protocol::chat_completions::encoding::encode_message;
use nostra::llm::protocol::chat_completions::session::{
    parse_chat_usage, provider_error, ChatCompletionsSession,
};
use nostra::llm::protocol::CompatibilityProfile;
use serde_json::Value;

trait Must<T> {
    fn must(self, what: &str) -> T;
}

impl<T> Must<T> for Option<T> {
    fn must(self, what: &str) -> T {
        match self {
            Some(value) => value,
            None => panic!("{what}"),
        }
    }
}

impl<T> Must<T> for Result<T, GatewayError> {
    fn must(self, what: &str) -> T {
        match self {
            Ok(value) => value,
            Err(error) => panic!("{what}: {}", error.debug_text()),
        }
    }
}

fn must_fail<T>(result: Result<T, GatewayError>, what: &str) -> GatewayError {
    match result {
        Ok(_) => panic!("{what}"),
        Err(error) => error,
    }
}

fn json(text: &str) -> Json {
    json_of(serde_json::from_str(text).expect("valid JSON"))
}

fn json_of(value: Value) -> Json {
    match value {
        Value::Null => Json::Null,
        Value::Bool(value) => Json::Bool(value),
        Value::Number(number) => Json::Number(match number.as_u64() {
            Some(number) => JsonNumber::Unsigned(number),
            None => JsonNumber::Decimal(number.to_string()),
        }),
        Value::String(text) => Json::Str(text),
        Value::Array(items) => Json::Array(items.into_iter().map(json_of).collect()),
        Value::Object(members) => Json::Object(
            members.into_iter().map(|(key, value)| (key, json_of(value))).collect(),
        ),
    }
}

fn values(items: Vec<Json>) -> Vec<Value> {
    items
        .iter()
        .map(|item| serde_json::from_str(&item.to_text()).expect("valid JSON"))
        .collect()
}

#[test]
fn accepts_usage_only_and_interleaved_tool_calls() {
    let mut session = ChatCompletionsSession::new(CompatibilityProfile::default());
    session.ingest(r#"{"id":"r","choices":[{"delta":{"tool_calls":[{"index":1,"id":"b","function":{"name":"two","arguments":"{"}},{"index":0,"id":"a","function":{"name":"one","arguments":"{}"}}]},"finish_reason":null}]}"#).must("chunk");
    session.ingest(r#"{"choices":[{"delta":{"tool_calls":[{"index":1,"function":{"arguments":"}"}}]},"finish_reason":"tool_calls"}]}"#).must("finish");
    session
        .ingest(
            r#"{"choices":[],"usage":{"prompt_tokens":2,"completion_tokens":3,"total_tokens":5}}"#,
        )
        .must("usage");
    let terminal = session
        .ingest("[DONE]")
        .must("done")
        .terminal
        .must("terminal");
    assert_eq!(terminal.finish_reason, FinishReason::ToolCalls);
    assert_eq!(terminal.usage.total_tokens, 5);
}

#[test]
fn done_without_finish_reason_is_not_success() {
    let mut session = ChatCompletionsSession::new(CompatibilityProfile::default());
    assert!(
        session
            .ingest("[DONE]")
            .must("done marker")
            .terminal
            .is_none()
    );
    assert!(session.finish_eof().is_err());
}

#[test]
fn finish_reason_allows_clean_eof_without_done_marker() {
    let mut session = ChatCompletionsSession::new(CompatibilityProfile::default());
    session
        .ingest(r#"{"choices":[{"delta":{"content":"ok"},"finish_reason":"stop"}]}"#)
        .must("finish chunk");
    assert!(session.finish_eof().must("clean eof").is_some());
}

#[test]
fn provider_error_keeps_safe_fields_clean_and_debug_free_of_upstream_text() {
    let error = provider_error(&json(
        r#"{"message":"request echoed secret-key","code":"unsafe code: secret-key"}"#,
    ))
    .with_upstream_body(r#"{"error":{"message":"request echoed secret-key"}}"#);
    // The safe tier is unchanged: fixed message, code rejected by the allowlist.
    assert_eq!(error.safe_message(), "provider rejected the request");
    assert_eq!(error.provider_code, None);
    // Debug is what reaches logs, so it must not carry the body.
    assert!(!error.debug_text().contains("secret-key"));
    // The captured frame itself is retained for the UI to render.
    assert_eq!(
        error.upstream_body(),
        Some(r#"{"error":{"message":"request echoed secret-key"}}"#)
    );
}

#[test]
fn in_stream_error_frame_is_retained_as_captured() {
    let frame = r#"{"error":{"message":"Rate limit reached","code":"rate_limit_exceeded"}}"#;
    let mut session = ChatCompletionsSession::new(CompatibilityProfile::default());
    let error = must_fail(session.ingest(frame), "provider error frame");
    assert_eq!(error.upstream_body(), Some(frame));
    assert_eq!(error.provider_code.as_deref(), Some("rate_limit_exceeded"));
}

#[test]
fn reasoning_details_round_trip_through_terminal_metadata() {
    let mut session = ChatCompletionsSession::new(CompatibilityProfile::default());
    let update = session
        .ingest(
            r#"{"choices":[{"delta":{"reasoning_content":"think","reasoning_details":[{"type":"opaque","data":"x"}]},"finish_reason":"stop"}]}"#,
        )
        .must("finish chunk");
    let terminal = update
        .terminal
        .or_else(|| session.finish_eof().ok().flatten())
        .must("terminal");
    let message = Message {
        role: Role::Assistant,
        content: vec![ContentBlock::Reasoning {
            reasoning: ReasoningContent {
                display: "think".into(),
                replay: Some(terminal.provider_metadata.clone()),
            },
        }],
        provider_metadata: ProviderMetadata::default(),
    };
    let encoded =
        values(encode_message(&message, &CompatibilityProfile::default()).must("encode history"));
    assert_eq!(encoded[0]["reasoning_details"][0]["data"], "x");
}

#[test]
fn reasoning_text_round_trips_through_the_actual_wire_field() {
    for (field, expected) in [
        ("reasoning_content", ChatReasoningField::ReasoningContent),
        ("reasoning", ChatReasoningField::Reasoning),
        ("reasoning_text", ChatReasoningField::ReasoningText),
    ] {
        let mut session = ChatCompletionsSession::new(CompatibilityProfile::default());
        let chunk = format!(
            r#"{{"choices":[{{"delta":{{"{field}":"think"}},"finish_reason":"stop"}}]}}"#
        );
        let update = session.ingest(&chunk).must("finish chunk");
        let replay = update
            .events
            .iter()
            .find_map(|event| match event {
                GenerationEvent::ReasoningFinished { replay, .. } => replay.clone(),
                _ => None,
            })
            .must("reasoning replay metadata");
        assert_eq!(
            replay
                .chat
                .as_ref()
                .and_then(|metadata| metadata.reasoning_field),
            Some(expected)
        );

        let message = Message {
            role: Role::Assistant,
            content: vec![ContentBlock::Reasoning {
                reasoning: ReasoningContent {
                    display: "think".into(),
                    replay: Some(replay),
                },
            }],
            provider_metadata: ProviderMetadata::default(),
        };
        let encoded =
            values(encode_message(&message, &CompatibilityProfile::default()).must("encode history"));
        assert_eq!(encoded[0][field], "think");
    }
}

#[test]
fn auto_reasoning_uses_only_the_first_non_empty_alias() {
    let mut session = ChatCompletionsSession::new(CompatibilityProfile::default());
    let update = session
        .ingest(
            r#"{"choices":[{"delta":{"reasoning_content":"first","reasoning":"duplicate"},"finish_reason":"stop"}]}"#,
        )
        .must("finish chunk");
    let deltas = update
        .events
        .iter()
        .filter_map(|event| match event {
            GenerationEvent::ReasoningDelta { delta, .. } => Some(delta.as_str()),
            _ => None,
        })
        .collect::<Vec<_>>();
    assert_eq!(deltas, vec!["first"]);
}

#[test]
fn content_type_transitions_create_new_ordered_blocks() {
    let mut session = ChatCompletionsSession::new(CompatibilityProfile::default());
    let chunks = [
        r#"{"choices":[{"delta":{"reasoning_content":"first"},"finish_reason":null}]}"#,
        r#"{"choices":[{"delta":{"content":"answer"},"finish_reason":null}]}"#,
        r#"{"choices":[{"delta":{"reasoning_content":"second"},"finish_reason":"stop"}]}"#,
    ];
    let events = chunks
        .into_iter()
        .flat_map(|chunk| session.ingest(chunk).must("chunk").events)
        .collect::<Vec<_>>();

    assert!(matches!(
        events.as_slice(),
        [
            GenerationEvent::Started(_),
            GenerationEvent::ReasoningStarted { content_index: 0, id: first_start },
            GenerationEvent::ReasoningDelta { content_index: 0, id: first_delta, delta: first },
            GenerationEvent::ReasoningFinished { id: first_end, .. },
            GenerationEvent::TextStarted { content_index: 1, id: text_start },
            GenerationEvent::TextDelta { content_index: 1, id: text_delta, delta: text },
            GenerationEvent::TextFinished { id: text_end, .. },
            GenerationEvent::ReasoningStarted { content_index: 2, id: second_start },
            GenerationEvent::ReasoningDelta { content_index: 2, id: second_delta, delta: second },
            GenerationEvent::ReasoningFinished { id: second_end, .. },
        ] if first_start == "reasoning-0"
            && first_delta == first_start
            && first_end == first_start
            && first == "first"
            && text_start == "text-0"
            && text_delta == text_start
            && text_end == text_start
            && text == "answer"
            && second_start == "reasoning-1"
            && second_delta == second_start
            && second_end == second_start
            && second == "second"
    ));
}

#[test]
fn tool_calls_separate_reasoning_blocks() {
    let mut session = ChatCompletionsSession::new(CompatibilityProfile::default());
    let chunks = [
        r#"{"choices":[{"delta":{"reasoning_content":"before"},"finish_reason":null}]}"#,
        r#"{"choices":[{"delta":{"tool_calls":[{"index":0,"id":"call-0","function":{"name":"lookup","arguments":"{}"}}]},"finish_reason":null}]}"#,
        r#"{"choices":[{"delta":{"reasoning_content":"after"},"finish_reason":"stop"}]}"#,
    ];
    let events = chunks
        .into_iter()
        .flat_map(|chunk| session.ingest(chunk).must("chunk").events)
        .collect::<Vec<_>>();

    let structural = events
        .iter()
        .filter_map(|event| match event {
            GenerationEvent::ReasoningStarted { id, .. } => Some(("reasoning-start", id.as_str())),
            GenerationEvent::ReasoningFinished { id, .. } => {
                Some(("reasoning-finish", id.as_str()))
            }
            GenerationEvent::ToolCallStarted { id, .. } => Some(("tool-start", id.as_str())),
            _ => None,
        })
        .collect::<Vec<_>>();
    assert_eq!(
        structural,
        vec![
            ("reasoning-start", "reasoning-0"),
            ("reasoning-finish", "reasoning-0"),
            ("tool-start", "call-0"),
            ("reasoning-start", "reasoning-1"),
            ("reasoning-finish", "reasoning-1"),
        ]
    );

    assert!(events.iter().any(|event| matches!(
        event,
        GenerationEvent::ToolCallFinished { tool_call, .. }
            if tool_call.name == "lookup"
    )));
}

#[test]
fn missing_indices_use_stable_tool_ids_and_always_start_before_finish() {
    let mut session = ChatCompletionsSession::new(CompatibilityProfile::default());
    let first = session
        .ingest(
            r#"{"choices":[{"delta":{"tool_calls":[{"id":"a","function":{"name":"one"}},{"id":"b","function":{"name":"two"}}]},"finish_reason":null}]}"#,
        )
        .must("tool calls");
    assert!(matches!(
        first.events.as_slice(),
        [
            GenerationEvent::Started(_),
            GenerationEvent::ToolCallStarted { index: 0, .. },
            GenerationEvent::ToolCallStarted { index: 1, .. }
        ]
    ));
    let finished = session
        .ingest(r#"{"choices":[{"delta":{},"finish_reason":"tool_calls"}]}"#)
        .must("finish");
    let indices = finished
        .events
        .iter()
        .filter_map(|event| match event {
            GenerationEvent::ToolCallFinished { index, .. } => Some(*index),
            _ => None,
        })
        .collect::<Vec<_>>();
    assert_eq!(indices, vec![0, 1]);
}

#[test]
fn usage_separates_cached_and_written_input_tokens() {
    let usage = parse_chat_usage(&json(
        r#"{"prompt_tokens":20,"completion_tokens":5,"total_tokens":25,"prompt_tokens_details":{"cached_tokens":7,"cache_write_tokens":3}}"#,
    ));
    assert_eq!(usage.input_tokens, 10);
    assert_eq!(usage.cache_read_tokens, 7);
    assert_eq!(usage.cache_write_tokens, 3);
}

#[test]
fn replay_call_ids_are_normalized_consistently() {
    let call = ToolCall {
        id: "remote/id".into(),
        name: "f".into(),
        arguments: Json::Object(vec![]),
        raw_arguments: "{}".into(),
        provider_metadata: ProviderMetadata::default(),
    };
    let assistant = Message {
        role: Role::Assistant,
        content: vec![ContentBlock::ToolCall { tool_call: call }],
        provider_metadata: ProviderMetadata::default(),
    };
    let tool = Message {
        role: Role::Tool,
        content: vec![ContentBlock::ToolResult {
            tool_result: ToolResult {
                call_id: "remote/id".into(),
                content: "ok".into(),
                is_error: false,
            },
        }],
        provider_metadata: ProviderMetadata::default(),
    };
    let assistant = values(encode_message(&assistant, &CompatibilityProfile::default()).must("call"));
    let tool = values(encode_message(&tool, &CompatibilityProfile::default()).must("result"));
    assert_eq!(assistant[0]["tool_calls"][0]["id"], tool[0]["tool_call_id"]);
    assert_eq!(tool[0]["tool_call_id"], "call_remote_id");
}

#[test]
fn encodes_every_tool_result_as_a_separate_message() {
    let result = |call_id: &str, content: &str| ContentBlock::ToolResult {
        tool_result: ToolResult {
            call_id: call_id.into(),
            content: content.into(),
            is_error: false,
        },
    };
    let message = Message {
        role: Role::Tool,
        content: vec![result("call_1", "first"), result("call_2", "second")],
        provider_metadata: ProviderMetadata::default(),
    };

    let encoded = values(encode_message(&message, &CompatibilityProfile::default()).must("tool results"));

    assert_eq!(encoded.len(), 2);
    assert_eq!(encoded[0]["tool_call_id"], "call_1");
    assert_eq!(encoded[0]["content"], "first");
    assert_eq!(encoded[1]["tool_call_id"], "call_2");
    assert_eq!(encoded[1]["content"], "second");
}

#[test]
fn consumes_only_the_first_choice() {
    let mut session = ChatCompletionsSession::new(CompatibilityProfile::default());
    let update = session
        .ingest(r#"{"choices":[{"delta":{"content":"first"},"finish_reason":"stop"},{"delta":{"content":"second"},"finish_reason":"stop"}]}"#)
        .must("chunk");
    let text = update
        .events
        .iter()
        .filter_map(|event| match event {
            GenerationEvent::TextDelta { delta, .. } => Some(delta.as_str()),
            _ => None,
        })
        .collect::<String>();
    assert_eq!(text, "first");
}

#[test]
fn repeated_complete_tool_name_is_not_duplicated() {
    let mut session = ChatCompletionsSession::new(CompatibilityProfile::default());
    session.ingest(r#"{"choices":[{"delta":{"tool_calls":[{"index":0,"id":"call","function":{"name":"weather"}}]},"finish_reason":null}]}"#).must("first");
    session.ingest(r#"{"choices":[{"delta":{"tool_calls":[{"index":0,"id":"call","function":{"name":"weather","arguments":"{}"}}]},"finish_reason":null}]}"#).must("second");
    let update = session
        .ingest(r#"{"choices":[{"delta":{},"finish_reason":"tool_calls"}]}"#)
        .must("finish");
    assert!(update.events.iter().any(|event| matches!(event, GenerationEvent::ToolCallFinished { tool_call, .. } if tool_call.name == "weather")));
}
