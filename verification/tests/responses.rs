use nostra::json::{Json, JsonNumber};
use nostra::llm::error::GatewayError;
use nostra::llm::event::GenerationEvent;
use nostra::llm::model::{
    ContentBlock, Message, ProviderMetadata, ReasoningContent, ResponsesReplayMetadata, Role,
    ToolCall, UsageProvenance,
};
use nostra::llm::protocol::chat_completions::session::ChatCompletionsSession;
use nostra::llm::protocol::responses::encoding::encode_message_items;
use nostra::llm::protocol::responses::state::ResponsesSession;
use nostra::llm::protocol::responses::wire::response_failure;
use nostra::llm::protocol::{CompatibilityProfile, ProtocolTerminalStatus};
use serde_json::Value;

trait Must<T> {
    fn must(self, what: &str) -> T;
}

impl<T> Must<T> for Option<T> {
    fn must(self, what: &str) -> T {
        match self {
            Some(value) => value,
            None => panic!("{what}"),
        }
    }
}

impl<T> Must<T> for Result<T, GatewayError> {
    fn must(self, what: &str) -> T {
        match self {
            Ok(value) => value,
            Err(error) => panic!("{what}: {}", error.debug_text()),
        }
    }
}

fn json(text: &str) -> Json {
    json_of(serde_json::from_str(text).expect("valid JSON"))
}

fn json_of(value: Value) -> Json {
    match value {
        Value::Null => Json::Null,
        Value::Bool(value) => Json::Bool(value),
        Value::Number(number) => Json::Number(match number.as_u64() {
            Some(number) => JsonNumber::Unsigned(number),
            None => JsonNumber::Decimal(number.to_string()),
        }),
        Value::String(text) => Json::Str(text),
        Value::Array(items) => Json::Array(items.into_iter().map(json_of).collect()),
        Value::Object(members) => Json::Object(
            members.into_iter().map(|(key, value)| (key, json_of(value))).collect(),
        ),
    }
}

fn values(items: Vec<Json>) -> Vec<Value> {
    items
        .iter()
        .map(|item| serde_json::from_str(&item.to_text()).expect("valid JSON"))
        .collect()
}

#[test]
fn tests_completed_is_the_only_success_terminal() {
    let mut session = ResponsesSession::new(CompatibilityProfile::default());
    session
        .ingest(r#"{"type":"response.created","response":{"id":"resp","model":"gpt"}}"#)
        .must("created");
    session.ingest(r#"{"type":"response.output_item.added","output_index":0,"item":{"type":"function_call","id":"item","call_id":"call","name":"weather","arguments":""}}"#).must("item");
    session
        .ingest(
            r#"{"type":"response.function_call_arguments.delta","output_index":0,"delta":"{}"}"#,
        )
        .must("delta");
    let arguments_done = session
        .ingest(
            r#"{"type":"response.function_call_arguments.done","output_index":0,"arguments":"{}"}"#,
        )
        .must("done");
    assert!(
        !arguments_done
            .events
            .iter()
            .any(|event| matches!(event, GenerationEvent::ToolCallFinished { .. }))
    );
    let item_done = session.ingest(r#"{"type":"response.output_item.done","output_index":0,"item":{"type":"function_call","id":"item","call_id":"call","name":"weather","arguments":"{}"}}"#).must("item done");
    assert!(
        item_done
            .events
            .iter()
            .any(|event| matches!(event, GenerationEvent::ToolCallFinished { .. }))
    );
    let terminal = session.ingest(r#"{"type":"response.completed","response":{"id":"resp","model":"gpt","usage":{"input_tokens":1,"output_tokens":2,"total_tokens":3}}}"#).must("completed").terminal.must("terminal");
    assert_eq!(terminal.usage.total_tokens, 3);
    assert_eq!(terminal.response_id.as_deref(), Some("resp"));
}

#[test]
fn tests_null_usage_remains_unavailable() {
    {
        let mut session = ChatCompletionsSession::new(CompatibilityProfile::default());
        let update = session
            .ingest(r#"{"choices":[{"delta":{"content":"ok"},"finish_reason":"stop"}],"usage":null}"#)
            .must("finish chunk");
        assert!(
            !update
                .events
                .iter()
                .any(|event| matches!(event, GenerationEvent::UsageUpdated(_)))
        );
        let terminal = session
            .ingest("[DONE]")
            .must("done")
            .terminal
            .must("terminal");
        assert_eq!(terminal.usage.provenance, UsageProvenance::Unavailable);
    }
    let mut session = ResponsesSession::new(CompatibilityProfile::default());
    session
        .ingest(r#"{"type":"response.created","response":{"id":"resp"}}"#)
        .must("created");
    let update = session
        .ingest(r#"{"type":"response.completed","response":{"id":"resp","usage":null}}"#)
        .must("completed");
    assert!(
        !update
            .events
            .iter()
            .any(|event| matches!(event, GenerationEvent::UsageUpdated(_)))
    );
    let terminal = update.terminal.must("terminal");
    assert_eq!(terminal.usage.provenance, UsageProvenance::Unavailable);
}

#[test]
fn tests_eof_without_completed_fails() {
    let mut session = ResponsesSession::new(CompatibilityProfile::default());
    session
        .ingest(r#"{"type":"response.created","response":{"id":"resp"}}"#)
        .must("created");
    assert!(session.finish_eof().is_err());
}

#[test]
fn tests_provider_failure_keeps_safe_fields_clean_and_debug_free_of_upstream_text() {
    let error = response_failure(&json(
        r#"{"error":{"message":"echoed secret-key","code":"bad_request"}}"#,
    ))
    .with_upstream_body(r#"{"error":{"message":"echoed secret-key"}}"#);
    assert_eq!(error.safe_message(), "provider response failed");
    assert_eq!(error.provider_code.as_deref(), Some("bad_request"));
    assert!(!error.debug_text().contains("secret-key"));
    assert_eq!(
        error.upstream_body(),
        Some(r#"{"error":{"message":"echoed secret-key"}}"#)
    );
}

#[test]
fn tests_failed_terminal_carries_the_raw_frame_to_the_outcome() {
    let frame = r#"{"type":"response.failed","response":{"id":"resp_1","error":{"code":"server_error","message":"upstream exploded"}}}"#;
    let mut session = ResponsesSession::new(CompatibilityProfile::default());
    session
        .ingest(r#"{"type":"response.created","response":{"id":"resp_1"}}"#)
        .must("created");
    let terminal = session
        .ingest(frame)
        .must("failed terminal is not an Err")
        .terminal
        .must("terminal present");
    let error = terminal.error.must("terminal error");
    assert_eq!(error.upstream_body(), Some(frame));
}

#[test]
fn tests_rejects_output_before_created() {
    let mut output = ResponsesSession::new(CompatibilityProfile::default());
    assert!(
        output
            .ingest(r#"{"type":"response.output_text.delta","output_index":0,"delta":"x"}"#)
            .is_err()
    );
}

#[test]
fn tests_terminal_output_backfills_text_reasoning_and_replay_ids() {
    let mut session = ResponsesSession::new(CompatibilityProfile::default());
    let update = session
        .ingest(r#"{"type":"response.completed","response":{"id":"resp_1","output":[{"type":"reasoning","id":"rs_1","encrypted_content":"opaque"},{"type":"message","id":"msg_1","content":[{"type":"output_text","text":"first"}]},{"type":"message","id":"msg_2","content":[{"type":"output_text","text":"second"}]}]}}"#)
        .must("completed");
    assert!(matches!(
        update.events.first(),
        Some(GenerationEvent::Started(_))
    ));
    let text_message_ids = update
        .events
        .iter()
        .filter_map(|event| match event {
            GenerationEvent::TextFinished {
                replay: Some(metadata),
                ..
            } => metadata
                .responses
                .as_ref()
                .and_then(|metadata| metadata.message_id.as_deref()),
            _ => None,
        })
        .collect::<Vec<_>>();
    assert_eq!(text_message_ids, vec!["msg_1", "msg_2"]);
    assert!(update.events.iter().any(|event| matches!(event, GenerationEvent::ReasoningFinished { replay: Some(metadata), .. } if metadata.responses.as_ref().and_then(|metadata| metadata.encrypted_reasoning.as_deref()) == Some("opaque"))));
    let terminal = update.terminal.must("terminal");
    let metadata = terminal.provider_metadata.responses.must("metadata");
    assert_eq!(metadata.response_id.as_deref(), Some("resp_1"));
}

#[test]
fn tests_message_content_parts_round_trip_as_one_replay_item() {
    let mut session = ResponsesSession::new(CompatibilityProfile::default());
    let update = session
        .ingest(
            r#"{"type":"response.completed","response":{"output":[{"type":"message","id":"msg_1","content":[{"type":"output_text","text":"first"},{"type":"refusal","refusal":"second"}]}]}}"#,
        )
        .must("completed");

    let text = update
        .events
        .iter()
        .filter_map(|event| match event {
            GenerationEvent::TextDelta { delta, .. } => Some(delta.as_str()),
            _ => None,
        })
        .collect::<String>();
    let replays = update
        .events
        .iter()
        .filter_map(|event| match event {
            GenerationEvent::TextFinished {
                replay: Some(metadata),
                ..
            } => Some(metadata.clone()),
            _ => None,
        })
        .collect::<Vec<_>>();
    assert_eq!(text, "firstsecond");
    assert_eq!(replays.len(), 1);

    let message = Message {
        role: Role::Assistant,
        content: vec![ContentBlock::Text {
            text,
            provider_metadata: replays[0].clone(),
        }],
        provider_metadata: ProviderMetadata::default(),
    };
    let replayed = values(encode_message_items(&message, 0));
    assert_eq!(replayed.len(), 1);
    assert_eq!(replayed[0]["id"], "msg_1");
    assert_eq!(replayed[0]["content"][0]["text"], "firstsecond");
}

#[test]
fn tests_rejects_malformed_known_message_content_parts() {
    for item in [
        r#"{"type":"message","id":"msg_1"}"#,
        r#"{"type":"message","id":"msg_1","content":null}"#,
        r#"{"type":"message","id":"msg_1","content":[{"type":"output_text"}]}"#,
        r#"{"type":"message","id":"msg_1","content":[{"type":"refusal","refusal":1}]}"#,
    ] {
        let mut session = ResponsesSession::new(CompatibilityProfile::default());
        let event =
            format!(r#"{{"type":"response.completed","response":{{"output":[{item}]}}}}"#);
        assert!(session.ingest(&event).is_err());
    }
}

#[test]
fn tests_ignores_unknown_message_content_parts() {
    let mut session = ResponsesSession::new(CompatibilityProfile::default());
    let update = session
        .ingest(
            r#"{"type":"response.completed","response":{"output":[{"type":"message","id":"msg_1","content":[{"type":"future_content","value":"opaque"}]}]}}"#,
        )
        .must("unknown content remains forward-compatible");
    assert!(update.terminal.is_some());
}

#[test]
fn next_output_finishes_reasoning_before_text_and_late_replay_metadata() {
    let mut session = ResponsesSession::new(CompatibilityProfile::default());
    session
        .ingest(r#"{"type":"response.created","response":{}}"#)
        .must("created");
    session.ingest(r#"{"type":"response.output_item.added","output_index":0,"item":{"type":"reasoning","id":"rs_1"}}"#).must("item");
    session.ingest(r#"{"type":"response.reasoning_summary_text.delta","output_index":0,"content_index":0,"delta":"think"}"#).must("delta");
    let done = session
        .ingest(
            r#"{"type":"response.reasoning_summary_text.done","output_index":0,"content_index":0}"#,
        )
        .must("done");
    assert!(
        !done
            .events
            .iter()
            .any(|event| matches!(event, GenerationEvent::ReasoningFinished { .. }))
    );
    let message = session.ingest(r#"{"type":"response.output_item.added","output_index":1,"item":{"type":"message","id":"msg_1"}}"#).must("message item");
    assert!(message.events.iter().any(|event| matches!(event, GenerationEvent::ReasoningFinished { replay: Some(metadata), .. } if metadata.responses.as_ref().and_then(|metadata| metadata.item_id.as_deref()) == Some("rs_1"))));
    let text = session.ingest(r#"{"type":"response.output_text.delta","output_index":1,"content_index":0,"delta":"answer"}"#).must("text");
    assert!(matches!(
        text.events.as_slice(),
        [
            GenerationEvent::TextStarted { content_index: 1, .. },
            GenerationEvent::TextDelta { content_index: 1, delta, .. }
        ] if delta == "answer"
    ));
    let item = session.ingest(r#"{"type":"response.output_item.done","output_index":0,"item":{"type":"reasoning","id":"rs_1","encrypted_content":"opaque"}}"#).must("item done");
    assert!(item.events.iter().any(|event| matches!(event, GenerationEvent::ReasoningSnapshotUpdated { reasoning, .. } if reasoning.replay.as_ref().and_then(|metadata| metadata.responses.as_ref()).and_then(|metadata| metadata.encrypted_reasoning.as_deref()) == Some("opaque"))));
    assert!(
        !item
            .events
            .iter()
            .any(|event| matches!(event, GenerationEvent::ReasoningFinished { .. }))
    );
    let completed = session.ingest(r#"{"type":"response.completed","response":{"output":[{"type":"reasoning","id":"rs_1","encrypted_content":"opaque"}]}}"#).must("completed");
    assert!(
        !completed
            .events
            .iter()
            .any(|event| matches!(event, GenerationEvent::ReasoningFinished { .. }))
    );
}

#[test]
fn late_reasoning_item_done_does_not_finish_the_new_reasoning_block() {
    let mut session = ResponsesSession::new(CompatibilityProfile::default());
    session
        .ingest(r#"{"type":"response.created","response":{}}"#)
        .must("created");
    session.ingest(r#"{"type":"response.output_item.added","output_index":0,"item":{"type":"reasoning","id":"rs_0"}}"#).must("first item");
    session
        .ingest(r#"{"type":"response.reasoning_text.delta","output_index":0,"delta":"first"}"#)
        .must("first delta");

    let second = session.ingest(r#"{"type":"response.output_item.added","output_index":1,"item":{"type":"reasoning","id":"rs_1"}}"#).must("second item");
    assert!(second.events.iter().any(|event| matches!(
        event,
        GenerationEvent::ReasoningFinished {
            content_index: 0,
            ..
        }
    )));
    session
        .ingest(r#"{"type":"response.reasoning_text.delta","output_index":1,"delta":"second"}"#)
        .must("second delta");

    let first_done = session.ingest(r#"{"type":"response.output_item.done","output_index":0,"item":{"type":"reasoning","id":"rs_0","encrypted_content":"opaque"}}"#).must("late first done");
    assert!(!first_done.events.iter().any(|event| matches!(
        event,
        GenerationEvent::ReasoningFinished {
            content_index: 1,
            ..
        }
    )));

    let second_done = session.ingest(r#"{"type":"response.output_item.done","output_index":1,"item":{"type":"reasoning","id":"rs_1"}}"#).must("second done");
    assert!(second_done.events.iter().any(|event| matches!(
        event,
        GenerationEvent::ReasoningFinished {
            content_index: 1,
            ..
        }
    )));
}

#[test]
fn tests_incomplete_preserves_usage_and_response_metadata() {
    let mut session = ResponsesSession::new(CompatibilityProfile::default());
    let terminal = session.ingest(r#"{"type":"response.incomplete","response":{"id":"resp_1","model":"gpt","incomplete_details":{"reason":"max_output_tokens"},"usage":{"input_tokens":12,"output_tokens":4,"total_tokens":16,"input_tokens_details":{"cached_tokens":2}}}}"#).must("incomplete").terminal.must("terminal");
    assert_eq!(
        terminal.status,
        ProtocolTerminalStatus::Failed
    );
    assert_eq!(terminal.usage.input_tokens, 10);
    assert_eq!(terminal.usage.cache_read_tokens, 2);
    assert_eq!(terminal.response_id.as_deref(), Some("resp_1"));
    assert_eq!(terminal.upstream_model.as_deref(), Some("gpt"));
}

#[test]
fn tests_failed_terminal_does_not_require_created() {
    let mut session = ResponsesSession::new(CompatibilityProfile::default());
    let update = session
        .ingest(
            r#"{"type":"response.failed","response":{"id":"resp_1","error":{"code":"server_error"}}}"#,
        )
        .must("failed terminal");
    assert!(matches!(
        update.events.first(),
        Some(GenerationEvent::Started(_))
    ));
    assert_eq!(
        update.terminal.must("terminal").status,
        ProtocolTerminalStatus::Failed
    );
}

#[test]
fn tests_rejects_delta_without_matching_added_output_item() {
    let mut session = ResponsesSession::new(CompatibilityProfile::default());
    session
        .ingest(r#"{"type":"response.created","response":{}}"#)
        .must("created");
    assert!(
        session
            .ingest(
                r#"{"type":"response.output_text.delta","output_index":0,"content_index":0,"delta":"x"}"#
            )
            .is_err()
    );
}

#[test]
fn tests_rejects_missing_or_non_string_structural_deltas() {
    let mut text = ResponsesSession::new(CompatibilityProfile::default());
    text.ingest(r#"{"type":"response.created","response":{}}"#)
        .must("created");
    text.ingest(r#"{"type":"response.output_item.added","output_index":0,"item":{"type":"message","id":"msg_1"}}"#)
        .must("item");
    assert!(
        text.ingest(r#"{"type":"response.output_text.delta","output_index":0}"#)
            .is_err()
    );

    let mut reasoning = ResponsesSession::new(CompatibilityProfile::default());
    reasoning
        .ingest(r#"{"type":"response.created","response":{}}"#)
        .must("created");
    reasoning.ingest(r#"{"type":"response.output_item.added","output_index":0,"item":{"type":"reasoning","id":"rs_1"}}"#).must("item");
    assert!(
        reasoning
            .ingest(
                r#"{"type":"response.reasoning_summary_text.delta","output_index":0,"delta":null}"#
            )
            .is_err()
    );
}

#[test]
fn tests_assistant_history_preserves_canonical_block_order() {
    let message = Message {
        role: Role::Assistant,
        content: vec![
            ContentBlock::Reasoning {
                reasoning: ReasoningContent {
                    display: "thought".into(),
                    replay: Some(ProviderMetadata {
                        chat: None,
                        responses: Some(ResponsesReplayMetadata {
                            item_id: Some("rs_1".into()),
                            encrypted_reasoning: Some("opaque".into()),
                            ..Default::default()
                        }),
                    }),
                },
            },
            ContentBlock::Text {
                text: "answer".into(),
                provider_metadata: ProviderMetadata {
                    chat: None,
                    responses: Some(ResponsesReplayMetadata {
                        message_id: Some("msg_1".into()),
                        ..Default::default()
                    }),
                },
            },
            ContentBlock::ToolCall {
                tool_call: ToolCall {
                    id: "call_1".into(),
                    name: "weather".into(),
                    arguments: Json::Object(vec![]),
                    raw_arguments: "{}".into(),
                    provider_metadata: ProviderMetadata::default(),
                },
            },
        ],
        provider_metadata: ProviderMetadata::default(),
    };

    let items = values(encode_message_items(&message, 0));
    assert_eq!(
        items
            .iter()
            .filter_map(|item| item.get("type").and_then(Value::as_str))
            .collect::<Vec<_>>(),
        vec!["reasoning", "message", "function_call"]
    );
    assert_eq!(items[1]["id"], "msg_1");
}

#[test]
fn tests_assistant_history_generates_an_id_for_every_text_item() {
    let message = Message {
        role: Role::Assistant,
        content: vec![
            ContentBlock::Text {
                text: "first".into(),
                provider_metadata: ProviderMetadata::default(),
            },
            ContentBlock::Reasoning {
                reasoning: ReasoningContent {
                    display: "thought".into(),
                    replay: None,
                },
            },
            ContentBlock::Text {
                text: "second".into(),
                provider_metadata: ProviderMetadata::default(),
            },
        ],
        provider_metadata: ProviderMetadata {
            chat: None,
            responses: Some(ResponsesReplayMetadata {
                message_id: Some("message_level_id_is_not_a_text_signature".into()),
                ..Default::default()
            }),
        },
    };

    let items = values(encode_message_items(&message, 3));
    assert_eq!(items[0]["id"], "msg_nostra_3");
    assert_eq!(items[1]["id"], "msg_nostra_3_1");
}

#[test]
fn tests_assistant_history_preserves_each_text_items_message_id() {
    let text = |value: &str, message_id: &str| ContentBlock::Text {
        text: value.into(),
        provider_metadata: ProviderMetadata {
            chat: None,
            responses: Some(ResponsesReplayMetadata {
                message_id: Some(message_id.into()),
                ..Default::default()
            }),
        },
    };
    let message = Message {
        role: Role::Assistant,
        content: vec![text("first", "msg_1"), text("second", "msg_2")],
        provider_metadata: ProviderMetadata::default(),
    };

    let items = values(encode_message_items(&message, 0));

    assert_eq!(items.len(), 2);
    assert_eq!(items[0]["id"], "msg_1");
    assert_eq!(items[1]["id"], "msg_2");
}

#[test]
fn tests_handles_reasoning_summary_parts_and_authoritative_summary() {
    let mut session = ResponsesSession::new(CompatibilityProfile::default());
    session
        .ingest(r#"{"type":"response.created","response":{}}"#)
        .must("created");
    session.ingest(r#"{"type":"response.output_item.added","output_index":0,"item":{"type":"reasoning","id":"rs_1"}}"#).must("item");
    session
        .ingest(
            r#"{"type":"response.reasoning_summary_text.delta","output_index":0,"delta":"first"}"#,
        )
        .must("first");
    let text_done = session
        .ingest(r#"{"type":"response.reasoning_summary_text.done","output_index":0}"#)
        .must("summary text done");
    assert!(
        !text_done
            .events
            .iter()
            .any(|event| matches!(event, GenerationEvent::ReasoningFinished { .. }))
    );
    let separator = session
        .ingest(r#"{"type":"response.reasoning_summary_part.done","output_index":0}"#)
        .must("part");
    assert!(separator.events.iter().any(
        |event| matches!(event, GenerationEvent::ReasoningDelta { delta, .. } if delta == "\n\n")
    ));
    session
        .ingest(
            r#"{"type":"response.reasoning_summary_text.delta","output_index":0,"delta":"second"}"#,
        )
        .must("second");
    session
        .ingest(r#"{"type":"response.reasoning_summary_part.done","output_index":0}"#)
        .must("final part");
    let done = session.ingest(r#"{"type":"response.output_item.done","output_index":0,"item":{"type":"reasoning","id":"rs_1","summary":[{"type":"summary_text","text":"first"},{"type":"summary_text","text":"second"}]}}"#).must("done");
    assert!(matches!(
        done.events.as_slice(),
        [
            GenerationEvent::ReasoningFinished { .. },
            GenerationEvent::ReasoningSnapshotUpdated { reasoning, .. }
        ] if reasoning.display == "first\n\nsecond"
    ));
}

#[test]
fn final_summary_part_separator_is_reconciled_by_authoritative_snapshot() {
    let mut session = ResponsesSession::new(CompatibilityProfile::default());
    session
        .ingest(r#"{"type":"response.created","response":{}}"#)
        .must("created");
    session.ingest(r#"{"type":"response.output_item.added","output_index":0,"item":{"type":"reasoning","id":"rs_1"}}"#).must("item");
    session.ingest(r#"{"type":"response.reasoning_summary_text.delta","output_index":0,"delta":"thought"}"#).must("delta");
    session
        .ingest(r#"{"type":"response.reasoning_summary_text.done","output_index":0}"#)
        .must("text done");
    session
        .ingest(r#"{"type":"response.reasoning_summary_part.done","output_index":0}"#)
        .must("part done");

    let done = session.ingest(r#"{"type":"response.output_item.done","output_index":0,"item":{"type":"reasoning","id":"rs_1","summary":[{"type":"summary_text","text":"thought"}]}}"#).must("item done");

    assert!(matches!(
        done.events.as_slice(),
        [
            GenerationEvent::ReasoningFinished { .. },
            GenerationEvent::ReasoningSnapshotUpdated { reasoning, .. }
        ] if reasoning.display == "thought"
    ));
}

#[test]
fn authoritative_reasoning_replaces_non_prefix_streamed_text() {
    let mut session = ResponsesSession::new(CompatibilityProfile::default());
    session
        .ingest(r#"{"type":"response.created","response":{}}"#)
        .must("created");
    session.ingest(r#"{"type":"response.output_item.added","output_index":0,"item":{"type":"reasoning","id":"rs_1"}}"#).must("item");
    session
        .ingest(
            r#"{"type":"response.reasoning_text.delta","output_index":0,"delta":"streamed draft"}"#,
        )
        .must("delta");

    let done = session.ingest(r#"{"type":"response.output_item.done","output_index":0,"item":{"type":"reasoning","id":"rs_1","summary":[{"type":"summary_text","text":"authoritative summary"}]}}"#).must("item done");

    assert!(matches!(
        done.events.as_slice(),
        [
            GenerationEvent::ReasoningFinished { .. },
            GenerationEvent::ReasoningSnapshotUpdated { reasoning, .. }
        ] if reasoning.display == "authoritative summary"
    ));
}

#[test]
fn tests_accepts_empty_reasoning_summary_part() {
    let mut session = ResponsesSession::new(CompatibilityProfile::default());
    session
        .ingest(r#"{"type":"response.created","response":{}}"#)
        .must("created");
    session.ingest(r#"{"type":"response.output_item.added","output_index":0,"item":{"type":"reasoning","id":"rs_1"}}"#).must("item");

    let done = session
        .ingest(r#"{"type":"response.reasoning_summary_part.done","output_index":0}"#)
        .must("empty summary part");

    assert!(done.events.is_empty());
}

#[test]
fn tests_done_only_reasoning_and_refusal_are_backfilled() {
    let mut reasoning = ResponsesSession::new(CompatibilityProfile::default());
    reasoning
        .ingest(r#"{"type":"response.created","response":{}}"#)
        .must("created");
    let reasoning_done = reasoning.ingest(r#"{"type":"response.output_item.done","output_index":0,"item":{"type":"reasoning","id":"rs_1","summary":[{"type":"summary_text","text":"thought"}]}}"#).must("reasoning done");
    assert!(reasoning_done.events.iter().any(
        |event| matches!(event, GenerationEvent::ReasoningDelta { delta, .. } if delta == "thought")
    ));

    let mut refusal = ResponsesSession::new(CompatibilityProfile::default());
    refusal
        .ingest(r#"{"type":"response.created","response":{}}"#)
        .must("created");
    let refusal_done = refusal.ingest(r#"{"type":"response.output_item.done","output_index":0,"item":{"type":"message","id":"msg_1","content":[{"type":"refusal","refusal":"cannot comply"}]}}"#).must("refusal done");
    assert!(refusal_done.events.iter().any(|event| matches!(event, GenerationEvent::TextDelta { delta, .. } if delta == "cannot comply")));
}

#[test]
fn tests_ignores_unknown_non_structural_events_but_rejects_structural_ones() {
    let mut session = ResponsesSession::new(CompatibilityProfile::default());
    session
        .ingest(r#"{"type":"response.created","response":{}}"#)
        .must("created");
    assert!(
        session
            .ingest(r#"{"type":"response.rate_limits.updated"}"#)
            .is_ok()
    );
    assert!(
        session
            .ingest(r#"{"type":"response.reasoning_unknown.delta","output_index":0}"#)
            .is_err()
    );
}

#[test]
fn responses_completed_is_the_only_success_terminal() {
    let mut session = ResponsesSession::new(CompatibilityProfile::default());
    session
        .ingest(r#"{"type":"response.created","response":{"id":"resp","model":"gpt"}}"#)
        .must("created");
    session.ingest(r#"{"type":"response.output_item.added","output_index":0,"item":{"type":"function_call","id":"item","call_id":"call","name":"weather","arguments":""}}"#).must("item");
    session.ingest(r#"{"type":"response.function_call_arguments.delta","output_index":0,"delta":"{}"}"#).must("delta");
    let arguments_done = session.ingest(r#"{"type":"response.function_call_arguments.done","output_index":0,"arguments":"{}"}"#).must("done");
    assert!(
        !arguments_done
            .events
            .iter()
            .any(|event| matches!(event, GenerationEvent::ToolCallFinished { .. }))
    );
    let item_done = session.ingest(r#"{"type":"response.output_item.done","output_index":0,"item":{"type":"function_call","id":"item","call_id":"call","name":"weather","arguments":"{}"}}"#).must("item done");
    assert!(
        item_done
            .events
            .iter()
            .any(|event| matches!(event, GenerationEvent::ToolCallFinished { .. }))
    );
    let terminal = session.ingest(r#"{"type":"response.completed","response":{"id":"resp","model":"gpt","usage":{"input_tokens":1,"output_tokens":2,"total_tokens":3}}}"#).must("completed").terminal.must("terminal");
    assert_eq!(terminal.usage.total_tokens, 3);
    assert_eq!(terminal.response_id.as_deref(), Some("resp"));
}

#[test]
fn responses_null_usage_remains_unavailable() {
    let mut session = ResponsesSession::new(CompatibilityProfile::default());
    session
        .ingest(r#"{"type":"response.created","response":{"id":"resp"}}"#)
        .must("created");
    let update = session
        .ingest(r#"{"type":"response.completed","response":{"id":"resp","usage":null}}"#)
        .must("completed");
    assert!(
        !update
            .events
            .iter()
            .any(|event| matches!(event, GenerationEvent::UsageUpdated(_)))
    );
    let terminal = update.terminal.must("terminal");
    assert_eq!(terminal.usage.provenance, UsageProvenance::Unavailable);
}

#[test]
fn responses_eof_without_completed_fails() {
    let mut session = ResponsesSession::new(CompatibilityProfile::default());
    session
        .ingest(r#"{"type":"response.created","response":{"id":"resp"}}"#)
        .must("created");
    assert!(session.finish_eof().is_err());
}

#[test]
fn responses_provider_failure_keeps_safe_fields_clean_and_debug_free_of_upstream_text() {
    let error = response_failure(&json(
        r#"{"error":{"message":"echoed secret-key","code":"bad_request"}}"#,
    ))
    .with_upstream_body(r#"{"error":{"message":"echoed secret-key"}}"#);
    assert_eq!(error.safe_message(), "provider response failed");
    assert_eq!(error.provider_code.as_deref(), Some("bad_request"));
    assert!(!error.debug_text().contains("secret-key"));
    assert_eq!(
        error.upstream_body(),
        Some(r#"{"error":{"message":"echoed secret-key"}}"#)
    );
}

#[test]
fn responses_failed_terminal_carries_the_raw_frame_to_the_outcome() {
    let frame = r#"{"type":"response.failed","response":{"id":"resp_1","error":{"code":"server_error","message":"upstream exploded"}}}"#;
    let mut session = ResponsesSession::new(CompatibilityProfile::default());
    session
        .ingest(r#"{"type":"response.created","response":{"id":"resp_1"}}"#)
        .must("created");
    let terminal = session
        .ingest(frame)
        .must("failed terminal is not an Err")
        .terminal
        .must("terminal present");
    let error = terminal.error.must("terminal error");
    assert_eq!(error.upstream_body(), Some(frame));
}

#[test]
fn responses_rejects_output_before_created() {
    let mut output = ResponsesSession::new(CompatibilityProfile::default());
    assert!(
        output
            .ingest(r#"{"type":"response.output_text.delta","output_index":0,"delta":"x"}"#)
            .is_err()
    );
}

#[test]
fn responses_terminal_output_backfills_text_reasoning_and_replay_ids() {
    let mut session = ResponsesSession::new(CompatibilityProfile::default());
    let update = session
        .ingest(r#"{"type":"response.completed","response":{"id":"resp_1","output":[{"type":"reasoning","id":"rs_1","encrypted_content":"opaque"},{"type":"message","id":"msg_1","content":[{"type":"output_text","text":"first"}]},{"type":"message","id":"msg_2","content":[{"type":"output_text","text":"second"}]}]}}"#)
        .must("completed");
    assert!(matches!(
        update.events.first(),
        Some(GenerationEvent::Started(_))
    ));
    let text_message_ids = update
        .events
        .iter()
        .filter_map(|event| match event {
            GenerationEvent::TextFinished {
                replay: Some(metadata),
                ..
            } => metadata
                .responses
                .as_ref()
                .and_then(|metadata| metadata.message_id.as_deref()),
            _ => None,
        })
        .collect::<Vec<_>>();
    assert_eq!(text_message_ids, vec!["msg_1", "msg_2"]);
    assert!(update.events.iter().any(|event| matches!(event, GenerationEvent::ReasoningFinished { replay: Some(metadata), .. } if metadata.responses.as_ref().and_then(|metadata| metadata.encrypted_reasoning.as_deref()) == Some("opaque"))));
    let terminal = update.terminal.must("terminal");
    let metadata = terminal.provider_metadata.responses.must("metadata");
    assert_eq!(metadata.response_id.as_deref(), Some("resp_1"));
}

#[test]
fn responses_message_content_parts_round_trip_as_one_replay_item() {
    let mut session = ResponsesSession::new(CompatibilityProfile::default());
    let update = session
        .ingest(
            r#"{"type":"response.completed","response":{"output":[{"type":"message","id":"msg_1","content":[{"type":"output_text","text":"first"},{"type":"refusal","refusal":"second"}]}]}}"#,
        )
        .must("completed");

    let text = update
        .events
        .iter()
        .filter_map(|event| match event {
            GenerationEvent::TextDelta { delta, .. } => Some(delta.as_str()),
            _ => None,
        })
        .collect::<String>();
    let replays = update
        .events
        .iter()
        .filter_map(|event| match event {
            GenerationEvent::TextFinished {
                replay: Some(metadata),
                ..
            } => Some(metadata.clone()),
            _ => None,
        })
        .collect::<Vec<_>>();
    assert_eq!(text, "firstsecond");
    assert_eq!(replays.len(), 1);

    let message = Message {
        role: Role::Assistant,
        content: vec![ContentBlock::Text {
            text,
            provider_metadata: replays[0].clone(),
        }],
        provider_metadata: ProviderMetadata::default(),
    };
    let replayed = values(encode_message_items(&message, 0));
    assert_eq!(replayed.len(), 1);
    assert_eq!(replayed[0]["id"], "msg_1");
    assert_eq!(replayed[0]["content"][0]["text"], "firstsecond");
}

#[test]
fn responses_rejects_malformed_known_message_content_parts() {
    for item in [
        r#"{"type":"message","id":"msg_1"}"#,
        r#"{"type":"message","id":"msg_1","content":null}"#,
        r#"{"type":"message","id":"msg_1","content":[{"type":"output_text"}]}"#,
        r#"{"type":"message","id":"msg_1","content":[{"type":"refusal","refusal":1}]}"#,
    ] {
        let mut session = ResponsesSession::new(CompatibilityProfile::default());
        let event =
            format!(r#"{{"type":"response.completed","response":{{"output":[{item}]}}}}"#);
        assert!(session.ingest(&event).is_err());
    }
}

#[test]
fn responses_ignores_unknown_message_content_parts() {
    let mut session = ResponsesSession::new(CompatibilityProfile::default());
    let update = session
        .ingest(
            r#"{"type":"response.completed","response":{"output":[{"type":"message","id":"msg_1","content":[{"type":"future_content","value":"opaque"}]}]}}"#,
        )
        .must("unknown content remains forward-compatible");
    assert!(update.terminal.is_some());
}

#[test]
fn reasoning_finish_waits_for_encrypted_item_metadata() {
    let mut session = ResponsesSession::new(CompatibilityProfile::default());
    session
        .ingest(r#"{"type":"response.created","response":{}}"#)
        .must("created");
    session.ingest(r#"{"type":"response.output_item.added","output_index":0,"item":{"type":"reasoning","id":"rs_1"}}"#).must("item");
    session.ingest(r#"{"type":"response.reasoning_summary_text.delta","output_index":0,"content_index":0,"delta":"think"}"#).must("delta");
    let done = session.ingest(r#"{"type":"response.reasoning_summary_text.done","output_index":0,"content_index":0}"#).must("done");
    assert!(
        !done
            .events
            .iter()
            .any(|event| matches!(event, GenerationEvent::ReasoningFinished { .. }))
    );
    let item = session.ingest(r#"{"type":"response.output_item.done","output_index":0,"item":{"type":"reasoning","id":"rs_1","encrypted_content":"opaque"}}"#).must("item done");
    assert!(item.events.iter().any(|event| matches!(event, GenerationEvent::ReasoningFinished { replay: Some(metadata), .. } if metadata.responses.as_ref().and_then(|metadata| metadata.encrypted_reasoning.as_deref()) == Some("opaque"))));
    let completed = session.ingest(r#"{"type":"response.completed","response":{"output":[{"type":"reasoning","id":"rs_1","encrypted_content":"opaque"}]}}"#).must("completed");
    assert!(
        !completed
            .events
            .iter()
            .any(|event| matches!(event, GenerationEvent::ReasoningFinished { .. }))
    );
}

#[test]
fn responses_incomplete_preserves_usage_and_response_metadata() {
    let mut session = ResponsesSession::new(CompatibilityProfile::default());
    let terminal = session.ingest(r#"{"type":"response.incomplete","response":{"id":"resp_1","model":"gpt","incomplete_details":{"reason":"max_output_tokens"},"usage":{"input_tokens":12,"output_tokens":4,"total_tokens":16,"input_tokens_details":{"cached_tokens":2}}}}"#).must("incomplete").terminal.must("terminal");
    assert_eq!(
        terminal.status,
        ProtocolTerminalStatus::Failed
    );
    assert_eq!(terminal.usage.input_tokens, 10);
    assert_eq!(terminal.usage.cache_read_tokens, 2);
    assert_eq!(terminal.response_id.as_deref(), Some("resp_1"));
    assert_eq!(terminal.upstream_model.as_deref(), Some("gpt"));
}

#[test]
fn responses_failed_terminal_does_not_require_created() {
    let mut session = ResponsesSession::new(CompatibilityProfile::default());
    let update = session
        .ingest(
            r#"{"type":"response.failed","response":{"id":"resp_1","error":{"code":"server_error"}}}"#,
        )
        .must("failed terminal");
    assert!(matches!(
        update.events.first(),
        Some(GenerationEvent::Started(_))
    ));
    assert_eq!(
        update.terminal.must("terminal").status,
        ProtocolTerminalStatus::Failed
    );
}

#[test]
fn responses_rejects_delta_without_matching_added_output_item() {
    let mut session = ResponsesSession::new(CompatibilityProfile::default());
    session
        .ingest(r#"{"type":"response.created","response":{}}"#)
        .must("created");
    assert!(
        session
            .ingest(
                r#"{"type":"response.output_text.delta","output_index":0,"content_index":0,"delta":"x"}"#
            )
            .is_err()
    );
}

#[test]
fn responses_rejects_missing_or_non_string_structural_deltas() {
    let mut text = ResponsesSession::new(CompatibilityProfile::default());
    text.ingest(r#"{"type":"response.created","response":{}}"#)
        .must("created");
    text.ingest(r#"{"type":"response.output_item.added","output_index":0,"item":{"type":"message","id":"msg_1"}}"#)
        .must("item");
    assert!(
        text.ingest(r#"{"type":"response.output_text.delta","output_index":0}"#)
            .is_err()
    );

    let mut reasoning = ResponsesSession::new(CompatibilityProfile::default());
    reasoning
        .ingest(r#"{"type":"response.created","response":{}}"#)
        .must("created");
    reasoning.ingest(r#"{"type":"response.output_item.added","output_index":0,"item":{"type":"reasoning","id":"rs_1"}}"#).must("item");
    assert!(reasoning.ingest(r#"{"type":"response.reasoning_summary_text.delta","output_index":0,"delta":null}"#).is_err());
}

#[test]
fn responses_assistant_history_preserves_canonical_block_order() {
    let message = Message {
        role: Role::Assistant,
        content: vec![
            ContentBlock::Reasoning {
                reasoning: ReasoningContent {
                    display: "thought".into(),
                    replay: Some(ProviderMetadata {
                        chat: None,
                        responses: Some(ResponsesReplayMetadata {
                            item_id: Some("rs_1".into()),
                            encrypted_reasoning: Some("opaque".into()),
                            ..Default::default()
                        }),
                    }),
                },
            },
            ContentBlock::Text {
                text: "answer".into(),
                provider_metadata: ProviderMetadata {
                    chat: None,
                    responses: Some(ResponsesReplayMetadata {
                        message_id: Some("msg_1".into()),
                        ..Default::default()
                    }),
                },
            },
            ContentBlock::ToolCall {
                tool_call: ToolCall {
                    id: "call_1".into(),
                    name: "weather".into(),
                    arguments: Json::Object(vec![]),
                    raw_arguments: "{}".into(),
                    provider_metadata: ProviderMetadata::default(),
                },
            },
        ],
        provider_metadata: ProviderMetadata::default(),
    };

    let items = values(encode_message_items(&message, 0));
    assert_eq!(
        items
            .iter()
            .filter_map(|item| item.get("type").and_then(Value::as_str))
            .collect::<Vec<_>>(),
        vec!["reasoning", "message", "function_call"]
    );
    assert_eq!(items[1]["id"], "msg_1");
}

#[test]
fn responses_assistant_history_generates_an_id_for_every_text_item() {
    let message = Message {
        role: Role::Assistant,
        content: vec![
            ContentBlock::Text {
                text: "first".into(),
                provider_metadata: ProviderMetadata::default(),
            },
            ContentBlock::Reasoning {
                reasoning: ReasoningContent {
                    display: "thought".into(),
                    replay: None,
                },
            },
            ContentBlock::Text {
                text: "second".into(),
                provider_metadata: ProviderMetadata::default(),
            },
        ],
        provider_metadata: ProviderMetadata {
            chat: None,
            responses: Some(ResponsesReplayMetadata {
                message_id: Some("message_level_id_is_not_a_text_signature".into()),
                ..Default::default()
            }),
        },
    };

    let items = values(encode_message_items(&message, 3));
    assert_eq!(items[0]["id"], "msg_nostra_3");
    assert_eq!(items[1]["id"], "msg_nostra_3_1");
}

#[test]
fn responses_assistant_history_preserves_each_text_items_message_id() {
    let text = |value: &str, message_id: &str| ContentBlock::Text {
        text: value.into(),
        provider_metadata: ProviderMetadata {
            chat: None,
            responses: Some(ResponsesReplayMetadata {
                message_id: Some(message_id.into()),
                ..Default::default()
            }),
        },
    };
    let message = Message {
        role: Role::Assistant,
        content: vec![text("first", "msg_1"), text("second", "msg_2")],
        provider_metadata: ProviderMetadata::default(),
    };

    let items = values(encode_message_items(&message, 0));

    assert_eq!(items.len(), 2);
    assert_eq!(items[0]["id"], "msg_1");
    assert_eq!(items[1]["id"], "msg_2");
}

#[test]
fn responses_handles_reasoning_summary_parts_and_authoritative_summary() {
    let mut session = ResponsesSession::new(CompatibilityProfile::default());
    session
        .ingest(r#"{"type":"response.created","response":{}}"#)
        .must("created");
    session.ingest(r#"{"type":"response.output_item.added","output_index":0,"item":{"type":"reasoning","id":"rs_1"}}"#).must("item");
    session.ingest(r#"{"type":"response.reasoning_summary_text.delta","output_index":0,"delta":"first"}"#).must("first");
    let separator = session
        .ingest(r#"{"type":"response.reasoning_summary_part.done","output_index":0}"#)
        .must("part");
    assert!(separator.events.iter().any(|event| matches!(event, GenerationEvent::ReasoningDelta { delta, .. } if delta == "\n\n")));
    session.ingest(r#"{"type":"response.reasoning_summary_text.delta","output_index":0,"delta":"second"}"#).must("second");
    let done = session.ingest(r#"{"type":"response.output_item.done","output_index":0,"item":{"type":"reasoning","id":"rs_1","summary":[{"type":"summary_text","text":"first"},{"type":"summary_text","text":"second"}]}}"#).must("done");
    assert!(
        done.events
            .iter()
            .any(|event| matches!(event, GenerationEvent::ReasoningFinished { .. }))
    );
}

#[test]
fn responses_accepts_empty_reasoning_summary_part() {
    let mut session = ResponsesSession::new(CompatibilityProfile::default());
    session
        .ingest(r#"{"type":"response.created","response":{}}"#)
        .must("created");
    session.ingest(r#"{"type":"response.output_item.added","output_index":0,"item":{"type":"reasoning","id":"rs_1"}}"#).must("item");

    let done = session
        .ingest(r#"{"type":"response.reasoning_summary_part.done","output_index":0}"#)
        .must("empty summary part");

    assert!(done.events.is_empty());
}

#[test]
fn responses_done_only_reasoning_and_refusal_are_backfilled() {
    let mut reasoning = ResponsesSession::new(CompatibilityProfile::default());
    reasoning
        .ingest(r#"{"type":"response.created","response":{}}"#)
        .must("created");
    let reasoning_done = reasoning.ingest(r#"{"type":"response.output_item.done","output_index":0,"item":{"type":"reasoning","id":"rs_1","summary":[{"type":"summary_text","text":"thought"}]}}"#).must("reasoning done");
    assert!(reasoning_done.events.iter().any(|event| matches!(event, GenerationEvent::ReasoningDelta { delta, .. } if delta == "thought")));

    let mut refusal = ResponsesSession::new(CompatibilityProfile::default());
    refusal
        .ingest(r#"{"type":"response.created","response":{}}"#)
        .must("created");
    let refusal_done = refusal.ingest(r#"{"type":"response.output_item.done","output_index":0,"item":{"type":"message","id":"msg_1","content":[{"type":"refusal","refusal":"cannot comply"}]}}"#).must("refusal done");
    assert!(refusal_done.events.iter().any(|event| matches!(event, GenerationEvent::TextDelta { delta, .. } if delta == "cannot comply")));
}

#[test]
fn responses_ignores_unknown_non_structural_events_but_rejects_structural_ones() {
    let mut session = ResponsesSession::new(CompatibilityProfile::default());
    session
        .ingest(r#"{"type":"response.created","response":{}}"#)
        .must("created");
    assert!(
        session
            .ingest(r#"{"type":"response.rate_limits.updated"}"#)
            .is_ok()
    );
    assert!(
        session
            .ingest(r#"{"type":"response.reasoning_unknown.delta","output_index":0}"#)
            .is_err()
    );
}
