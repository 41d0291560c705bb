use nostra::json::{Json, JsonNumber};
use nostra::llm::error::{
    allowlisted_provider_code, allowlisted_provider_token, ErrorKind, GatewayError,
};
use nostra::llm::event::{
    FinishReason, GenerationOutcome, IndexedMessage, OutcomeStatus,
};
use nostra::llm::metrics::{AggregateKey, InMemoryMetrics};
use nostra::llm::model::{
    ChatReasoningField, ChatReplayMetadata, ContentBlock, GenerateRequest, Message,
    ProviderMetadata, ResponsesReplayMetadata, Role, ToolResult, Usage, UsageProvenance,
};
use nostra::llm::protocol::chat_completions::session::ChatCompletionsSession;
use nostra::llm::protocol::responses::state::ResponsesSession;
use nostra::llm::protocol::{
    CompatibilityProfile, MaxTokensField, Protocol, ReasoningField, ResponsesInstructionsPolicy,
    SystemRolePolicy,
};

fn outcome(status: OutcomeStatus) -> GenerationOutcome {
    GenerationOutcome {
        request_id: "r".into(),
        profile_id: "p".into(),
        model_id: "m".into(),
        protocol: Protocol::Responses,
        status,
        finish_reason: None,
        usage: Usage::default(),
        response_id: None,
        upstream_model: None,
        time_to_first_event: None,
        latency: 0,
        message: None,
        error: None,
    }
}

#[test]
fn captured_upstream_body_is_not_rewritten() {
    let error = GatewayError::provider("failed", None);
    assert_eq!(error.clone().with_upstream_body("").upstream_body(), None);
    assert_eq!(
        error.clone().with_upstream_body("  \n\t ").upstream_body(),
        None,
        "a whitespace-only response has nothing useful to render"
    );
    assert_eq!(
        error.with_upstream_body("  {\"a\":1}\n").upstream_body(),
        Some("  {\"a\":1}\n"),
        "captured whitespace is part of the response"
    );
}

#[test]
fn debug_reports_the_body_size_without_its_contents() {
    let error = GatewayError::provider("failed", None)
        .with_upstream_body(r#"{"key":"sk-secret-value"}"#);
    let rendered = error.debug_text();
    assert!(!rendered.contains("sk-secret-value"), "{rendered}");
    assert!(rendered.contains("25 bytes redacted"), "{rendered}");
}

#[test]
fn bounds_recent_and_aggregates_outcomes() {
    let mut metrics = InMemoryMetrics::new(1);
    let mut outcome = outcome(OutcomeStatus::Completed);
    outcome.usage = Usage { total_tokens: 4, ..Default::default() };
    metrics.on_finish(&outcome);
    metrics.on_finish(&outcome);
    assert_eq!(metrics.recent().len(), 1);
    let aggregate = metrics
        .aggregate(&AggregateKey {
            profile_id: "p".into(),
            model_id: "m".into(),
            protocol: Protocol::Responses,
        })
        .expect("aggregate");
    assert_eq!(aggregate.requests, 2);
    assert_eq!(aggregate.usage.total_tokens, 8);
    assert_eq!(aggregate.usage.provenance, outcome.usage.provenance);
}

#[test]
fn recent_outcomes_never_retain_message_content() {
    let mut metrics = InMemoryMetrics::new(1);
    let mut outcome = outcome(OutcomeStatus::Completed);
    outcome.message = Some(IndexedMessage::from_message(Message {
        role: Role::Assistant,
        content: vec![ContentBlock::Text {
            text: "private text".into(),
            provider_metadata: Default::default(),
        }],
        provider_metadata: Default::default(),
    }));
    metrics.on_finish(&outcome);
    assert!(metrics.recent()[0].message.is_none());
}

#[test]
fn recent_outcomes_never_retain_captured_upstream_bodies() {
    let mut metrics = InMemoryMetrics::new(1);
    let mut outcome = outcome(OutcomeStatus::Failed);
    outcome.error = Some(
        GatewayError::provider("provider rejected the request", Some("bad_request".into()))
            .with_upstream_body(r#"{"error":{"message":"echoed prompt"}}"#),
    );
    // The caller's own copy keeps the body.
    assert!(outcome.error.as_ref().expect("error").upstream_body().is_some());

    metrics.on_finish(&outcome);
    let recorded = metrics.recent()[0].error.clone().expect("recorded error");
    assert_eq!(recorded.upstream_body(), None);
    assert_eq!(recorded.safe_message(), "provider rejected the request");
    assert_eq!(recorded.provider_code.as_deref(), Some("bad_request"));
}

#[test]
fn replay_metadata_never_exposes_opaque_values_in_debug_output() {
    let chat_secret = "chat-opaque-secret";
    let responses_secret = "responses-opaque-secret";
    let metadata = ProviderMetadata {
        chat: Some(ChatReplayMetadata {
            reasoning_field: Some(ChatReasoningField::ReasoningContent),
            reasoning_details: Some(Json::Object(vec![(
                "opaque".into(),
                Json::Str(chat_secret.into()),
            )])),
        }),
        responses: Some(ResponsesReplayMetadata {
            response_id: Some("resp-secret".into()),
            item_id: Some("item-secret".into()),
            message_id: Some("message-secret".into()),
            call_id: Some("call-secret".into()),
            encrypted_reasoning: Some(responses_secret.into()),
        }),
    };

    for formatted in [
        metadata.debug_text(),
        metadata.chat.as_ref().expect("chat metadata").debug_text(),
        metadata.responses.as_ref().expect("Responses metadata").debug_text(),
    ] {
        assert!(formatted.contains("[REDACTED]"));
        assert!(!formatted.contains(chat_secret));
        assert!(!formatted.contains(responses_secret));
        assert!(!formatted.contains("resp-secret"));
        assert!(!formatted.contains("item-secret"));
        assert!(!formatted.contains("message-secret"));
        assert!(!formatted.contains("call-secret"));
    }
}

#[test]
fn settings_keys_round_trip_for_all_compatibility_enums() {
    for value in [Protocol::ChatCompletions, Protocol::Responses] {
        assert_eq!(Protocol::from_key(value.as_str()), Some(value));
    }
    for value in [MaxTokensField::MaxTokens, MaxTokensField::MaxCompletionTokens] {
        assert_eq!(MaxTokensField::from_key(value.as_str()), Some(value));
    }
    for value in [
        SystemRolePolicy::Preserve,
        SystemRolePolicy::System,
        SystemRolePolicy::Developer,
    ] {
        assert_eq!(SystemRolePolicy::from_key(value.as_str()), Some(value));
    }
    for value in [
        ReasoningField::Auto,
        ReasoningField::ReasoningContent,
        ReasoningField::Reasoning,
        ReasoningField::ReasoningText,
    ] {
        assert_eq!(ReasoningField::from_key(value.as_str()), Some(value));
    }
    for value in [
        ResponsesInstructionsPolicy::TopLevel,
        ResponsesInstructionsPolicy::InputItems,
    ] {
        assert_eq!(ResponsesInstructionsPolicy::from_key(value.as_str()), Some(value));
    }
}

#[test]
fn settings_keys_reject_unknown_values() {
    assert_eq!(Protocol::from_key("unknown"), None);
    assert_eq!(MaxTokensField::from_key("unknown"), None);
    assert_eq!(SystemRolePolicy::from_key("unknown"), None);
    assert_eq!(ReasoningField::from_key("unknown"), None);
    assert_eq!(ResponsesInstructionsPolicy::from_key("unknown"), None);
}

fn tool_result(role: Role) -> GenerateRequest {
    GenerateRequest {
        model: "model".into(),
        messages: vec![Message {
            role,
            content: vec![ContentBlock::ToolResult {
                tool_result: ToolResult {
                    call_id: "call_1".into(),
                    content: "result".into(),
                    is_error: false,
                },
            }],
            provider_metadata: ProviderMetadata::default(),
        }],
        ..Default::default()
    }
}

#[test]
fn both_adapters_reject_invalid_role_content_combinations() {
    let chat = ChatCompletionsSession::new(CompatibilityProfile::default());
    let responses = ResponsesSession::new(CompatibilityProfile::default());
    let request = tool_result(Role::User);
    assert!(chat.encode_request(&request).is_err());
    assert!(responses.encode_request(&request).is_err());

    let valid_tool_result = tool_result(Role::Tool);
    assert!(chat.encode_request(&valid_tool_result).is_ok());
    assert!(responses.encode_request(&valid_tool_result).is_ok());
}

#[test]
fn errors_render_their_fields() {
    let mut error = GatewayError::http(429, Some("rate_limit".into()));
    error.request_id = Some("nostra-\"7\"".into());
    assert_eq!(error.kind, ErrorKind::Http);
    assert!(error.retryable);
    let rendered = error.debug_text();
    assert!(rendered.starts_with("GatewayError { kind: Http, message: \""), "{rendered}");
    assert!(rendered.contains("request_id: Some(\"nostra-\\\"7\\\"\")"), "{rendered}");
    assert!(rendered.contains("status: Some(429), provider_code: Some(\"rate_limit\")"), "{rendered}");
    assert!(rendered.ends_with(" }"), "{rendered}");
    assert!(!GatewayError::http(400, None).retryable);
}

#[test]
fn storage_copies_forget_the_body() {
    let mut error = GatewayError::provider("failed", None)
        .with_upstream_body("secret")
        .attributed("nostra-1", true);
    let safe = error.storage_safe_clone();
    assert_eq!(safe.upstream_body(), None);
    assert_eq!(safe.request_id.as_deref(), Some("nostra-1"));
    assert!(safe.output_started);
    assert_eq!(error.take_upstream_body().as_deref(), Some("secret"));
    assert!(error == safe);
}

#[test]
fn only_harmless_provider_codes_are_shown() {
    assert_eq!(allowlisted_provider_token("rate_limit-1.x").as_deref(), Some("rate_limit-1.x"));
    assert_eq!(allowlisted_provider_token("two words"), None);
    assert_eq!(allowlisted_provider_token(""), None);
    assert_eq!(allowlisted_provider_token(&"a".repeat(64)).map(|token| token.len()), Some(64));
    assert_eq!(allowlisted_provider_token(&"a".repeat(65)), None);
    let code = Json::Str("bad_request".into());
    assert_eq!(allowlisted_provider_code(Some(&code)).as_deref(), Some("bad_request"));
    assert_eq!(allowlisted_provider_code(None), None);
}

#[test]
fn usage_adds_up_without_overflow() {
    let mut usage = Usage {
        provenance: UsageProvenance::Reported,
        input_tokens: u64::MAX,
        output_tokens: 1,
        ..Default::default()
    };
    usage.add_assign(&Usage { input_tokens: 5, output_tokens: 2, ..Default::default() });
    assert_eq!(usage.input_tokens, u64::MAX);
    assert_eq!(usage.output_tokens, 3);
}

#[test]
fn outcomes_render_everything_but_what_was_said() {
    let mut outcome = outcome(OutcomeStatus::Failed);
    outcome.finish_reason = Some(FinishReason::Incomplete("max".into()));
    outcome.time_to_first_event = Some(1_500_000);
    outcome.latency = 2_000_000_000;
    outcome.message = Some(IndexedMessage::from_message(Message {
        role: Role::Assistant,
        content: vec![ContentBlock::Text {
            text: "private text".into(),
            provider_metadata: Default::default(),
        }],
        provider_metadata: Default::default(),
    }));
    outcome.error = Some(GatewayError::protocol("broken").with_upstream_body("private body"));
    let rendered = outcome.debug_text();
    assert!(!rendered.contains("private"), "{rendered}");
    assert!(rendered.contains("finish_reason: Some(Incomplete(\"max\"))"), "{rendered}");
    assert!(rendered.contains("time_to_first_event: Some(1.5ms), latency: 2s"), "{rendered}");
    assert!(rendered.contains("message: Some(\"[REDACTED]\")"), "{rendered}");
    assert!(rendered.contains("usage: Usage { provenance: "), "{rendered}");
    assert!(rendered.ends_with(" }) }"), "{rendered}");
}

#[test]
fn messages_lose_their_indices_and_nothing_else() {
    let message = || Message {
        role: Role::Assistant,
        content: vec![
            ContentBlock::Text { text: "a".into(), provider_metadata: Default::default() },
            ContentBlock::Text { text: "b".into(), provider_metadata: Default::default() },
        ],
        provider_metadata: Default::default(),
    };
    let indexed = IndexedMessage::from_message(message());
    assert_eq!(indexed.content[1].content_index, 1);
    assert!(indexed.into_message() == message());
}

#[test]
fn metrics_count_each_status() {
    let mut metrics = InMemoryMetrics::new(2);
    for status in [
        OutcomeStatus::Completed,
        OutcomeStatus::Failed,
        OutcomeStatus::Cancelled,
        OutcomeStatus::Failed,
    ] {
        metrics.on_finish(&outcome(status));
    }
    let key = |model: &str| AggregateKey {
        profile_id: "p".into(),
        model_id: model.into(),
        protocol: Protocol::Responses,
    };
    let total = metrics.aggregate(&key("m")).expect("the route has outcomes");
    assert_eq!((total.requests, total.completed, total.failed, total.cancelled), (4, 1, 2, 1));
    assert!(metrics.aggregate(&key("other")).is_none());
    let recent: Vec<OutcomeStatus> = metrics.recent().iter().map(|kept| kept.status).collect();
    assert_eq!(recent, vec![OutcomeStatus::Cancelled, OutcomeStatus::Failed]);
    assert!(InMemoryMetrics::new(0).recent().is_empty());
}

#[test]
fn json_is_written_in_compact_notation() {
    let value = Json::Object(vec![
        ("b".into(), Json::Array(vec![Json::Null, Json::Bool(true)])),
        ("a".into(), Json::Str("x\"y".into())),
        ("n".into(), Json::Number(JsonNumber::Negative(-3))),
        ("d".into(), Json::Number(JsonNumber::Decimal("0.5".into()))),
    ]);
    let text = value.to_text();
    let read: serde_json::Value = serde_json::from_str(&text).expect("valid JSON");
    assert_eq!(read["a"], "x\"y");
    assert_eq!(read["b"][1], true);
    assert_eq!(read["n"], -3);
    assert_eq!(read["d"], 0.5);
    assert!(!text.contains(' '));
}
