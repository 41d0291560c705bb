use nostra::json::Json;
use nostra::llm::config::SecretString;
use nostra::llm::error::GatewayError;
use nostra::llm::event::{GenerationEvent, IndexedContentBlock, IndexedMessage, OutcomeStatus};
use nostra::llm::gateway::assembler::MessageAssembler;
use nostra::llm::gateway::generation::Generation;
use nostra::llm::gateway::session::{GatewaySession, LifecycleNotice, RequestContext};
use nostra::llm::metrics::InMemoryMetrics;
use nostra::llm::model::{ContentBlock, ProviderMetadata, ToolCall};
use nostra::llm::protocol::{CompatibilityProfile, Protocol, ProtocolSession};
use nostra::llm::transport::{StreamAction, StreamInput, StreamMachine, TransportRequest};

trait Must<T> {
    fn must(self, what: &str) -> T;
}

impl<T> Must<T> for Option<T> {
    fn must(self, what: &str) -> T {
        match self {
            Some(value) => value,
            None => panic!("{what}"),
        }
    }
}

impl<T> Must<T> for Result<T, GatewayError> {
    fn must(self, what: &str) -> T {
        match self {
            Ok(value) => value,
            Err(error) => panic!("{what}: {}", error.debug_text()),
        }
    }
}

fn session(protocol: Protocol) -> GatewaySession {
    GatewaySession::new(
        RequestContext::new("p", "m", protocol, 1, 0),
        ProtocolSession::new(protocol, CompatibilityProfile::default()),
    )
}

fn deliver(session: &mut GatewaySession, metrics: &mut InMemoryMetrics) {
    for notice in session.take_notices() {
        if let LifecycleNotice::Finish(outcome) = notice {
            metrics.on_finish(&outcome);
        }
    }
}

/// Hands a response over to a generation until it would read on, and cancels it there.
fn assert_midstream_cancellation(protocol: Protocol, frame: &[u8]) {
    let mut metrics = InMemoryMetrics::new(8);
    let mut generation = Generation {
        request: TransportRequest {
            url: "https://example.com/v1/stream".into(),
            api_key: SecretString::default(),
            body: Vec::new(),
        },
        session: session(protocol),
    };
    let mut calls = 0;
    let mut frame = Some(frame.to_vec());
    let (mut machine, mut action) = StreamMachine::start();
    loop {
        let input = match action {
            StreamAction::Deliver(event) => {
                generation.handle(event, 1);
                StreamInput::Consumed(true)
            }
            StreamAction::Send => {
                calls += 1;
                StreamInput::Responded(200)
            }
            StreamAction::Read => match frame.take() {
                Some(bytes) => StreamInput::Bytes(bytes),
                None => break,
            },
            _ => panic!("the stream is neither over nor failed"),
        };
        assert!(machine.expects(&input));
        (machine, action) = machine.step(input);
    }

    let outcome = match generation.cancel(2) {
        Some(GenerationEvent::Finished(outcome)) => outcome,
        _ => panic!("cancellation must finish the generation"),
    };
    assert_eq!(outcome.status, OutcomeStatus::Cancelled);
    assert!(outcome.error.is_none());
    assert!(outcome.message.as_ref().is_some_and(|message| {
        message
            .content
            .iter()
            .any(|part| matches!(&part.block, ContentBlock::Text { text, .. } if text == "partial"))
    }));
    assert!(generation.cancel(3).is_none());
    deliver(&mut generation.session, &mut metrics);
    drop(generation);

    assert_eq!(calls, 1);
    assert_eq!(metrics.recent().len(), 1);
    assert_eq!(metrics.recent()[0].status, OutcomeStatus::Cancelled);
}

#[test]
fn tests_cancellation_is_exactly_once_even_on_drop() {
    let mut metrics = InMemoryMetrics::new(8);
    let mut session = session(Protocol::Responses);
    assert!(session.cancel(1).is_some());
    assert!(session.cancel(1).is_none());
    deliver(&mut session, &mut metrics);
    drop(session);
    assert_eq!(metrics.recent().len(), 1);
    assert_eq!(metrics.recent()[0].status, OutcomeStatus::Cancelled);
}

#[test]
fn tests_cancellation_while_reading_closes_both_protocol_streams_once() {
    assert_midstream_cancellation(
        Protocol::ChatCompletions,
        b"data: {\"choices\":[{\"delta\":{\"content\":\"partial\"},\"finish_reason\":null}]}\n\n",
    );
    assert_midstream_cancellation(
        Protocol::Responses,
        b"data: {\"type\":\"response.created\",\"response\":{\"id\":\"resp\"}}\n\ndata: {\"type\":\"response.output_item.added\",\"output_index\":0,\"item\":{\"type\":\"message\",\"id\":\"msg\"}}\n\ndata: {\"type\":\"response.output_text.delta\",\"output_index\":0,\"content_index\":0,\"delta\":\"partial\"}\n\n",
    );
}

#[test]
fn tests_silent_eof_becomes_one_failed_outcome() {
    let mut metrics = InMemoryMetrics::new(8);
    let mut session = session(Protocol::ChatCompletions);
    assert!(session.finish_eof(1).is_some());
    assert!(session.finish_eof(1).is_none());
    deliver(&mut session, &mut metrics);
    assert_eq!(metrics.recent()[0].status, OutcomeStatus::Failed);
}

#[test]
fn tests_chat_error_frame_reaches_live_outcome_and_observer_verbatim() {
    let frame = r#"{"error":{"message":"raw provider detail","code":"bad_request"}}"#;
    let mut session = session(Protocol::ChatCompletions);

    let outcome = session
        .ingest_sse_data(frame, 1)
        .into_iter()
        .find_map(|event| match event {
            GenerationEvent::Finished(outcome) => Some(outcome),
            _ => None,
        })
        .must("failed outcome");

    assert_eq!(outcome.error.as_ref().and_then(GatewayError::upstream_body), Some(frame));
    let observed = session
        .take_notices()
        .into_iter()
        .find_map(|notice| match notice {
            LifecycleNotice::Finish(outcome) => Some(outcome),
            _ => None,
        })
        .must("observed outcome");
    assert_eq!(
        observed.error.as_ref().and_then(GatewayError::upstream_body),
        Some(frame),
        "live observers intentionally receive the original response; storage observers must discard it"
    );
}

#[test]
fn tests_responses_replay_metadata_survives_terminal_assembly() {
    let mut session = GatewaySession::new(
        RequestContext::new("p", "m", Protocol::Responses, 1, 0),
        ProtocolSession::new(Protocol::Responses, CompatibilityProfile::default()),
    );
    let mut reasoning_finish_count = 0;
    let mut snapshot_update_count = 0;
    for event in [
        r#"{"type":"response.created","response":{"id":"resp"}}"#,
        r#"{"type":"response.output_item.added","output_index":0,"item":{"type":"reasoning","id":"reasoning-item"}}"#,
        r#"{"type":"response.reasoning_text.delta","output_index":0,"content_index":0,"delta":"streamed draft"}"#,
        r#"{"type":"response.reasoning_text.done","output_index":0,"content_index":0}"#,
        r#"{"type":"response.output_item.added","output_index":1,"item":{"type":"message","id":"message-item"}}"#,
        r#"{"type":"response.output_text.delta","output_index":1,"content_index":0,"delta":"answer"}"#,
        r#"{"type":"response.output_item.done","output_index":0,"item":{"type":"reasoning","id":"reasoning-item","encrypted_content":"opaque","summary":[{"type":"summary_text","text":"authoritative summary"}]}}"#,
    ] {
        let events = session.ingest_sse_data(event, 1);
        reasoning_finish_count += events
            .iter()
            .filter(|event| matches!(event, GenerationEvent::ReasoningFinished { .. }))
            .count();
        snapshot_update_count += events
            .iter()
            .filter(|event| matches!(event, GenerationEvent::ReasoningSnapshotUpdated { .. }))
            .count();
        assert!(
            !events
                .iter()
                .any(|event| matches!(event, GenerationEvent::Finished(_)))
        );
    }
    assert_eq!(reasoning_finish_count, 1);
    assert_eq!(snapshot_update_count, 1);
    let events =
        session.ingest_sse_data(r#"{"type":"response.completed","response":{"id":"resp","output":[{"type":"reasoning","id":"reasoning-item","encrypted_content":"opaque","summary":[{"type":"summary_text","text":"authoritative summary"}]},{"type":"message","id":"message-item","content":[{"type":"output_text","text":"answer"}]}]}}"#, 1);
    let outcome = events
        .into_iter()
        .find_map(|event| match event {
            GenerationEvent::Finished(outcome) => Some(outcome),
            _ => None,
        })
        .must("terminal outcome");
    let message = outcome.message.must("assembled message").into_message();
    let metadata = message
        .provider_metadata
        .responses
        .must("message metadata");
    assert_eq!(metadata.response_id.as_deref(), Some("resp"));
    let reasoning = message
        .content
        .iter()
        .find_map(|block| match block {
            ContentBlock::Reasoning { reasoning } => Some(reasoning),
            _ => None,
        })
        .must("reasoning content");
    assert_eq!(reasoning.display, "authoritative summary");
    let replay = reasoning
        .replay
        .as_ref()
        .and_then(|metadata| metadata.responses.as_ref())
        .must("reasoning replay metadata");
    assert_eq!(replay.item_id.as_deref(), Some("reasoning-item"));
    assert_eq!(replay.encrypted_reasoning.as_deref(), Some("opaque"));
}

#[test]
fn tests_responses_unsupported_output_keeps_the_later_canonical_index() {
    let mut session = GatewaySession::new(
        RequestContext::new("p", "m", Protocol::Responses, 1, 0),
        ProtocolSession::new(Protocol::Responses, CompatibilityProfile::default()),
    );
    for event in [
        r#"{"type":"response.created","response":{"id":"resp"}}"#,
        r#"{"type":"response.output_item.added","output_index":0,"item":{"type":"future_output","id":"future"}}"#,
        r#"{"type":"response.output_item.done","output_index":0,"item":{"type":"future_output","id":"future"}}"#,
        r#"{"type":"response.output_item.added","output_index":1,"item":{"type":"reasoning","id":"reasoning-item"}}"#,
        r#"{"type":"response.reasoning_text.delta","output_index":1,"delta":"thought"}"#,
        r#"{"type":"response.output_item.done","output_index":1,"item":{"type":"reasoning","id":"reasoning-item","summary":[{"type":"summary_text","text":"thought"}]}}"#,
    ] {
        assert!(
            !session
                .ingest_sse_data(event, 1)
                .iter()
                .any(|event| matches!(event, GenerationEvent::Finished(_)))
        );
    }

    let events = session.ingest_sse_data(
        r#"{"type":"response.completed","response":{"id":"resp","output":[{"type":"future_output","id":"future"},{"type":"reasoning","id":"reasoning-item","summary":[{"type":"summary_text","text":"thought"}]}]}}"#,
        1,
    );
    let message = events
        .into_iter()
        .find_map(|event| match event {
            GenerationEvent::Finished(outcome) => outcome.message,
            _ => None,
        })
        .must("terminal message");

    assert!(matches!(
        message.content.as_slice(),
        [IndexedContentBlock {
            content_index: 1,
            block: ContentBlock::Reasoning { reasoning },
        }] if reasoning.display == "thought"
    ));
}

#[test]
fn tests_responses_preserves_message_id_for_each_text_block() {
    let mut session = GatewaySession::new(
        RequestContext::new("p", "m", Protocol::Responses, 1, 0),
        ProtocolSession::new(Protocol::Responses, CompatibilityProfile::default()),
    );
    for event in [
        r#"{"type":"response.created","response":{"id":"resp"}}"#,
        r#"{"type":"response.output_item.added","output_index":0,"item":{"type":"message","id":"msg_1"}}"#,
        r#"{"type":"response.output_text.delta","output_index":0,"content_index":0,"delta":"first"}"#,
        r#"{"type":"response.output_item.done","output_index":0,"item":{"type":"message","id":"msg_1","content":[{"type":"output_text","text":"first"}]}}"#,
        r#"{"type":"response.output_item.added","output_index":1,"item":{"type":"message","id":"msg_2"}}"#,
        r#"{"type":"response.output_text.delta","output_index":1,"content_index":0,"delta":"second"}"#,
        r#"{"type":"response.output_item.done","output_index":1,"item":{"type":"message","id":"msg_2","content":[{"type":"output_text","text":"second"}]}}"#,
    ] {
        session.ingest_sse_data(event, 1);
    }
    let events =
        session.ingest_sse_data(r#"{"type":"response.completed","response":{"id":"resp"}}"#, 1);
    let message = events
        .into_iter()
        .find_map(|event| match event {
            GenerationEvent::Finished(outcome) => outcome.message.map(IndexedMessage::into_message),
            _ => None,
        })
        .must("assembled message");
    let message_ids = message
        .content
        .iter()
        .filter_map(|block| match block {
            ContentBlock::Text {
                provider_metadata, ..
            } => provider_metadata
                .responses
                .as_ref()
                .and_then(|metadata| metadata.message_id.as_deref()),
            _ => None,
        })
        .collect::<Vec<_>>();

    assert_eq!(message_ids, vec!["msg_1", "msg_2"]);
}

#[test]
fn tests_assembler_preserves_started_block_order() {
    let mut assembler = MessageAssembler::new();
    assembler
        .observe(&GenerationEvent::TextStarted {
            content_index: 0,
            id: "t".into(),
        })
        .must("text start");
    assembler
        .observe(&GenerationEvent::TextDelta {
            content_index: 0,
            id: "t".into(),
            delta: "answer".into(),
        })
        .must("text delta");
    assembler
        .observe(&GenerationEvent::ReasoningStarted {
            content_index: 1,
            id: "r".into(),
        })
        .must("reasoning start");
    assembler
        .observe(&GenerationEvent::ReasoningDelta {
            content_index: 1,
            id: "r".into(),
            delta: "later".into(),
        })
        .must("reasoning delta");
    let message = assembler.message();
    assert!(matches!(
        message.content[0].block,
        ContentBlock::Text { .. }
    ));
    assert!(matches!(
        message.content[1].block,
        ContentBlock::Reasoning { .. }
    ));
    assert_eq!(
        message
            .content
            .iter()
            .map(|part| part.content_index)
            .collect::<Vec<_>>(),
        vec![0, 1]
    );
}

#[test]
fn tests_assembler_orders_terminal_backfill_by_content_index() {
    let mut assembler = MessageAssembler::new();
    for event in [
        GenerationEvent::TextStarted {
            content_index: 1,
            id: "text".into(),
        },
        GenerationEvent::TextDelta {
            content_index: 1,
            id: "text".into(),
            delta: "answer".into(),
        },
        GenerationEvent::ReasoningStarted {
            content_index: 0,
            id: "reasoning".into(),
        },
        GenerationEvent::ReasoningDelta {
            content_index: 0,
            id: "reasoning".into(),
            delta: "first".into(),
        },
    ] {
        assembler.observe(&event).must("valid event");
    }
    let message = assembler.message();
    assert_eq!(
        message
            .content
            .iter()
            .map(|part| part.content_index)
            .collect::<Vec<_>>(),
        vec![0, 1]
    );
    assert!(matches!(
        message.content.as_slice(),
        [
            IndexedContentBlock {
                block: ContentBlock::Reasoning { .. },
                ..
            },
            IndexedContentBlock {
                block: ContentBlock::Text { .. },
                ..
            }
        ]
    ));
}

#[test]
fn tests_assembler_rejects_delta_after_block_finish() {
    let mut assembler = MessageAssembler::new();
    assembler
        .observe(&GenerationEvent::ReasoningStarted {
            content_index: 0,
            id: "reasoning".into(),
        })
        .must("start");
    assembler
        .observe(&GenerationEvent::ReasoningFinished {
            content_index: 0,
            id: "reasoning".into(),
            replay: None,
        })
        .must("finish");
    assert!(
        assembler
            .observe(&GenerationEvent::ReasoningDelta {
                content_index: 0,
                id: "reasoning".into(),
                delta: "late".into()
            })
            .is_err()
    );
}

#[test]
fn tests_assembler_preserves_reasoning_around_a_tool_call() {
    let mut assembler = MessageAssembler::new();
    let tool_call = ToolCall {
        id: "call-0".into(),
        name: "lookup".into(),
        arguments: Json::Object(vec![]),
        raw_arguments: "{}".into(),
        provider_metadata: ProviderMetadata::default(),
    };
    let events = [
        GenerationEvent::ReasoningStarted {
            content_index: 0,
            id: "reasoning-0".into(),
        },
        GenerationEvent::ReasoningDelta {
            content_index: 0,
            id: "reasoning-0".into(),
            delta: "before".into(),
        },
        GenerationEvent::ToolCallStarted {
            content_index: 1,
            index: 0,
            id: tool_call.id.clone(),
            name: tool_call.name.clone(),
        },
        GenerationEvent::ReasoningStarted {
            content_index: 2,
            id: "reasoning-1".into(),
        },
        GenerationEvent::ReasoningDelta {
            content_index: 2,
            id: "reasoning-1".into(),
            delta: "after".into(),
        },
        GenerationEvent::ToolCallFinished {
            content_index: 1,
            index: 0,
            tool_call: Box::new(tool_call.clone()),
        },
    ];
    for event in &events {
        assembler.observe(event).must("valid event");
    }

    let message = assembler.message();
    assert!(matches!(
        message.content.as_slice(),
        [
            IndexedContentBlock { block: ContentBlock::Reasoning { reasoning: first }, .. },
            IndexedContentBlock { block: ContentBlock::ToolCall { tool_call: middle }, .. },
            IndexedContentBlock { block: ContentBlock::Reasoning { reasoning: second }, .. },
        ] if first.display == "before"
            && middle == &tool_call
            && second.display == "after"
    ));
    assert_eq!(
        message
            .content
            .iter()
            .map(|part| part.content_index)
            .collect::<Vec<_>>(),
        vec![0, 1, 2]
    );
}

#[test]
fn tests_request_context_retains_conversation_and_turn_ids() {
    let context =
        RequestContext::with_correlation("p", "m", Protocol::Responses, "conversation-1", "turn-2", 7, 0);
    assert_eq!(context.conversation_id, "conversation-1");
    assert_eq!(context.turn_id, "turn-2");
}

#[test]
fn gateway_cancellation_is_exactly_once_even_on_drop() {
    let mut metrics = InMemoryMetrics::new(8);
    let mut session = session(Protocol::Responses);
    assert!(session.cancel(1).is_some());
    assert!(session.cancel(1).is_none());
    deliver(&mut session, &mut metrics);
    drop(session);
    assert_eq!(metrics.recent().len(), 1);
    assert_eq!(metrics.recent()[0].status, OutcomeStatus::Cancelled);
}

#[test]
fn gateway_cancellation_while_reading_closes_both_protocol_streams_once() {
    assert_midstream_cancellation(
        Protocol::ChatCompletions,
        b"data: {\"choices\":[{\"delta\":{\"content\":\"partial\"},\"finish_reason\":null}]}\n\n",
    );
    assert_midstream_cancellation(
        Protocol::Responses,
        b"data: {\"type\":\"response.created\",\"response\":{\"id\":\"resp\"}}\n\ndata: {\"type\":\"response.output_item.added\",\"output_index\":0,\"item\":{\"type\":\"message\",\"id\":\"msg\"}}\n\ndata: {\"type\":\"response.output_text.delta\",\"output_index\":0,\"content_index\":0,\"delta\":\"partial\"}\n\n",
    );
}

#[test]
fn gateway_silent_eof_becomes_one_failed_outcome() {
    let mut metrics = InMemoryMetrics::new(8);
    let mut session = session(Protocol::ChatCompletions);
    assert!(session.finish_eof(1).is_some());
    assert!(session.finish_eof(1).is_none());
    deliver(&mut session, &mut metrics);
    assert_eq!(metrics.recent()[0].status, OutcomeStatus::Failed);
}

#[test]
fn gateway_chat_error_frame_reaches_live_outcome_and_observer_verbatim() {
    let frame = r#"{"error":{"message":"raw provider detail","code":"bad_request"}}"#;
    let mut session = session(Protocol::ChatCompletions);

    let outcome = session
        .ingest_sse_data(frame, 1)
        .into_iter()
        .find_map(|event| match event {
            GenerationEvent::Finished(outcome) => Some(outcome),
            _ => None,
        })
        .must("failed outcome");

    assert_eq!(outcome.error.as_ref().and_then(GatewayError::upstream_body), Some(frame));
    let observed = session
        .take_notices()
        .into_iter()
        .find_map(|notice| match notice {
            LifecycleNotice::Finish(outcome) => Some(outcome),
            _ => None,
        })
        .must("observed outcome");
    assert_eq!(
        observed.error.as_ref().and_then(GatewayError::upstream_body),
        Some(frame),
        "live observers intentionally receive the original response; storage observers must discard it"
    );
}

#[test]
fn gateway_responses_replay_metadata_survives_terminal_assembly() {
    let mut session = GatewaySession::new(
        RequestContext::new("p", "m", Protocol::Responses, 1, 0),
        ProtocolSession::new(Protocol::Responses, CompatibilityProfile::default()),
    );
    let mut reasoning_finish_count = 0;
    let mut snapshot_update_count = 0;
    for event in [
        r#"{"type":"response.created","response":{"id":"resp"}}"#,
        r#"{"type":"response.output_item.added","output_index":0,"item":{"type":"reasoning","id":"reasoning-item"}}"#,
        r#"{"type":"response.reasoning_text.delta","output_index":0,"content_index":0,"delta":"streamed draft"}"#,
        r#"{"type":"response.reasoning_text.done","output_index":0,"content_index":0}"#,
        r#"{"type":"response.output_item.added","output_index":1,"item":{"type":"message","id":"message-item"}}"#,
        r#"{"type":"response.output_text.delta","output_index":1,"content_index":0,"delta":"answer"}"#,
        r#"{"type":"response.output_item.done","output_index":0,"item":{"type":"reasoning","id":"reasoning-item","encrypted_content":"opaque","summary":[{"type":"summary_text","text":"authoritative summary"}]}}"#,
    ] {
        let events = session.ingest_sse_data(event, 1);
        reasoning_finish_count += events
            .iter()
            .filter(|event| matches!(event, GenerationEvent::ReasoningFinished { .. }))
            .count();
        snapshot_update_count += events
            .iter()
            .filter(|event| matches!(event, GenerationEvent::ReasoningSnapshotUpdated { .. }))
            .count();
        assert!(
            !events
                .iter()
                .any(|event| matches!(event, GenerationEvent::Finished(_)))
        );
    }
    assert_eq!(reasoning_finish_count, 1);
    assert_eq!(snapshot_update_count, 1);
    let events =
        session.ingest_sse_data(r#"{"type":"response.completed","response":{"id":"resp","output":[{"type":"reasoning","id":"reasoning-item","encrypted_content":"opaque","summary":[{"type":"summary_text","text":"authoritative summary"}]},{"type":"message","id":"message-item","content":[{"type":"output_text","text":"answer"}]}]}}"#, 1);
    let outcome = events
        .into_iter()
        .find_map(|event| match event {
            GenerationEvent::Finished(outcome) => Some(outcome),
            _ => None,
        })
        .must("terminal outcome");
    let message = outcome.message.must("assembled message").into_message();
    let metadata = message
        .provider_metadata
        .responses
        .must("message metadata");
    assert_eq!(metadata.response_id.as_deref(), Some("resp"));
    let reasoning = message
        .content
        .iter()
        .find_map(|block| match block {
            ContentBlock::Reasoning { reasoning } => Some(reasoning),
            _ => None,
        })
        .must("reasoning content");
    assert_eq!(reasoning.display, "authoritative summary");
    let replay = reasoning
        .replay
        .as_ref()
        .and_then(|metadata| metadata.responses.as_ref())
        .must("reasoning replay metadata");
    assert_eq!(replay.item_id.as_deref(), Some("reasoning-item"));
    assert_eq!(replay.encrypted_reasoning.as_deref(), Some("opaque"));
}

#[test]
fn gateway_responses_unsupported_output_keeps_the_later_canonical_index() {
    let mut session = GatewaySession::new(
        RequestContext::new("p", "m", Protocol::Responses, 1, 0),
        ProtocolSession::new(Protocol::Responses, CompatibilityProfile::default()),
    );
    for event in [
        r#"{"type":"response.created","response":{"id":"resp"}}"#,
        r#"{"type":"response.output_item.added","output_index":0,"item":{"type":"future_output","id":"future"}}"#,
        r#"{"type":"response.output_item.done","output_index":0,"item":{"type":"future_output","id":"future"}}"#,
        r#"{"type":"response.output_item.added","output_index":1,"item":{"type":"reasoning","id":"reasoning-item"}}"#,
        r#"{"type":"response.reasoning_text.delta","output_index":1,"delta":"thought"}"#,
        r#"{"type":"response.output_item.done","output_index":1,"item":{"type":"reasoning","id":"reasoning-item","summary":[{"type":"summary_text","text":"thought"}]}}"#,
    ] {
        assert!(
            !session
                .ingest_sse_data(event, 1)
                .iter()
                .any(|event| matches!(event, GenerationEvent::Finished(_)))
        );
    }

    let events = session.ingest_sse_data(
        r#"{"type":"response.completed","response":{"id":"resp","output":[{"type":"future_output","id":"future"},{"type":"reasoning","id":"reasoning-item","summary":[{"type":"summary_text","text":"thought"}]}]}}"#,
        1,
    );
    let message = events
        .into_iter()
        .find_map(|event| match event {
            GenerationEvent::Finished(outcome) => outcome.message,
            _ => None,
        })
        .must("terminal message");

    assert!(matches!(
        message.content.as_slice(),
        [IndexedContentBlock {
            content_index: 1,
            block: ContentBlock::Reasoning { reasoning },
        }] if reasoning.display == "thought"
    ));
}

#[test]
fn gateway_responses_preserves_message_id_for_each_text_block() {
    let mut session = GatewaySession::new(
        RequestContext::new("p", "m", Protocol::Responses, 1, 0),
        ProtocolSession::new(Protocol::Responses, CompatibilityProfile::default()),
    );
    for event in [
        r#"{"type":"response.created","response":{"id":"resp"}}"#,
        r#"{"type":"response.output_item.added","output_index":0,"item":{"type":"message","id":"msg_1"}}"#,
        r#"{"type":"response.output_text.delta","output_index":0,"content_index":0,"delta":"first"}"#,
        r#"{"type":"response.output_item.done","output_index":0,"item":{"type":"message","id":"msg_1","content":[{"type":"output_text","text":"first"}]}}"#,
        r#"{"type":"response.output_item.added","output_index":1,"item":{"type":"message","id":"msg_2"}}"#,
        r#"{"type":"response.output_text.delta","output_index":1,"content_index":0,"delta":"second"}"#,
        r#"{"type":"response.output_item.done","output_index":1,"item":{"type":"message","id":"msg_2","content":[{"type":"output_text","text":"second"}]}}"#,
    ] {
        session.ingest_sse_data(event, 1);
    }
    let events =
        session.ingest_sse_data(r#"{"type":"response.completed","response":{"id":"resp"}}"#, 1);
    let message = events
        .into_iter()
        .find_map(|event| match event {
            GenerationEvent::Finished(outcome) => {
                outcome.message.map(IndexedMessage::into_message)
            }
            _ => None,
        })
        .must("assembled message");
    let message_ids = message
        .content
        .iter()
        .filter_map(|block| match block {
            ContentBlock::Text {
                provider_metadata, ..
            } => provider_metadata
                .responses
                .as_ref()
                .and_then(|metadata| metadata.message_id.as_deref()),
            _ => None,
        })
        .collect::<Vec<_>>();

    assert_eq!(message_ids, vec!["msg_1", "msg_2"]);
}

#[test]
fn gateway_assembler_preserves_started_block_order() {
    let mut assembler = MessageAssembler::new();
    assembler
        .observe(&GenerationEvent::TextStarted {
            content_index: 0,
            id: "t".into(),
        })
        .must("text start");
    assembler
        .observe(&GenerationEvent::TextDelta {
            content_index: 0,
            id: "t".into(),
            delta: "answer".into(),
        })
        .must("text delta");
    assembler
        .observe(&GenerationEvent::ReasoningStarted {
            content_index: 1,
            id: "r".into(),
        })
        .must("reasoning start");
    assembler
        .observe(&GenerationEvent::ReasoningDelta {
            content_index: 1,
            id: "r".into(),
            delta: "later".into(),
        })
        .must("reasoning delta");
    let message = assembler.message();
    assert!(matches!(
        message.content[0].block,
        ContentBlock::Text { .. }
    ));
    assert!(matches!(
        message.content[1].block,
        ContentBlock::Reasoning { .. }
    ));
    assert_eq!(
        message
            .content
            .iter()
            .map(|part| part.content_index)
            .collect::<Vec<_>>(),
        vec![0, 1]
    );
}

#[test]
fn gateway_assembler_orders_terminal_backfill_by_content_index() {
    let mut assembler = MessageAssembler::new();
    for event in [
        GenerationEvent::TextStarted {
            content_index: 1,
            id: "text".into(),
        },
        GenerationEvent::TextDelta {
            content_index: 1,
            id: "text".into(),
            delta: "answer".into(),
        },
        GenerationEvent::ReasoningStarted {
            content_index: 0,
            id: "reasoning".into(),
        },
        GenerationEvent::ReasoningDelta {
            content_index: 0,
            id: "reasoning".into(),
            delta: "first".into(),
        },
    ] {
        assembler.observe(&event).must("valid event");
    }
    let message = assembler.message();
    assert_eq!(
        message
            .content
            .iter()
            .map(|part| part.content_index)
            .collect::<Vec<_>>(),
        vec![0, 1]
    );
    assert!(matches!(
        message.content.as_slice(),
        [
            IndexedContentBlock {
                block: ContentBlock::Reasoning { .. },
                ..
            },
            IndexedContentBlock {
                block: ContentBlock::Text { .. },
                ..
            }
        ]
    ));
}

#[test]
fn gateway_assembler_rejects_delta_after_block_finish() {
    let mut assembler = MessageAssembler::new();
    assembler
        .observe(&GenerationEvent::ReasoningStarted {
            content_index: 0,
            id: "reasoning".into(),
        })
        .must("start");
    assembler
        .observe(&GenerationEvent::ReasoningFinished {
            content_index: 0,
            id: "reasoning".into(),
            replay: None,
        })
        .must("finish");
    assert!(
        assembler
            .observe(&GenerationEvent::ReasoningDelta {
                content_index: 0,
                id: "reasoning".into(),
                delta: "late".into()
            })
            .is_err()
    );
}

#[test]
fn gateway_assembler_preserves_reasoning_around_a_tool_call() {
    let mut assembler = MessageAssembler::new();
    let tool_call = ToolCall {
        id: "call-0".into(),
        name: "lookup".into(),
        arguments: Json::Object(vec![]),
        raw_arguments: "{}".into(),
        provider_metadata: ProviderMetadata::default(),
    };
    let events = [
        GenerationEvent::ReasoningStarted {
            content_index: 0,
            id: "reasoning-0".into(),
        },
        GenerationEvent::ReasoningDelta {
            content_index: 0,
            id: "reasoning-0".into(),
            delta: "before".into(),
        },
        GenerationEvent::ToolCallStarted {
            content_index: 1,
            index: 0,
            id: tool_call.id.clone(),
            name: tool_call.name.clone(),
        },
        GenerationEvent::ReasoningStarted {
            content_index: 2,
            id: "reasoning-1".into(),
        },
        GenerationEvent::ReasoningDelta {
            content_index: 2,
            id: "reasoning-1".into(),
            delta: "after".into(),
        },
        GenerationEvent::ToolCallFinished {
            content_index: 1,
            index: 0,
            tool_call: Box::new(tool_call.clone()),
        },
    ];
    for event in &events {
        assembler.observe(event).must("valid event");
    }

    let message = assembler.message();
    assert!(matches!(
        message.content.as_slice(),
        [
            IndexedContentBlock { block: ContentBlock::Reasoning { reasoning: first }, .. },
            IndexedContentBlock { block: ContentBlock::ToolCall { tool_call: middle }, .. },
            IndexedContentBlock { block: ContentBlock::Reasoning { reasoning: second }, .. },
        ] if first.display == "before"
            && middle == &tool_call
            && second.display == "after"
    ));
    assert_eq!(
        message
            .content
            .iter()
            .map(|part| part.content_index)
            .collect::<Vec<_>>(),
        vec![0, 1, 2]
    );
}

#[test]
fn gateway_request_context_retains_conversation_and_turn_ids() {
    let context = RequestContext::with_correlation(
        "p",
        "m",
        Protocol::Responses,
        "conversation-1",
        "turn-2",
        7,
        0,
    );
    assert_eq!(context.conversation_id, "conversation-1");
    assert_eq!(context.turn_id, "turn-2");
}

#[test]
fn a_chat_stream_of_every_kind_of_block_adds_up() {
    let mut session = session(Protocol::ChatCompletions);
    for frame in [
        r#"{"choices":[{"delta":{"reasoning_content":"think"}}]}"#,
        r#"{"choices":[{"delta":{"content":"one "}}]}"#,
        r#"{"choices":[{"delta":{"content":"two","tool_calls":[{"id":"x","function":{"name":"f","arguments":"{"}}]}}]}"#,
        r#"{"choices":[{"delta":{"tool_calls":[{"id":"x","function":{"arguments":"}"}}]}}]}"#,
        r#"{"choices":[{"delta":{"reasoning_content":"again","content":"three"}}]}"#,
        r#"{"choices":[{"delta":{},"finish_reason":"tool_calls"}]}"#,
    ] {
        assert!(!session.is_finished());
        session.ingest_sse_data(frame, 1);
    }
    let outcome = match session.finish_eof(2) {
        Some(GenerationEvent::Finished(outcome)) => outcome,
        _ => panic!("the stream must end the generation"),
    };
    assert_eq!(outcome.status, OutcomeStatus::Completed);
    let message = outcome.message.must("assembled message");
    let indices: Vec<usize> = message.content.iter().map(|part| part.content_index).collect();
    assert_eq!(indices, vec![0, 1, 2, 3, 4]);
    assert!(matches!(
        &message.content[2].block,
        ContentBlock::ToolCall { tool_call } if tool_call.raw_arguments == "{}"
    ));
    assert!(session.ingest_sse_data("[DONE]", 3).is_empty());
    assert!(session.cancel(4).is_none());
}

#[test]
fn a_generation_that_is_stopped_or_fails_ends_once() {
    let mut stopped = session(Protocol::Responses);
    let outcome = match stopped.fail_with(GatewayError::protocol("broken"), 5) {
        Some(GenerationEvent::Finished(outcome)) => outcome,
        _ => panic!("a failure must end the generation"),
    };
    assert_eq!(outcome.status, OutcomeStatus::Failed);
    let error = outcome.error.must("the failure");
    assert_eq!(error.request_id.as_deref(), Some("nostra-1"));
    assert!(!error.output_started);
    assert_eq!(outcome.latency, 5);
    assert!(stopped.fail_with(GatewayError::protocol("again"), 6).is_none());
    assert!(stopped.finish_eof(7).is_none());
}
