use nostra::llm::error::GatewayError;
use nostra::llm::event::{FinishReason, GenerationEvent};
use nostra::llm::gateway::assembler::MessageAssembler;
use nostra::llm::model::{
    ContentBlock, GenerateRequest, Message, ProviderMetadata, Role, ToolCall, ToolResult, Usage,
    UsageProvenance,
};
use nostra::llm::protocol::chat_completions::encoding::{encode_message, normalize_chat_call_id};
use nostra::llm::protocol::chat_completions::session::{
    parse_finish_reason, ChatCompletionsSession,
};
use nostra::llm::protocol::responses::encoding::{
    encode_message_items, normalize_function_item_id, normalize_id_part, normalize_message_id,
    normalize_reasoning_item_id,
};
use nostra::llm::protocol::responses::state::ResponsesSession;
use nostra::llm::protocol::{CompatibilityProfile, Protocol, ProtocolTerminalStatus};
use nostra::llm::transport::retry_delay;
use nostra::json::{Json, JsonNumber};
use serde_json::Value;

fn must<T>(result: Result<T, GatewayError>) -> T {
    match result {
        Ok(value) => value,
        Err(error) => panic!("{}", error.debug_text()),
    }
}

fn refusal<T>(result: Result<T, GatewayError>) -> GatewayError {
    match result {
        Ok(_) => panic!("expected a refusal"),
        Err(error) => error,
    }
}

fn values(items: Vec<Json>) -> Vec<Value> {
    items
        .iter()
        .map(|item| serde_json::from_str(&item.to_text()).expect("valid JSON"))
        .collect()
}

fn chat() -> ChatCompletionsSession {
    ChatCompletionsSession::new(CompatibilityProfile::default())
}

fn responses() -> ResponsesSession {
    let mut session = ResponsesSession::new(CompatibilityProfile::default());
    must(session.ingest(r#"{"type":"response.created","response":{"id":"resp"}}"#));
    session
}

fn reasoning_of(events: &[GenerationEvent]) -> Vec<&str> {
    events
        .iter()
        .filter_map(|event| match event {
            GenerationEvent::ReasoningDelta { delta, .. } => Some(delta.as_str()),
            _ => None,
        })
        .collect()
}

#[test]
fn reasoning_comes_from_the_first_alias_that_is_not_empty() {
    let update = must(chat().ingest(
        r#"{"choices":[{"delta":{"reasoning_content":"","reasoning":"used","reasoning_text":"not"}}]}"#,
    ));
    assert_eq!(reasoning_of(&update.events), vec!["used"]);
    let update = must(chat().ingest(
        r#"{"choices":[{"delta":{"reasoning_content":"","reasoning":null,"reasoning_text":""}}]}"#,
    ));
    assert!(reasoning_of(&update.events).is_empty());
}

#[test]
fn tool_calls_start_before_they_finish() {
    let mut session = chat();
    let mut events = Vec::new();
    for frame in [
        r#"{"choices":[{"delta":{"content":"a","tool_calls":[{"id":"x","function":{"name":"f"}}]}}]}"#,
        r#"{"choices":[{"delta":{"tool_calls":[{"index":4,"id":"y","function":{"arguments":"{}"}}]},"finish_reason":"tool_calls"}]}"#,
    ] {
        events.extend(must(session.ingest(frame)).events);
    }
    let place = |index: usize, started: bool| {
        events.iter().position(|event| match event {
            GenerationEvent::ToolCallStarted { index: of, .. } => started && *of == index,
            GenerationEvent::ToolCallFinished { index: of, .. } => !started && *of == index,
            _ => false,
        })
    };
    for index in [0, 4] {
        assert!(place(index, true).expect("started") < place(index, false).expect("finished"));
    }
}

#[test]
fn blocks_are_numbered_in_the_order_they_start() {
    let mut session = chat();
    let mut starts = Vec::new();
    for frame in [
        r#"{"choices":[{"delta":{"reasoning":"think"}}]}"#,
        r#"{"choices":[{"delta":{"content":"say"}}]}"#,
        r#"{"choices":[{"delta":{"content":" more"}}]}"#,
        r#"{"choices":[{"delta":{"reasoning":"think again"}}]}"#,
        r#"{"choices":[{"delta":{"tool_calls":[{"index":7},{"index":2}]}}]}"#,
        r#"{"choices":[{"delta":{"content":"say again"}}]}"#,
        r#"{"choices":[{"delta":{"tool_calls":[{"index":7},{"index":1}]}}]}"#,
    ] {
        for event in must(session.ingest(frame)).events {
            match event {
                GenerationEvent::TextStarted { content_index, .. } => {
                    starts.push(("text", content_index))
                }
                GenerationEvent::ReasoningStarted { content_index, .. } => {
                    starts.push(("reasoning", content_index))
                }
                GenerationEvent::ToolCallStarted { content_index, .. } => {
                    starts.push(("tool", content_index))
                }
                _ => {}
            }
        }
    }
    assert_eq!(
        starts,
        vec![
            ("reasoning", 0),
            ("text", 1),
            ("reasoning", 2),
            ("tool", 3),
            ("tool", 4),
            ("text", 5),
            ("tool", 6),
        ]
    );
}

#[test]
fn tool_calls_come_whole_out_of_their_fragments() {
    let mut session = chat();
    let mut started = Vec::new();
    let mut finished = Vec::new();
    for frame in [
        r#"{"choices":[{"delta":{"tool_calls":[{"index":1,"id":"b","function":{"name":""}},{"index":0,"id":"a","function":{"name":"f","arguments":"{\"x\""}}]}}]}"#,
        r#"{"choices":[{"delta":{"tool_calls":[{"id":"b","function":{"name":"g","arguments":"["}}]}}]}"#,
        r#"{"choices":[{"delta":{"content":"between"}}]}"#,
        r#"{"choices":[{"delta":{"tool_calls":[{"index":0,"function":{"name":"late","arguments":":1"}},{"index":1,"function":{"arguments":"]"}}]}}]}"#,
        r#"{"choices":[{"delta":{"tool_calls":[{"id":"a","function":{"arguments":"}"}}]},"finish_reason":"tool_calls"}]}"#,
    ] {
        for event in must(session.ingest(frame)).events {
            match event {
                GenerationEvent::ToolCallStarted { index, .. } => started.push(index),
                GenerationEvent::ToolCallFinished { index, tool_call, .. } => {
                    finished.push((index, tool_call.name, tool_call.raw_arguments))
                }
                _ => {}
            }
        }
    }
    assert_eq!(started, vec![1, 0]);
    assert_eq!(
        finished,
        vec![
            (0, "f".to_string(), r#"{"x":1}"#.to_string()),
            (1, "g".to_string(), "[]".to_string()),
        ]
    );
}

#[test]
fn chat_frames_are_refused_for_what_they_are() {
    assert_eq!(
        refusal(chat().ingest("not json")).safe_message(),
        "invalid Chat Completions stream JSON"
    );
    let frame = r#"{"error":{"message":"no","code":"bad"}}"#;
    let error = refusal(chat().ingest(frame));
    assert_eq!(error.upstream_body(), Some(frame));
    assert_eq!(error.provider_code.as_deref(), Some("bad"));
    let error = refusal(chat().ingest(
        r#"{"choices":[{"delta":{"tool_calls":[{"id":7}]}}]}"#,
    ));
    assert_eq!(error.safe_message(), "tool id must be a string");
    let error = refusal(chat().ingest(
        r#"{"choices":[{"delta":{"tool_calls":[{"function":{"arguments":7}}]}}]}"#,
    ));
    assert_eq!(error.safe_message(), "tool arguments must be a string or configured object");
    let mut session = chat();
    must(session.ingest(r#"{"choices":[{"delta":{},"finish_reason":"stop"}]}"#));
    assert!(must(session.ingest("[DONE]")).terminal.is_some());
    assert_eq!(
        refusal(session.ingest("{}")).safe_message(),
        "chat stream emitted data after terminal event"
    );
    assert!(must(session.ingest("[DONE]")).terminal.is_none());
    assert!(must(session.finish_eof()).is_none());
}

#[test]
fn finish_reasons_are_known_by_their_names() {
    assert_eq!(parse_finish_reason("stop"), FinishReason::Stop);
    assert_eq!(parse_finish_reason("length"), FinishReason::Length);
    assert_eq!(parse_finish_reason("function_call"), FinishReason::ToolCalls);
    assert_eq!(parse_finish_reason("content_filter"), FinishReason::ContentFilter);
    assert_eq!(parse_finish_reason("new"), FinishReason::Other("new".into()));
}

#[test]
fn responses_frames_are_refused_for_what_they_are() {
    for (frame, message) in [
        ("not json", "invalid Responses stream JSON"),
        ("{}", "Responses event is missing type"),
        (
            r#"{"type":"response.created","response":{}}"#,
            "Responses stream emitted response.created more than once",
        ),
        (
            r#"{"type":"response.output_text.delta","delta":"x"}"#,
            "Responses output event is missing output_index",
        ),
        (
            r#"{"type":"response.output_item.added","output_index":0}"#,
            "output item added without item",
        ),
        (
            r#"{"type":"response.output_text.delta","output_index":0,"delta":"x"}"#,
            "Responses delta arrived before output item was added",
        ),
    ] {
        assert_eq!(refusal(responses().ingest(frame)).safe_message(), message, "{frame}");
    }
}

#[test]
fn a_new_item_ends_reasoning_that_is_open() {
    let mut session = responses();
    must(session.ingest(r#"{"type":"response.output_item.added","output_index":0,"item":{"type":"reasoning","id":"rs_0"}}"#));
    must(session.ingest(r#"{"type":"response.reasoning_text.delta","output_index":0,"delta":"first"}"#));
    let added = must(session.ingest(r#"{"type":"response.output_item.added","output_index":1,"item":{"type":"message","id":"msg"}}"#));
    assert!(matches!(
        added.events.as_slice(),
        [GenerationEvent::ReasoningFinished { content_index: 0, .. }]
    ));
    // Whatever comes late, it does not end again.
    let mut ends = 0;
    for frame in [
        r#"{"type":"response.output_item.done","output_index":0,"item":{"type":"reasoning","id":"rs_0","summary":[{"type":"summary_text","text":"other"}]}}"#,
        r#"{"type":"response.completed","response":{"output":[{"type":"reasoning","id":"rs_0"}]}}"#,
    ] {
        ends += must(session.ingest(frame))
            .events
            .iter()
            .filter(|event| matches!(event, GenerationEvent::ReasoningFinished { .. }))
            .count();
    }
    assert_eq!(ends, 0);
}

#[test]
fn failed_responses_carry_their_frame() {
    let frame = r#"{"type":"response.incomplete","response":{"incomplete_details":{"reason":"max_output_tokens"}}}"#;
    let terminal = must(responses().ingest(frame)).terminal.expect("an end");
    assert_eq!(terminal.status, ProtocolTerminalStatus::Failed);
    assert_eq!(terminal.finish_reason, FinishReason::Incomplete("max_output_tokens".into()));
    let error = terminal.error.expect("an error");
    assert_eq!(error.upstream_body(), Some(frame));
    assert_eq!(error.provider_code.as_deref(), Some("response_incomplete"));
}

fn call(id: &str) -> ContentBlock {
    ContentBlock::ToolCall {
        tool_call: ToolCall {
            id: id.into(),
            name: "f".into(),
            arguments: Json::Object(vec![]),
            raw_arguments: "{}".into(),
            provider_metadata: ProviderMetadata::default(),
        },
    }
}

fn result(id: &str) -> ContentBlock {
    ContentBlock::ToolResult {
        tool_result: ToolResult { call_id: id.into(), content: "ok".into(), is_error: false },
    }
}

fn message(role: Role, content: Vec<ContentBlock>) -> Message {
    Message { role, content, provider_metadata: ProviderMetadata::default() }
}

#[test]
fn calls_and_results_share_their_identifier() {
    let profile = CompatibilityProfile::default();
    let sent = values(must(encode_message(&message(Role::Assistant, vec![call("a/b")]), &profile)));
    let answered = values(must(encode_message(&message(Role::Tool, vec![result("a/b")]), &profile)));
    assert_eq!(sent[0]["tool_calls"][0]["id"], answered[0]["tool_call_id"]);
    let sent = values(encode_message_items(&message(Role::Assistant, vec![call("a/b")]), 0));
    let answered = values(encode_message_items(&message(Role::Tool, vec![result("a/b")]), 1));
    assert_eq!(sent[0]["call_id"], answered[0]["call_id"]);
    assert_eq!(sent[0]["call_id"], "a_b");
}

#[test]
fn identifiers_are_normalized_once() {
    for id in ["a/b", "", "call_x", "__x__", "\u{e9}\u{e9}", &"long".repeat(40)] {
        let once = normalize_id_part(id);
        assert_eq!(normalize_id_part(&once), once);
        assert!(once.len() <= 64);
        assert!(normalize_chat_call_id(id).starts_with("call_"));
        assert!(normalize_function_item_id(id).starts_with("fc_"));
        assert!(normalize_reasoning_item_id(id).starts_with("rs_"));
        assert!(normalize_message_id(id).starts_with("msg_"));
    }
}

#[test]
fn requests_need_a_model() {
    let mut request = GenerateRequest { model: "  ".into(), ..Default::default() };
    assert_eq!(refusal(chat().encode_request(&request)).safe_message(), "model must not be empty");
    request.model = "m".into();
    request.messages = vec![message(
        Role::User,
        vec![ContentBlock::Text { text: "hi".into(), provider_metadata: Default::default() }],
    )];
    request.max_output_tokens = Some(5);
    let body = values(vec![must(chat().encode_request(&request))]).remove(0);
    assert_eq!(body["model"], "m");
    assert_eq!(body["messages"][0]["role"], "user");
    assert_eq!(body["messages"][0]["content"], "hi");
    assert_eq!(body["max_completion_tokens"], 5);
    assert_eq!(body["stream_options"]["include_usage"], true);
    assert_eq!(Protocol::ChatCompletions.endpoint_path(), "/chat/completions");
    assert_eq!(Protocol::Responses.endpoint_path(), "/responses");
}

#[test]
fn temperatures_without_a_notation_are_written_as_null() {
    for (text, written) in [("0.5", "0.5"), ("NaN", "null"), ("inf", "null")] {
        let request = GenerateRequest {
            model: "m".into(),
            temperature: Some(JsonNumber::Decimal(text.into())),
            ..Default::default()
        };
        let body = must(chat().encode_request(&request)).to_text();
        assert!(body.contains(&format!("\"temperature\":{written}")));
    }
}

#[test]
fn assembled_text_does_not_depend_on_its_pieces() {
    let message = |pieces: &[&str]| {
        let mut assembler = MessageAssembler::new();
        must(assembler.observe(&GenerationEvent::TextStarted { content_index: 0, id: "t".into() }));
        for piece in pieces {
            must(assembler.observe(&GenerationEvent::TextDelta {
                content_index: 0,
                id: "t".into(),
                delta: (*piece).into(),
            }));
        }
        assembler.message()
    };
    assert!(message(&["one ", "two"]) == message(&["one two"]));
}

#[test]
fn refused_events_leave_the_message_as_it_was() {
    let mut assembler = MessageAssembler::new();
    assert!(assembler.is_empty());
    let start = |id: &str| GenerationEvent::TextStarted { content_index: 0, id: id.into() };
    must(assembler.observe(&start("t")));
    assert_eq!(
        refusal(assembler.observe(&start("other"))).safe_message(),
        "content index was reused by a different block"
    );
    assert_eq!(
        refusal(assembler.observe(&GenerationEvent::TextDelta {
            content_index: 3,
            id: "t".into(),
            delta: "x".into(),
        }))
        .safe_message(),
        "text event did not match a started content block"
    );
    assert!(assembler.is_empty());
}

#[test]
fn usage_adds_up_in_any_order() {
    let a = Usage {
        provenance: UsageProvenance::Reported,
        input_tokens: 1,
        output_tokens: 2,
        total_tokens: 3,
        ..Default::default()
    };
    let b = Usage {
        provenance: UsageProvenance::Reported,
        cache_read_tokens: 4,
        total_tokens: 4,
        ..Default::default()
    };
    let (mut left, mut right) = (a, b);
    left.add_assign(&b);
    right.add_assign(&a);
    assert_eq!(left, right);
    assert_eq!(left.total_tokens, 7);
}

#[test]
fn waits_are_bounded() {
    assert_eq!(retry_delay(&Some(" 7 ".into())), Some(7_000));
    assert_eq!(retry_delay(&Some("31".into())), Some(30_000));
    assert_eq!(retry_delay(&Some(u64::MAX.to_string())), Some(30_000));
}
