use nostra::llm::config::{
    ModelConfig, ModelSelection, ProviderCatalogSnapshot, ProviderProfile, SecretString,
};
use nostra::llm::error::{ErrorKind, GatewayError};
use nostra::llm::event::{GenerationEvent, OutcomeStatus};
use nostra::llm::gateway::generation::{prepare, Generation};
use nostra::llm::gateway::session::{GatewaySession, LifecycleNotice, RequestContext};
use nostra::llm::metrics::InMemoryMetrics;
use nostra::llm::model::GenerateRequest;
use nostra::llm::protocol::{CompatibilityProfile, Protocol, ProtocolSession};
use nostra::llm::sse::{decode_frame, find_event_boundary, SseDecoder};
use nostra::llm::transport::{
    read_http_error, retry_delay, StreamAction, StreamInput, StreamMachine, TransportEvent,
    TransportRequest, MAX_ERROR_BODY_BYTES,
};

fn must<T>(result: Result<T, GatewayError>) -> T {
    match result {
        Ok(value) => value,
        Err(error) => panic!("{}", error.debug_text()),
    }
}

/// What an upstream does with one request.
enum ResponseSpec {
    Status { status: u16, body: &'static str, retry_after: Option<&'static str> },
    ErrorAfterData,
    NoConnection,
}

struct Run {
    calls: usize,
    attempts: Vec<u32>,
    statuses: Vec<u16>,
    data: Vec<String>,
    waits: Vec<u64>,
    result: Result<(), GatewayError>,
}

/// Runs a stream against an upstream of given responses.
fn stream(responses: Vec<ResponseSpec>, go_on: bool) -> Run {
    let mut responses = responses.into_iter();
    let mut current = None;
    let mut sent = false;
    let mut run = Run {
        calls: 0,
        attempts: Vec::new(),
        statuses: Vec::new(),
        data: Vec::new(),
        waits: Vec::new(),
        result: Ok(()),
    };
    let (mut machine, mut action) = StreamMachine::start();
    loop {
        let input = match action {
            StreamAction::Deliver(event) => {
                match event {
                    TransportEvent::Attempt(attempt) => run.attempts.push(attempt),
                    TransportEvent::UpstreamResponse(status) => run.statuses.push(status),
                    TransportEvent::SseData(data) => run.data.push(data),
                }
                StreamInput::Consumed(go_on)
            }
            StreamAction::Send => {
                run.calls += 1;
                sent = false;
                current = responses.next();
                match current.as_ref().expect("queued response") {
                    ResponseSpec::Status { status, .. } => StreamInput::Responded(*status),
                    ResponseSpec::ErrorAfterData => StreamInput::Responded(200),
                    ResponseSpec::NoConnection => {
                        StreamInput::SendFailed(nostra::llm::transport::connection_error())
                    }
                }
            }
            StreamAction::ReadError => match current.as_ref() {
                Some(ResponseSpec::Status { body, retry_after, .. }) => StreamInput::ErrorBody {
                    retry_after: retry_after.map(str::to_string),
                    body: body.as_bytes().to_vec(),
                },
                _ => panic!("there is no error to read"),
            },
            StreamAction::Read => match current.as_ref() {
                Some(ResponseSpec::Status { body, .. }) if !sent => {
                    sent = true;
                    StreamInput::Bytes(body.as_bytes().to_vec())
                }
                Some(ResponseSpec::Status { .. }) => StreamInput::End,
                Some(ResponseSpec::ErrorAfterData) if !sent => {
                    sent = true;
                    StreamInput::Bytes(b"data: {\"chunk\":true}\n\n".to_vec())
                }
                _ => StreamInput::ReadFailed,
            },
            StreamAction::Wait(millis) => {
                run.waits.push(millis);
                StreamInput::Waited
            }
            StreamAction::Succeed => return run,
            StreamAction::Fail(error) => {
                run.result = Err(error);
                return run;
            }
        };
        assert!(machine.expects(&input));
        (machine, action) = machine.step(input);
    }
}

fn failure(run: Run) -> GatewayError {
    match run.result {
        Ok(()) => panic!("expected a failure"),
        Err(error) => error,
    }
}

#[test]
fn decodes_fragmented_crlf_comments_and_multiline_data() {
    let mut decoder = SseDecoder::new(128);
    assert!(must(decoder.push(b": ping\r\ndata: one\r\ndata: tw")).is_empty());
    assert_eq!(must(decoder.push(b"o\r\n\r\n")), vec!["one\ntwo"]);
}

#[test]
fn rejects_oversized_unterminated_event() {
    let mut decoder = SseDecoder::new(4);
    assert!(decoder.push(b"12345").is_err());
}

#[test]
fn http_error_retains_the_captured_body_but_keeps_it_out_of_debug() {
    let body = r#"{"error":{"code":"bad_request","message":"secret echoed"}}"#;
    let error = failure(stream(
        vec![ResponseSpec::Status { status: 400, body, retry_after: None }],
        true,
    ));
    assert_eq!(error.status, Some(400));
    assert_eq!(error.provider_code.as_deref(), Some("bad_request"));
    // The body is the diagnostic the UI shows.
    assert_eq!(error.upstream_body(), Some(body));
    // ...but the rendering for logs still must not carry it.
    assert!(!error.debug_text().contains("secret echoed"));
}

#[test]
fn non_json_error_body_survives_as_text() {
    let error = failure(stream(
        vec![ResponseSpec::Status {
            status: 403,
            body: "<html><body>403 Forbidden</body></html>",
            retry_after: None,
        }],
        true,
    ));
    assert_eq!(error.upstream_body(), Some("<html><body>403 Forbidden</body></html>"));
    // No JSON `code` to extract, so the safe tier stays empty.
    assert_eq!(error.provider_code, None);
}

#[test]
fn empty_error_body_leaves_no_upstream_text() {
    let error = failure(stream(
        vec![ResponseSpec::Status { status: 401, body: "   \n  ", retry_after: None }],
        true,
    ));
    assert_eq!(error.upstream_body(), None);
}

#[test]
fn http_error_body_capture_stops_at_the_configured_byte_limit() {
    let body = "x".repeat(MAX_ERROR_BODY_BYTES as usize + 17);
    let error = read_http_error(400, body.into_bytes());
    let captured = error.upstream_body().expect("captured body");
    assert_eq!(captured.len(), MAX_ERROR_BODY_BYTES as usize);
    assert!(captured.bytes().all(|byte| byte == b'x'));
}

#[test]
fn retries_retryable_status_before_first_data() {
    let run = stream(
        vec![
            ResponseSpec::Status {
                status: 429,
                body: r#"{"error":{"code":"rate_limit"}}"#,
                retry_after: Some("0"),
            },
            ResponseSpec::Status { status: 200, body: "data: [DONE]\n\n", retry_after: None },
        ],
        true,
    );
    must(run.result);
    assert_eq!(run.calls, 2);
    assert_eq!(run.attempts, vec![1, 2]);
    assert_eq!(run.statuses, vec![429, 200]);
    assert_eq!(run.data, vec!["[DONE]"]);
    assert_eq!(run.waits, vec![0]);
}

#[test]
fn never_retries_after_sse_data_was_emitted() {
    let run = stream(vec![ResponseSpec::ErrorAfterData], true);
    assert_eq!(run.calls, 1);
    assert_eq!(failure(run).kind, ErrorKind::Transport);
}

#[test]
fn consumer_can_cancel_before_request_is_sent() {
    let run = stream(
        vec![ResponseSpec::Status { status: 200, body: "data: [DONE]\n\n", retry_after: None }],
        false,
    );
    assert_eq!(run.calls, 0);
    must(run.result);
}

#[test]
fn a_request_is_sent_at_most_twice() {
    let run = stream(
        vec![
            ResponseSpec::Status { status: 503, body: "a", retry_after: None },
            ResponseSpec::Status { status: 503, body: "b", retry_after: None },
        ],
        true,
    );
    assert_eq!(run.calls, 2);
    assert_eq!(run.attempts, vec![1, 2]);
    assert_eq!(failure(run).upstream_body(), Some("b"));
    let run = stream(vec![ResponseSpec::NoConnection, ResponseSpec::NoConnection], true);
    assert_eq!(run.calls, 2);
    assert_eq!(failure(run).kind, ErrorKind::Transport);
}

#[test]
fn cutting_a_stream_of_events_changes_nothing() {
    let stream = b"data: one\n\n: note\nevent: x\ndata: t\xc3\xa9\r\n\r\ndata:last\n\n";
    let whole = must(SseDecoder::new(64).push(stream));
    assert_eq!(whole, vec!["one", "t\u{e9}", "last"]);
    for cut in 0..stream.len() {
        let mut decoder = SseDecoder::new(64);
        let mut pieces = must(decoder.push(&stream[..cut]));
        pieces.extend(must(decoder.push(&stream[cut..])));
        assert_eq!(pieces, whole);
    }
}

#[test]
fn frames_are_decoded_exactly() {
    assert_eq!(find_event_boundary(b"a\n\nb"), Some((1, 2)));
    assert_eq!(find_event_boundary(b"a\r\n\r\nb"), Some((1, 4)));
    assert_eq!(find_event_boundary(b"a\nb"), None);
    assert_eq!(must(decode_frame(b"event: ping")), None);
    assert_eq!(must(decode_frame(b"data:  two")).as_deref(), Some(" two"));
    assert!(decode_frame(b"data: \xff").is_err());
    let mut decoder = SseDecoder::new(64);
    assert!(must(decoder.push(b"data: tail")).is_empty());
    assert_eq!(must(decoder.finish()), vec!["tail"]);
}

#[test]
fn error_bodies_that_are_no_text_are_kept_with_marks() {
    let error = read_http_error(500, b"a\xffb".to_vec());
    assert_eq!(error.upstream_body(), Some("a\u{fffd}b"));
    assert!(error.retryable);
}

#[test]
fn retry_delays_are_read_and_bounded() {
    assert_eq!(retry_delay(&None), None);
    assert_eq!(retry_delay(&Some("2".into())), Some(2000));
    assert_eq!(retry_delay(&Some("soon".into())), None);
}

#[test]
fn requests_carry_their_key_or_none() {
    let request = |key: &str| TransportRequest {
        url: "https://example.com/v1/responses".into(),
        api_key: SecretString::new(key),
        body: b"{}".to_vec(),
    };
    assert_eq!(request("secret").authorization().as_deref(), Some("Bearer secret"));
    assert_eq!(request("").authorization(), None);
}

fn profile() -> ProviderProfile {
    ProviderProfile {
        id: "provider".into(),
        name: "Provider".into(),
        base_url: "https://example.com/v1".into(),
        api_key: SecretString::default(),
        protocol: Protocol::Responses,
        compatibility: CompatibilityProfile::default(),
        models: vec![ModelConfig {
            id: "model".into(),
            model_id: "vendor/model".into(),
            display_name: None,
        }],
    }
}

fn selection(model_id: &str) -> ModelSelection {
    ModelSelection { profile_id: "provider".into(), model_id: model_id.into() }
}

#[test]
fn gateway_service_resolves_the_catalog_before_creating_a_handle() {
    let mut metrics = InMemoryMetrics::new(8);
    let catalog = ProviderCatalogSnapshot::new(vec![profile()]);
    assert_eq!(catalog.profiles().len(), 1);

    let request = GenerateRequest {
        conversation_id: "conversation".into(),
        turn_id: "turn".into(),
        ..Default::default()
    };
    let mut handle = must(prepare(&catalog, &selection("model"), request, 1, 0));
    let terminal = handle.cancel(5).expect("cancelled handle emits terminal");
    assert!(
        matches!(terminal, GenerationEvent::Finished(outcome) if outcome.status == OutcomeStatus::Cancelled)
    );
    for notice in handle.session.take_notices() {
        if let LifecycleNotice::Finish(outcome) = notice {
            metrics.on_finish(&outcome);
        }
    }
    assert_eq!(metrics.recent().len(), 1);
    assert_eq!(metrics.recent()[0].status, OutcomeStatus::Cancelled);
}

#[test]
fn gateway_service_rejects_selection_before_transport_is_used() {
    let catalog = ProviderCatalogSnapshot::new(vec![profile()]);
    assert!(prepare(&catalog, &selection("missing"), GenerateRequest::default(), 1, 0).is_err());
}

#[test]
fn requests_are_prepared_for_the_model_that_was_chosen() {
    let catalog = ProviderCatalogSnapshot::new(vec![profile()]);
    let generation =
        must(prepare(&catalog, &selection("model"), GenerateRequest::default(), 3, 0));
    assert_eq!(generation.request.url, "https://example.com/v1/responses");
    let body: serde_json::Value =
        serde_json::from_slice(&generation.request.body).expect("valid JSON");
    assert_eq!(body["model"], "vendor/model");
    assert_eq!(body["stream"], true);
    assert_eq!(generation.session.context().request_id, "nostra-3");
}

#[test]
fn generations_are_told_apart_by_their_request() {
    let first = RequestContext::new("p", "m", Protocol::Responses, 3, 0);
    let second = RequestContext::new("p", "m", Protocol::Responses, 30, 0);
    assert_eq!(first.request_id, "nostra-3");
    assert_eq!(second.request_id, "nostra-30");
    assert!(first.conversation_id.is_empty() && first.turn_id.is_empty());
}

#[test]
fn a_run_has_one_outcome_wherever_its_consumer_stops() {
    let frames = [
        r#"{"choices":[{"delta":{"content":"a"}}]}"#,
        r#"{"choices":[{"delta":{"content":"b"},"finish_reason":"stop"}]}"#,
        "[DONE]",
        r#"{"choices":[{"delta":{"content":"late"}}]}"#,
    ];
    for wanted in 1..12 {
        let mut generation = Generation {
            request: TransportRequest {
                url: "https://example.com/v1/stream".into(),
                api_key: SecretString::default(),
                body: Vec::new(),
            },
            session: GatewaySession::new(
                RequestContext::new("p", "m", Protocol::ChatCompletions, 1, 0),
                ProtocolSession::new(Protocol::ChatCompletions, CompatibilityProfile::default()),
            ),
        };
        let mut seen = Vec::new();
        let mut stopped = false;
        for frame in frames {
            for event in generation.handle(TransportEvent::SseData(frame.into()), 1) {
                if !stopped {
                    seen.push(event);
                    stopped = seen.len() == wanted;
                }
            }
            if stopped {
                break;
            }
        }
        seen.extend(generation.conclude(stopped, None, 2));
        let finishes = generation
            .session
            .take_notices()
            .iter()
            .filter(|notice| matches!(notice, LifecycleNotice::Finish(_)))
            .count();
        assert_eq!(finishes, 1);
        // Started, the block's start, its two pieces, its end and the outcome.
        assert_eq!(seen.len(), wanted.min(6));
        for (at, event) in seen.iter().enumerate() {
            assert_eq!(matches!(event, GenerationEvent::Finished(_)), at == 5);
        }
        assert!(generation.session.is_finished());
        assert!(generation.cancel(3).is_none());
    }
}
