//! The rules of a provider stream: bounded events, bounded error bodies, one careful retry.
//!
//! A request may be sent a second time only while nothing of the stream has reached its consumer.
//! [`StreamMachine`] decides; the caller connects, reads and waits.

use vstd::prelude::*;
use vstd::utf8::{decode_utf8, valid_utf8};

use crate::json::{parse_json, parsed_json, Json, JsonModel};
use crate::llm::config::SecretString;
use crate::llm::error::{
    allowed_token, allowlisted_provider_token, external_failure, http_failure, with_body,
    ErrorKind, GatewayError, GatewayErrorModel,
};
use crate::llm::sse::{drained, last_event, SseDecoder, DEFAULT_MAX_SSE_EVENT_BYTES};
use crate::text::{
    decimal_digits, decimal_notation_reads_back, is_blank, is_digit, is_white_space, joined,
    lossy_text, lossy_utf8, numbers_are_read_back, parse_number, parsed_number, text_of_bytes,
    trim, trim_back, trim_front, trimmed,
};

verus! {

broadcast use crate::deep::group_models;

/// How much of the body of an error response is kept.
pub const MAX_ERROR_BODY_BYTES: usize = 65536;

/// How long to wait before the second attempt, in milliseconds.
pub const DEFAULT_RETRY_DELAY_MILLIS: u64 = 250;

/// The longest wait that a provider can ask for, in seconds.
pub const MAX_RETRY_DELAY_SECONDS: u64 = 30;

/// A request to a provider.
#[derive(PartialEq)]
pub struct TransportRequest {
    pub url: String,
    pub api_key: SecretString,
    pub body: Vec<u8>,
}

/// What a [`TransportRequest`] stands for.
pub struct TransportRequestModel {
    pub url: Seq<char>,
    pub api_key: Seq<char>,
    pub body: Seq<u8>,
}

impl DeepView for TransportRequest {
    type V = TransportRequestModel;

    open spec fn deep_view(&self) -> TransportRequestModel {
        TransportRequestModel {
            url: self.url@,
            api_key: self.api_key.deep_view(),
            body: self.body@,
        }
    }
}

/// What a stream reports to its consumer. The consumer answers whether to go on.
#[derive(PartialEq)]
pub enum TransportEvent {
    Attempt(u32),
    UpstreamResponse(u16),
    SseData(String),
}

/// What a [`TransportEvent`] stands for.
pub enum TransportEventModel {
    Attempt(u32),
    UpstreamResponse(u16),
    SseData(Seq<char>),
}

impl DeepView for TransportEvent {
    type V = TransportEventModel;

    open spec fn deep_view(&self) -> TransportEventModel {
        match self {
            TransportEvent::Attempt(value) => TransportEventModel::Attempt(*value),
            TransportEvent::UpstreamResponse(value) => TransportEventModel::UpstreamResponse(*value),
            TransportEvent::SseData(value) => TransportEventModel::SseData(value@),
        }
    }
}

/// What a stream needs done next.
#[derive(PartialEq)]
pub enum StreamAction {
    /// Hand an event to the consumer.
    Deliver(TransportEvent),
    /// Send the request.
    Send,
    /// Read the body of an error response, up to [`MAX_ERROR_BODY_BYTES`].
    ReadError,
    /// Read more of the response.
    Read,
    /// Wait, for so many milliseconds.
    Wait(u64),
    /// Nothing: the stream is over.
    Succeed,
    /// Nothing: the stream has failed.
    Fail(GatewayError),
}

/// What a [`StreamAction`] stands for.
pub enum StreamActionModel {
    Deliver(TransportEventModel),
    Send,
    ReadError,
    Read,
    Wait(u64),
    Succeed,
    Fail(GatewayErrorModel),
}

impl DeepView for StreamAction {
    type V = StreamActionModel;

    open spec fn deep_view(&self) -> StreamActionModel {
        match self {
            StreamAction::Deliver(value) => StreamActionModel::Deliver(value.deep_view()),
            StreamAction::Send => StreamActionModel::Send,
            StreamAction::ReadError => StreamActionModel::ReadError,
            StreamAction::Read => StreamActionModel::Read,
            StreamAction::Wait(value) => StreamActionModel::Wait(*value),
            StreamAction::Succeed => StreamActionModel::Succeed,
            StreamAction::Fail(value) => StreamActionModel::Fail(value.deep_view()),
        }
    }
}

/// What came of an action.
#[derive(PartialEq)]
pub enum StreamInput {
    /// The consumer took the event, and wants to go on or not.
    Consumed(bool),
    /// No response came.
    SendFailed(GatewayError),
    /// A response came, with its status.
    Responded(u16),
    /// The body of an error response, and its `Retry-After` header.
    ErrorBody { retry_after: Option<String>, body: Vec<u8> },
    /// More of the response.
    Bytes(Vec<u8>),
    /// The response is over.
    End,
    /// The response broke off.
    ReadFailed,
    /// The wait is over.
    Waited,
}

/// What a [`StreamInput`] stands for.
pub enum StreamInputModel {
    Consumed(bool),
    SendFailed(GatewayErrorModel),
    Responded(u16),
    ErrorBody { retry_after: Option<Seq<char>>, body: Seq<u8> },
    Bytes(Seq<u8>),
    End,
    ReadFailed,
    Waited,
}

impl DeepView for StreamInput {
    type V = StreamInputModel;

    open spec fn deep_view(&self) -> StreamInputModel {
        match self {
            StreamInput::Consumed(value) => StreamInputModel::Consumed(*value),
            StreamInput::SendFailed(value) => StreamInputModel::SendFailed(value.deep_view()),
            StreamInput::Responded(value) => StreamInputModel::Responded(*value),
            StreamInput::ErrorBody { retry_after, body } => StreamInputModel::ErrorBody {
                retry_after: retry_after.deep_view(),
                body: body@,
            },
            StreamInput::Bytes(value) => StreamInputModel::Bytes(value@),
            StreamInput::End => StreamInputModel::End,
            StreamInput::ReadFailed => StreamInputModel::ReadFailed,
            StreamInput::Waited => StreamInputModel::Waited,
        }
    }
}

impl TransportRequest {
    /// The value of the `Authorization` header. Without a key there is none.
    pub fn authorization(&self) -> (header: Option<String>)
        ensures
            header.deep_view() == (if self.deep_view().api_key.len() == 0 {
                None
            } else {
                Some("Bearer "@ + self.deep_view().api_key)
            }),
    {
        if self.api_key.is_empty() {
            None
        } else {
            Some(joined("Bearer ", self.api_key.expose()))
        }
    }
}

/// The provider's code in the body of an error response, if it may be shown.
pub open spec fn error_code(body: Option<JsonModel>) -> Option<Seq<char>> {
    match body {
        Some(value) => {
            let code = match value.get2("error"@, "code"@) {
                Some(code) => Some(code),
                None => value.get("code"@),
            };
            match code {
                Some(code) => allowed_token(code.as_str()),
                None => None,
            }
        },
        None => None,
    }
}

/// What is kept of the body of an error response.
pub open spec fn captured_body(body: Seq<u8>) -> Seq<u8> {
    if body.len() > MAX_ERROR_BODY_BYTES {
        body.take(MAX_ERROR_BODY_BYTES as int)
    } else {
        body
    }
}

/// The JSON that bytes hold.
pub open spec fn parsed_bytes(bytes: Seq<u8>) -> Option<JsonModel> {
    if valid_utf8(bytes) {
        parsed_json(decode_utf8(bytes))
    } else {
        None
    }
}

/// The error that a response with an error status amounts to.
pub open spec fn http_error_of(status: u16, body: Seq<u8>) -> GatewayErrorModel {
    let captured = captured_body(body);
    with_body(
        http_failure(status, error_code(parsed_bytes(captured))),
        lossy_utf8(captured),
    )
}

/// The provider's code in the body of an error response, if it may be shown.
pub fn provider_code(body: &Option<Json>) -> (code: Option<String>)
    ensures
        code.deep_view() == error_code(body.deep_view()),
{
    match body {
        Some(value) => {
            let code = match value.get2("error", "code") {
                Some(code) => Some(code),
                None => value.get("code"),
            };
            match code {
                Some(code) => match code.as_str() {
                    Some(text) => allowlisted_provider_token(text),
                    None => None,
                },
                None => None,
            }
        },
        None => None,
    }
}

/// The error that a response with an error status amounts to. Its body is kept as text, whatever
/// it holds, up to a limit.
pub fn read_http_error(status: u16, body: Vec<u8>) -> (error: GatewayError)
    ensures
        error.deep_view() == http_error_of(status, body@),
{
    let ghost whole = body@;
    let mut body = body;
    body.truncate(MAX_ERROR_BODY_BYTES);
    proof {
        assert(body@ =~= captured_body(whole));
    }
    let value = match text_of_bytes(body.as_slice()) {
        Some(text) => parse_json(text.as_str()),
        None => None,
    };
    let code = provider_code(&value);
    GatewayError::http(status, code).with_upstream_body(lossy_text(body.as_slice()).as_str())
}

/// The wait, in milliseconds, that a `Retry-After` header asks for.
pub open spec fn asked_delay(header: Option<Seq<char>>) -> Option<u64> {
    match header {
        Some(text) => match parsed_number(trimmed(text)) {
            Some(seconds) => if seconds > MAX_RETRY_DELAY_SECONDS {
                Some((MAX_RETRY_DELAY_SECONDS * 1000) as u64)
            } else {
                Some((seconds * 1000) as u64)
            },
            None => None,
        },
        None => None,
    }
}

pub fn retry_delay(header: &Option<String>) -> (delay: Option<u64>)
    ensures
        delay == asked_delay(header.deep_view()),
{
    match header {
        Some(text) => match parse_number(trim(text.as_str()).as_str()) {
            Some(seconds) => {
                let bounded: u64 = if seconds > MAX_RETRY_DELAY_SECONDS {
                    MAX_RETRY_DELAY_SECONDS
                } else {
                    seconds
                };
                Some(bounded * 1000)
            },
            None => None,
        },
        None => None,
    }
}

/// A failure on the way to the provider. No upstream text belongs to it.
pub fn external_error(kind: ErrorKind, message: &str, status: Option<u16>, retryable: bool) -> (error:
    GatewayError)
    ensures
        error.deep_view() == external_failure(kind, message@, status, retryable),
{
    GatewayError::external(kind, message, status, retryable)
}

/// No response came from the provider.
pub open spec fn connection_failure() -> GatewayErrorModel {
    external_failure(
        ErrorKind::Transport,
        "Unable to connect to the provider."@,
        None,
        true,
    )
}

/// The error of a request that got no response.
pub fn connection_error() -> (error: GatewayError)
    ensures
        error.deep_view() == connection_failure(),
{
    external_error(ErrorKind::Transport, "Unable to connect to the provider.", None, true)
}

/// Where a stream stands, by what it waits for.
pub enum StreamPhase {
    Announcing,
    Sending,
    Accepting(u16),
    ReadingError(u16),
    Waiting,
    Reading,
    Delivering,
    Finishing,
    Over,
}

/// What a [`StreamMachine`] stands for.
pub struct StreamModel {
    pub attempt: u32,
    pub phase: StreamPhase,
    pub buffer: Seq<u8>,
    pub emitted: bool,
    pub frames: Seq<Seq<char>>,
}

/// A stream that has not begun.
pub open spec fn new_stream() -> StreamModel {
    StreamModel {
        attempt: 1,
        phase: StreamPhase::Announcing,
        buffer: Seq::empty(),
        emitted: false,
        frames: Seq::empty(),
    }
}

/// Whether an input is what the stream waits for.
pub open spec fn awaits(stream: StreamModel, input: StreamInputModel) -> bool {
    match (stream.phase, input) {
        (StreamPhase::Announcing, StreamInputModel::Consumed(_)) => true,
        (StreamPhase::Sending, StreamInputModel::SendFailed(_)) => true,
        (StreamPhase::Sending, StreamInputModel::Responded(_)) => true,
        (StreamPhase::Accepting(_), StreamInputModel::Consumed(_)) => true,
        (StreamPhase::ReadingError(_), StreamInputModel::ErrorBody { .. }) => true,
        (StreamPhase::Waiting, StreamInputModel::Waited) => true,
        (StreamPhase::Reading, StreamInputModel::Bytes(_)) => true,
        (StreamPhase::Reading, StreamInputModel::End) => true,
        (StreamPhase::Reading, StreamInputModel::ReadFailed) => true,
        (StreamPhase::Delivering, StreamInputModel::Consumed(_)) => true,
        (StreamPhase::Finishing, StreamInputModel::Consumed(_)) => true,
        _ => false,
    }
}

pub open spec fn over(stream: StreamModel, action: StreamActionModel) -> (
    StreamModel,
    StreamActionModel,
) {
    (StreamModel { phase: StreamPhase::Over, ..stream }, action)
}

pub open spec fn waiting(stream: StreamModel, delay: u64) -> (StreamModel, StreamActionModel) {
    (StreamModel { phase: StreamPhase::Waiting, ..stream }, StreamActionModel::Wait(delay))
}

/// Whether the request may be sent once more.
pub open spec fn may_retry(stream: StreamModel) -> bool {
    stream.attempt == 1 && !stream.emitted
}

/// Hands the next frame to the consumer, or goes on as `phase` says.
pub open spec fn deliver_next(stream: StreamModel, phase: StreamPhase) -> (
    StreamModel,
    StreamActionModel,
) {
    if stream.frames.len() == 0 {
        match phase {
            StreamPhase::Finishing => over(stream, StreamActionModel::Succeed),
            _ => (
                StreamModel { phase: StreamPhase::Reading, ..stream },
                StreamActionModel::Read,
            ),
        }
    } else {
        (
            StreamModel {
                phase,
                emitted: true,
                frames: stream.frames.drop_first(),
                ..stream
            },
            StreamActionModel::Deliver(TransportEventModel::SseData(stream.frames[0])),
        )
    }
}

/// The stream after an input, and what it needs done next.
pub open spec fn stream_step(stream: StreamModel, input: StreamInputModel) -> (
    StreamModel,
    StreamActionModel,
) {
    match (stream.phase, input) {
        (StreamPhase::Announcing, StreamInputModel::Consumed(go_on)) => if go_on {
            (StreamModel { phase: StreamPhase::Sending, ..stream }, StreamActionModel::Send)
        } else {
            over(stream, StreamActionModel::Succeed)
        },
        (StreamPhase::Sending, StreamInputModel::SendFailed(error)) => if stream.attempt == 1 {
            waiting(stream, DEFAULT_RETRY_DELAY_MILLIS)
        } else {
            over(stream, StreamActionModel::Fail(error))
        },
        (StreamPhase::Sending, StreamInputModel::Responded(status)) => (
            StreamModel { phase: StreamPhase::Accepting(status), ..stream },
            StreamActionModel::Deliver(TransportEventModel::UpstreamResponse(status)),
        ),
        (StreamPhase::Accepting(status), StreamInputModel::Consumed(go_on)) => if !go_on {
            over(stream, StreamActionModel::Succeed)
        } else if 200 <= status < 300 {
            (StreamModel { phase: StreamPhase::Reading, ..stream }, StreamActionModel::Read)
        } else {
            (
                StreamModel { phase: StreamPhase::ReadingError(status), ..stream },
                StreamActionModel::ReadError,
            )
        },
        (
            StreamPhase::ReadingError(status),
            StreamInputModel::ErrorBody { retry_after, body },
        ) => {
            let error = http_error_of(status, body);
            if stream.attempt == 1 && error.retryable {
                waiting(
                    stream,
                    match asked_delay(retry_after) {
                        Some(delay) => delay,
                        None => DEFAULT_RETRY_DELAY_MILLIS,
                    },
                )
            } else {
                over(stream, StreamActionModel::Fail(error))
            }
        },
        (StreamPhase::Waiting, StreamInputModel::Waited) => (
            StreamModel { attempt: 2, ..new_stream() },
            StreamActionModel::Deliver(TransportEventModel::Attempt(2)),
        ),
        (StreamPhase::Reading, StreamInputModel::Bytes(bytes)) => {
            let (buffer, result) = drained(
                stream.buffer + bytes,
                DEFAULT_MAX_SSE_EVENT_BYTES as nat,
                Seq::empty(),
            );
            let next = StreamModel { buffer, ..stream };
            match result {
                Ok(frames) => deliver_next(
                    StreamModel { frames, ..next },
                    StreamPhase::Delivering,
                ),
                Err(error) => over(next, StreamActionModel::Fail(error)),
            }
        },
        (StreamPhase::Reading, StreamInputModel::End) => if may_retry(stream) {
            waiting(stream, DEFAULT_RETRY_DELAY_MILLIS)
        } else {
            let next = StreamModel { buffer: Seq::empty(), ..stream };
            match last_event(stream.buffer) {
                Ok(frames) => deliver_next(StreamModel { frames, ..next }, StreamPhase::Finishing),
                Err(error) => over(next, StreamActionModel::Fail(error)),
            }
        },
        (StreamPhase::Reading, StreamInputModel::ReadFailed) => if may_retry(stream) {
            waiting(stream, DEFAULT_RETRY_DELAY_MILLIS)
        } else {
            over(
                stream,
                StreamActionModel::Fail(
                    external_failure(
                        ErrorKind::Transport,
                        "Provider stream was interrupted."@,
                        None,
                        true,
                    ),
                ),
            )
        },
        (StreamPhase::Delivering, StreamInputModel::Consumed(go_on)) => if go_on {
            deliver_next(stream, StreamPhase::Delivering)
        } else {
            over(stream, StreamActionModel::Succeed)
        },
        (StreamPhase::Finishing, StreamInputModel::Consumed(go_on)) => if go_on {
            deliver_next(stream, StreamPhase::Finishing)
        } else {
            over(stream, StreamActionModel::Succeed)
        },
        _ => over(stream, StreamActionModel::Succeed),
    }
}

/// Whether a stream has let data out and goes on with it, or is over.
pub open spec fn past_retrying(stream: StreamModel) -> bool {
    &&& stream.emitted
    &&& stream.phase is Reading || stream.phase is Delivering || stream.phase is Finishing
        || stream.phase is Over
}

/// Once a frame has reached the consumer, the request is never sent again: nothing leads to a wait
/// for another attempt, and the stream goes on with its data or is over.
pub proof fn no_retry_after_data(stream: StreamModel, input: StreamInputModel)
    requires
        awaits(stream, input),
        stream.emitted,
        stream.phase is Reading || stream.phase is Delivering || stream.phase is Finishing,
    ensures
        !(stream_step(stream, input).1 is Wait),
        !(stream_step(stream, input).1 is Send),
        stream_step(stream, input).0.emitted,
        stream_step(stream, input).0.attempt == stream.attempt,
        past_retrying(stream_step(stream, input).0),
{
}

/// A frame reaches the consumer only from a stream that counts it as delivered.
pub proof fn delivered_data_is_counted(stream: StreamModel, input: StreamInputModel)
    requires
        awaits(stream, input),
        stream_step(stream, input).1 is Deliver,
        stream_step(stream, input).1->Deliver_0 is SseData,
    ensures
        stream_step(stream, input).0.emitted,
        ({
            let phase = stream_step(stream, input).0.phase;
            phase is Delivering || phase is Finishing
        }),
{
}

/// There are at most two attempts: the second waits for no third.
pub proof fn there_are_at_most_two_attempts(stream: StreamModel, input: StreamInputModel)
    requires
        awaits(stream, input),
        stream.phase is Waiting ==> stream.attempt == 1,
        1 <= stream.attempt <= 2,
    ensures
        1 <= stream_step(stream, input).0.attempt <= 2,
        stream.attempt <= stream_step(stream, input).0.attempt,
        stream_step(stream, input).1 is Wait ==> stream.attempt == 1,
        stream_step(stream, input).0.phase is Waiting ==> stream_step(stream, input).0.attempt
            == 1,
{
}

/// A consumer that does not want to go on ends the stream at once, and without an error.
pub proof fn the_consumer_can_stop(stream: StreamModel)
    requires
        awaits(stream, StreamInputModel::Consumed(false)),
    ensures
        stream_step(stream, StreamInputModel::Consumed(false)).1 is Succeed,
        stream_step(stream, StreamInputModel::Consumed(false)).0.phase is Over,
{
}

/// A wait before the second attempt lasts half a minute at most.
pub proof fn waits_are_bounded(stream: StreamModel, input: StreamInputModel)
    requires
        awaits(stream, input),
        stream_step(stream, input).1 is Wait,
    ensures
        stream_step(stream, input).1->Wait_0 <= 30000,
{
}

/// What a stream asks for, input by input, from position `start` on. An input that it does not wait
/// for ends the list.
pub open spec fn stream_actions(
    stream: StreamModel,
    inputs: Seq<StreamInputModel>,
    start: int,
) -> Seq<StreamActionModel>
    decreases inputs.len() - start,
{
    if start < 0 || start >= inputs.len() || !awaits(stream, inputs[start]) {
        Seq::empty()
    } else {
        let (next, action) = stream_step(stream, inputs[start]);
        seq![action] + stream_actions(next, inputs, start + 1)
    }
}

/// Whether an action hands a frame to the consumer.
pub open spec fn delivers_data(action: StreamActionModel) -> bool {
    match action {
        StreamActionModel::Deliver(event) => event is SseData,
        _ => false,
    }
}

/// How often the request is sent.
pub open spec fn sends(actions: Seq<StreamActionModel>) -> nat
    decreases actions.len(),
{
    if actions.len() == 0 {
        0
    } else if actions[0] is Send {
        sends(actions.drop_first()) + 1
    } else {
        sends(actions.drop_first())
    }
}

proof fn lemma_nothing_is_sent_again(
    stream: StreamModel,
    inputs: Seq<StreamInputModel>,
    start: int,
)
    requires
        past_retrying(stream),
    ensures
        forall|k: int|
            #![trigger stream_actions(stream, inputs, start)[k]]
            0 <= k < stream_actions(stream, inputs, start).len() ==> !(stream_actions(
                stream,
                inputs,
                start,
            )[k] is Send) && !(stream_actions(stream, inputs, start)[k] is Wait),
    decreases inputs.len() - start,
{
    let actions = stream_actions(stream, inputs, start);
    if 0 <= start < inputs.len() && awaits(stream, inputs[start]) {
        let (next, action) = stream_step(stream, inputs[start]);
        no_retry_after_data(stream, inputs[start]);
        lemma_nothing_is_sent_again(next, inputs, start + 1);
        let rest = stream_actions(next, inputs, start + 1);
        assert forall|k: int| #![trigger actions[k]] 0 <= k < actions.len() implies !(
        actions[k] is Send) && !(actions[k] is Wait) by {
            if k > 0 {
                assert(actions[k] == rest[k - 1]);
            }
        }
    }
}

/// Over a whole stream, whatever happens to it: after a frame was handed to the consumer, the
/// request is never sent again, and nothing waits for another attempt.
pub proof fn nothing_is_sent_after_data(
    stream: StreamModel,
    inputs: Seq<StreamInputModel>,
    start: int,
)
    ensures
        forall|j: int, k: int|
            #![trigger stream_actions(stream, inputs, start)[j], stream_actions(stream, inputs, start)[k]]
            0 <= j < k < stream_actions(stream, inputs, start).len() && delivers_data(
                stream_actions(stream, inputs, start)[j],
            ) ==> !(stream_actions(stream, inputs, start)[k] is Send) && !(stream_actions(
                stream,
                inputs,
                start,
            )[k] is Wait),
    decreases inputs.len() - start,
{
    let actions = stream_actions(stream, inputs, start);
    if 0 <= start < inputs.len() && awaits(stream, inputs[start]) {
        let (next, action) = stream_step(stream, inputs[start]);
        let rest = stream_actions(next, inputs, start + 1);
        nothing_is_sent_after_data(next, inputs, start + 1);
        if delivers_data(action) {
            delivered_data_is_counted(stream, inputs[start]);
            lemma_nothing_is_sent_again(next, inputs, start + 1);
        }
        assert forall|j: int, k: int|
            #![trigger actions[j], actions[k]]
            0 <= j < k < actions.len() && delivers_data(actions[j]) implies !(
        actions[k] is Send) && !(actions[k] is Wait) by {
            assert(actions[k] == rest[k - 1]);
            if j > 0 {
                assert(actions[j] == rest[j - 1]);
            }
        }
    }
}

/// The sends that a stream has left: one for its attempt, until that was sent, and one for the
/// attempt after it.
spec fn sends_left(stream: StreamModel) -> nat {
    let later: nat = if stream.attempt >= 2 {
        0
    } else {
        1
    };
    if stream.phase is Announcing {
        later + 1
    } else if stream.phase is Over {
        0
    } else {
        later
    }
}

proof fn lemma_sends(stream: StreamModel, inputs: Seq<StreamInputModel>, start: int)
    requires
        stream.phase is Waiting ==> stream.attempt == 1,
        1 <= stream.attempt <= 2,
    ensures
        sends(stream_actions(stream, inputs, start)) <= sends_left(stream),
    decreases inputs.len() - start,
{
    if 0 <= start < inputs.len() && awaits(stream, inputs[start]) {
        let (next, action) = stream_step(stream, inputs[start]);
        there_are_at_most_two_attempts(stream, inputs[start]);
        lemma_sends(next, inputs, start + 1);
        let rest = stream_actions(next, inputs, start + 1);
        assert((seq![action] + rest).drop_first() =~= rest);
    }
}

/// Over a whole stream, whatever happens to it, the request is sent twice at most.
pub proof fn a_stream_sends_at_most_twice(inputs: Seq<StreamInputModel>)
    ensures
        sends(stream_actions(new_stream(), inputs, 0)) <= 2,
{
    lemma_sends(new_stream(), inputs, 0);
}

/// Decides what a stream needs done next.
pub struct StreamMachine {
    attempt: u32,
    phase: StreamPhase,
    decoder: SseDecoder,
    emitted: bool,
    frames: Vec<String>,
}

impl DeepView for StreamMachine {
    type V = StreamModel;

    closed spec fn deep_view(&self) -> StreamModel {
        StreamModel {
            attempt: self.attempt,
            phase: self.phase,
            buffer: self.decoder.buffer@,
            emitted: self.emitted,
            frames: self.frames.deep_view(),
        }
    }
}

impl StreamMachine {
    #[verifier::type_invariant]
    spec fn well_formed(self) -> bool {
        self.decoder.max_event_bytes == DEFAULT_MAX_SSE_EVENT_BYTES
    }

    fn fresh(attempt: u32) -> (machine: Self)
        ensures
            machine.deep_view() == (StreamModel { attempt, ..new_stream() }),
    {
        let machine = StreamMachine {
            attempt,
            phase: StreamPhase::Announcing,
            decoder: SseDecoder::new(DEFAULT_MAX_SSE_EVENT_BYTES),
            emitted: false,
            frames: Vec::new(),
        };
        proof {
            assert(machine.frames.deep_view() =~= Seq::<Seq<char>>::empty());
        }
        machine
    }

    /// A stream, and the announcement of its first attempt.
    pub fn start() -> (started: (Self, StreamAction))
        ensures
            started.0.deep_view() == new_stream(),
            started.1.deep_view() == StreamActionModel::Deliver(TransportEventModel::Attempt(1)),
    {
        (StreamMachine::fresh(1), StreamAction::Deliver(TransportEvent::Attempt(1)))
    }

    /// Whether an input is what the stream waits for.
    pub fn expects(&self, input: &StreamInput) -> (yes: bool)
        ensures
            yes == awaits(self.deep_view(), input.deep_view()),
    {
        match (&self.phase, input) {
            (StreamPhase::Announcing, StreamInput::Consumed(_)) => true,
            (StreamPhase::Sending, StreamInput::SendFailed(_)) => true,
            (StreamPhase::Sending, StreamInput::Responded(_)) => true,
            (StreamPhase::Accepting(_), StreamInput::Consumed(_)) => true,
            (StreamPhase::ReadingError(_), StreamInput::ErrorBody { .. }) => true,
            (StreamPhase::Waiting, StreamInput::Waited) => true,
            (StreamPhase::Reading, StreamInput::Bytes(_)) => true,
            (StreamPhase::Reading, StreamInput::End) => true,
            (StreamPhase::Reading, StreamInput::ReadFailed) => true,
            (StreamPhase::Delivering, StreamInput::Consumed(_)) => true,
            (StreamPhase::Finishing, StreamInput::Consumed(_)) => true,
            _ => false,
        }
    }

    fn with_phase(self, phase: StreamPhase) -> (machine: Self)
        ensures
            machine.deep_view() == (StreamModel { phase, ..self.deep_view() }),
    {
        proof {
            use_type_invariant(&self);
        }
        StreamMachine {
            attempt: self.attempt,
            phase,
            decoder: self.decoder,
            emitted: self.emitted,
            frames: self.frames,
        }
    }

    fn deliver(self, phase: StreamPhase) -> (next: (Self, StreamAction))
        ensures
            (next.0.deep_view(), next.1.deep_view()) == deliver_next(self.deep_view(), phase),
    {
        proof {
            use_type_invariant(&self);
        }
        if self.frames.len() == 0 {
            match phase {
                StreamPhase::Finishing => (
                    self.with_phase(StreamPhase::Over),
                    StreamAction::Succeed,
                ),
                _ => (self.with_phase(StreamPhase::Reading), StreamAction::Read),
            }
        } else {
            let ghost before = self.frames.deep_view();
            let mut frames = self.frames;
            let frame = frames.remove(0);
            proof {
                assert(frames.deep_view() =~= before.drop_first());
            }
            let machine = StreamMachine {
                attempt: self.attempt,
                phase,
                decoder: self.decoder,
                emitted: true,
                frames,
            };
            (machine, StreamAction::Deliver(TransportEvent::SseData(frame)))
        }
    }

    fn read(self, bytes: Vec<u8>) -> (next: (Self, StreamAction))
        requires
            self.deep_view().phase is Reading,
        ensures
            (next.0.deep_view(), next.1.deep_view()) == stream_step(
                self.deep_view(),
                StreamInputModel::Bytes(bytes@),
            ),
    {
        proof {
            use_type_invariant(&self);
        }
        let mut decoder = self.decoder;
        let result = decoder.push(bytes.as_slice());
        match result {
            Ok(frames) => {
                let machine = StreamMachine {
                    attempt: self.attempt,
                    phase: self.phase,
                    decoder,
                    emitted: self.emitted,
                    frames,
                };
                machine.deliver(StreamPhase::Delivering)
            },
            Err(error) => {
                let machine = StreamMachine {
                    attempt: self.attempt,
                    phase: StreamPhase::Over,
                    decoder,
                    emitted: self.emitted,
                    frames: self.frames,
                };
                (machine, StreamAction::Fail(error))
            },
        }
    }

    fn end(self) -> (next: (Self, StreamAction))
        requires
            self.deep_view().phase is Reading,
        ensures
            (next.0.deep_view(), next.1.deep_view()) == stream_step(
                self.deep_view(),
                StreamInputModel::End,
            ),
    {
        proof {
            use_type_invariant(&self);
        }
        if self.attempt == 1 && !self.emitted {
            return (
                self.with_phase(StreamPhase::Waiting),
                StreamAction::Wait(DEFAULT_RETRY_DELAY_MILLIS),
            );
        }
        let mut decoder = self.decoder;
        let result = decoder.finish();
        match result {
            Ok(frames) => {
                let machine = StreamMachine {
                    attempt: self.attempt,
                    phase: self.phase,
                    decoder,
                    emitted: self.emitted,
                    frames,
                };
                machine.deliver(StreamPhase::Finishing)
            },
            Err(error) => {
                let machine = StreamMachine {
                    attempt: self.attempt,
                    phase: StreamPhase::Over,
                    decoder,
                    emitted: self.emitted,
                    frames: self.frames,
                };
                (machine, StreamAction::Fail(error))
            },
        }
    }

    fn reject(self, status: u16, retry_after: Option<String>, body: Vec<u8>) -> (next: (
        Self,
        StreamAction,
    ))
        requires
            self.deep_view().phase == StreamPhase::ReadingError(status),
        ensures
            (next.0.deep_view(), next.1.deep_view()) == stream_step(
                self.deep_view(),
                StreamInputModel::ErrorBody { retry_after: retry_after.deep_view(), body: body@ },
            ),
    {
        let error = read_http_error(status, body);
        if self.attempt == 1 && (status == 429 || status >= 500) {
            let delay = match retry_delay(&retry_after) {
                Some(delay) => delay,
                None => DEFAULT_RETRY_DELAY_MILLIS,
            };
            (self.with_phase(StreamPhase::Waiting), StreamAction::Wait(delay))
        } else {
            (self.with_phase(StreamPhase::Over), StreamAction::Fail(error))
        }
    }

    /// Takes in what came of the last action, and says what to do next.
    pub fn step(self, input: StreamInput) -> (next: (Self, StreamAction))
        requires
            awaits(self.deep_view(), input.deep_view()),
        ensures
            (next.0.deep_view(), next.1.deep_view()) == stream_step(
                self.deep_view(),
                input.deep_view(),
            ),
    {
        match input {
            StreamInput::Consumed(go_on) => {
                if !go_on {
                    return (self.with_phase(StreamPhase::Over), StreamAction::Succeed);
                }
                match self.phase {
                    StreamPhase::Announcing => (
                        self.with_phase(StreamPhase::Sending),
                        StreamAction::Send,
                    ),
                    StreamPhase::Accepting(status) => if 200 <= status && status < 300 {
                        (self.with_phase(StreamPhase::Reading), StreamAction::Read)
                    } else {
                        (
                            self.with_phase(StreamPhase::ReadingError(status)),
                            StreamAction::ReadError,
                        )
                    },
                    StreamPhase::Finishing => self.deliver(StreamPhase::Finishing),
                    _ => self.deliver(StreamPhase::Delivering),
                }
            },
            StreamInput::SendFailed(error) => if self.attempt == 1 {
                (
                    self.with_phase(StreamPhase::Waiting),
                    StreamAction::Wait(DEFAULT_RETRY_DELAY_MILLIS),
                )
            } else {
                (self.with_phase(StreamPhase::Over), StreamAction::Fail(error))
            },
            StreamInput::Responded(status) => (
                self.with_phase(StreamPhase::Accepting(status)),
                StreamAction::Deliver(TransportEvent::UpstreamResponse(status)),
            ),
            StreamInput::ErrorBody { retry_after, body } => match self.phase {
                StreamPhase::ReadingError(status) => self.reject(status, retry_after, body),
                _ => (self.with_phase(StreamPhase::Over), StreamAction::Succeed),
            },
            StreamInput::Bytes(bytes) => self.read(bytes),
            StreamInput::End => self.end(),
            StreamInput::ReadFailed => if self.attempt == 1 && !self.emitted {
                (
                    self.with_phase(StreamPhase::Waiting),
                    StreamAction::Wait(DEFAULT_RETRY_DELAY_MILLIS),
                )
            } else {
                (
                    self.with_phase(StreamPhase::Over),
                    StreamAction::Fail(
                        external_error(
                            ErrorKind::Transport,
                            "Provider stream was interrupted.",
                            None,
                            true,
                        ),
                    ),
                )
            },
            StreamInput::Waited => (
                StreamMachine::fresh(2),
                StreamAction::Deliver(TransportEvent::Attempt(2)),
            ),
        }
    }
}

/// What is kept of an error response: its status, whether it may be tried again, the code that the
/// provider gave and the text of its first bytes.
pub proof fn error_responses_are_kept(status: u16, body: Seq<u8>)
    ensures
        ({
            let error = http_error_of(status, body);
            let kept = if body.len() > 65536 {
                body.take(65536)
            } else {
                body
            };
            &&& error.kind == ErrorKind::Http
            &&& error.status == Some(status)
            &&& error.retryable <==> status == 429 || status >= 500
            &&& error.upstream_body == if is_blank(lossy_utf8(kept)) {
                None
            } else {
                Some(lossy_utf8(kept))
            }
            &&& !valid_utf8(kept) ==> error.provider_code is None
            &&& valid_utf8(kept) ==> error.provider_code == error_code(
                parsed_json(decode_utf8(kept)),
            )
        }),
{
}

/// The code of an error stands under `error`, or else at the top, and is a plain word.
pub proof fn error_codes_are_found(value: JsonModel, code: Seq<char>)
    requires
        0 < code.len() <= 64,
        forall|i: int| 0 <= i < code.len() ==> 'a' <= #[trigger] code[i] <= 'z' || code[i] == '_',
    ensures
        value.get2("error"@, "code"@) == Some(JsonModel::Str(code)) ==> error_code(Some(value))
            == Some(code),
        value.get2("error"@, "code"@) is None && value.get("code"@) == Some(JsonModel::Str(code))
            ==> error_code(Some(value)) == Some(code),
        value.get2("error"@, "code"@) is None && value.get("code"@) is None ==> error_code(
            Some(value),
        ) is None,
        error_code(None) is None,
{
}

/// A wait that the provider asks for is waited, up to half a minute, white space around the number
/// aside.
pub proof fn asked_waits_are_waited(seconds: u64, before: Seq<char>, after: Seq<char>)
    requires
        is_blank(before),
        is_blank(after),
    ensures
        asked_delay(Some(before + decimal_digits(seconds as nat) + after)) == Some(
            if seconds > 30 {
                30000u64
            } else {
                (seconds * 1000) as u64
            },
        ),
        asked_delay(None) is None,
{
    let digits = decimal_digits(seconds as nat);
    numbers_are_read_back(seconds);
    decimal_notation_reads_back(seconds as nat);
    assert(is_digit(digits[0]) && is_digit(digits.last()));
    lemma_trimmed_between(before, digits, after);
}

proof fn lemma_trimmed_between(before: Seq<char>, text: Seq<char>, after: Seq<char>)
    requires
        is_blank(before),
        is_blank(after),
        text.len() > 0,
        !is_white_space(text[0]),
        !is_white_space(text.last()),
    ensures
        trimmed(before + text + after) == text,
{
    lemma_front_gone(before, text + after);
    assert(before + text + after =~= before + (text + after));
    lemma_back_gone(text, after);
}

proof fn lemma_front_gone(before: Seq<char>, text: Seq<char>)
    requires
        is_blank(before),
        text.len() > 0,
        !is_white_space(text[0]),
    ensures
        trim_front(before + text) == text,
    decreases before.len(),
{
    if before.len() == 0 {
        assert(before + text =~= text);
    } else {
        assert((before + text).drop_first() =~= before.drop_first() + text);
        assert(is_white_space(before[0]));
        lemma_front_gone(before.drop_first(), text);
    }
}

proof fn lemma_back_gone(text: Seq<char>, after: Seq<char>)
    requires
        is_blank(after),
        text.len() > 0,
        !is_white_space(text.last()),
    ensures
        trim_back(text + after) == text,
    decreases after.len(),
{
    if after.len() == 0 {
        assert(text + after =~= text);
    } else {
        assert((text + after).drop_last() =~= text + after.drop_last());
        assert((text + after).last() == after.last() && is_white_space(after.last()));
        lemma_back_gone(text, after.drop_last());
    }
}

/// A response is told to the consumer before it is read. A good one is read as a stream, another
/// one as an error.
pub proof fn responses_are_read_by_their_status(stream: StreamModel, status: u16)
    requires
        stream.phase is Sending,
    ensures
        ({
            let (told, action) = stream_step(stream, StreamInputModel::Responded(status));
            let (next, then) = stream_step(told, StreamInputModel::Consumed(true));
            &&& action == StreamActionModel::Deliver(TransportEventModel::UpstreamResponse(status))
            &&& then is Read <==> 200 <= status <= 299
            &&& then is ReadError <==> !(200 <= status <= 299)
            &&& next.attempt == stream.attempt && next.buffer == stream.buffer
        }),
{
}

/// A first attempt without a response is followed by a second one, a quarter of a second later. A
/// second one fails with its error.
pub proof fn lost_requests_are_sent_again(stream: StreamModel, error: GatewayErrorModel)
    requires
        stream.phase is Sending,
    ensures
        stream.attempt == 1 ==> stream_step(stream, StreamInputModel::SendFailed(error)).1
            == StreamActionModel::Wait(250),
        stream.attempt != 1 ==> stream_step(stream, StreamInputModel::SendFailed(error)).1
            == StreamActionModel::Fail(error),
{
}

/// A first attempt that is refused for the time being is followed by a second one, after the wait
/// that the provider asked for. Any other refusal is the end, with its error.
pub proof fn refused_requests_are_sent_again(
    stream: StreamModel,
    status: u16,
    retry_after: Option<Seq<char>>,
    body: Seq<u8>,
)
    requires
        stream.phase == StreamPhase::ReadingError(status),
    ensures
        ({
            let (next, action) = stream_step(
                stream,
                StreamInputModel::ErrorBody { retry_after, body },
            );
            if stream.attempt == 1 && (status == 429 || status >= 500) {
                &&& next.phase is Waiting
                &&& action == StreamActionModel::Wait(
                    if asked_delay(retry_after) is Some {
                        asked_delay(retry_after)->0
                    } else {
                        250
                    },
                )
            } else {
                &&& next.phase is Over
                &&& action == StreamActionModel::Fail(http_error_of(status, body))
            }
        }),
{
}

/// The second attempt starts anew, and says that it is the second.
pub proof fn second_attempts_start_anew(stream: StreamModel)
    requires
        stream.phase is Waiting,
    ensures
        ({
            let (next, action) = stream_step(stream, StreamInputModel::Waited);
            &&& action == StreamActionModel::Deliver(TransportEventModel::Attempt(2))
            &&& next.attempt == 2
            &&& next.buffer.len() == 0 && next.frames.len() == 0 && !next.emitted
            &&& stream_step(next, StreamInputModel::Consumed(true)).1 is Send
        }),
{
}

/// The events of a stream are delivered one by one, in their order; when none is left the stream
/// is read on, or, at its end, is over.
pub proof fn events_are_delivered_in_order(stream: StreamModel, bytes: Seq<u8>)
    ensures
        stream.phase is Delivering && stream.frames.len() > 0 ==> {
            let (next, action) = stream_step(stream, StreamInputModel::Consumed(true));
            &&& action == StreamActionModel::Deliver(
                TransportEventModel::SseData(stream.frames[0]),
            )
            &&& next.frames == stream.frames.skip(1)
            &&& next.phase is Delivering && next.buffer == stream.buffer
        },
        stream.phase is Delivering && stream.frames.len() == 0 ==> stream_step(
            stream,
            StreamInputModel::Consumed(true),
        ).1 is Read,
        stream.phase is Finishing && stream.frames.len() > 0 ==> stream_step(
            stream,
            StreamInputModel::Consumed(true),
        ).1 == StreamActionModel::Deliver(TransportEventModel::SseData(stream.frames[0])),
        stream.phase is Finishing && stream.frames.len() == 0 ==> stream_step(
            stream,
            StreamInputModel::Consumed(true),
        ).1 is Succeed,
        stream.phase is Reading ==> {
            let (next, action) = stream_step(stream, StreamInputModel::Bytes(bytes));
            match drained(stream.buffer + bytes, 1048576, Seq::empty()).1 {
                Err(error) => action == StreamActionModel::Fail(error) && next.phase is Over,
                Ok(frames) => {
                    &&& next.buffer == drained(stream.buffer + bytes, 1048576, Seq::empty()).0
                    &&& frames.len() == 0 ==> action is Read
                    &&& frames.len() > 0 ==> action == StreamActionModel::Deliver(
                        TransportEventModel::SseData(frames[0]),
                    ) && next.frames == frames.skip(1) && next.emitted
                },
            }
        },
{
    assert(stream.frames.len() > 0 ==> stream.frames.skip(1) =~= stream.frames.drop_first());
    match drained(stream.buffer + bytes, 1048576, Seq::empty()).1 {
        Ok(frames) => {
            assert(frames.len() > 0 ==> frames.skip(1) =~= frames.drop_first());
        },
        Err(_) => {},
    }
}

/// A stream that ends or breaks off before any of it was delivered is asked for once more. Later,
/// the end delivers what is left, and a break is an error that may be tried again.
pub proof fn broken_streams_are_asked_for_again(stream: StreamModel)
    requires
        stream.phase is Reading,
    ensures
        stream.attempt == 1 && !stream.emitted ==> {
            &&& stream_step(stream, StreamInputModel::End).1 == StreamActionModel::Wait(250)
            &&& stream_step(stream, StreamInputModel::ReadFailed).1 == StreamActionModel::Wait(250)
        },
        stream.attempt != 1 || stream.emitted ==> {
            &&& match stream_step(stream, StreamInputModel::ReadFailed).1 {
                StreamActionModel::Fail(error) => error.kind == ErrorKind::Transport
                    && error.retryable,
                _ => false,
            }
            &&& match (last_event(stream.buffer), stream_step(stream, StreamInputModel::End).1) {
                (Err(error), action) => action == StreamActionModel::Fail(error),
                (Ok(frames), action) => if frames.len() == 0 {
                    action is Succeed
                } else {
                    action == StreamActionModel::Deliver(TransportEventModel::SseData(frames[0]))
                },
            }
        },
{
}

} // verus!
