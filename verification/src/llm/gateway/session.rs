//! The session of one generation, from its first frame to its one terminal outcome.
//!
//! The caller owns the clock and the observers: it passes the time in, and hands the notices that
//! the session collects on to whoever observes the generation.

use vstd::prelude::*;

use crate::llm::error::{attributed_to, GatewayError, GatewayErrorModel};
use crate::llm::event::{
    FinishReason, FinishReasonModel, GenerationEvent, GenerationEventModel, GenerationOutcome,
    GenerationOutcomeModel, IndexedMessageModel, OutcomeStatus,
};
use crate::llm::gateway::assembler::{
    assembled_message, contributes_nothing, error_of, observed, Blocks, MessageAssembler,
};
use crate::llm::model::{no_usage, ProviderMetadata, ProviderMetadataModel, Usage};
use crate::llm::protocol;
use crate::llm::protocol::{
    result_model, Protocol, ProtocolModel, ProtocolSession, ProtocolTerminal,
    ProtocolTerminalModel, ProtocolTerminalStatus, ProtocolUpdate, ProtocolUpdateModel,
};
use crate::text::{decimal, decimal_digits, decimal_notation_reads_back, joined};

verus! {

broadcast use crate::deep::group_models;

/// What identifies a generation. `started_at` is in nanoseconds, on the clock of the caller.
#[derive(Debug, PartialEq)]
pub struct RequestContext {
    pub request_id: String,
    pub conversation_id: String,
    pub turn_id: String,
    pub profile_id: String,
    pub model_id: String,
    pub protocol: Protocol,
    pub attempt: u32,
    pub started_at: u64,
}

/// What a [`RequestContext`] stands for.
pub struct RequestContextModel {
    pub request_id: Seq<char>,
    pub conversation_id: Seq<char>,
    pub turn_id: Seq<char>,
    pub profile_id: Seq<char>,
    pub model_id: Seq<char>,
    pub protocol: Protocol,
    pub attempt: u32,
    pub started_at: u64,
}

impl DeepView for RequestContext {
    type V = RequestContextModel;

    open spec fn deep_view(&self) -> RequestContextModel {
        RequestContextModel {
            request_id: self.request_id@,
            conversation_id: self.conversation_id@,
            turn_id: self.turn_id@,
            profile_id: self.profile_id@,
            model_id: self.model_id@,
            protocol: self.protocol,
            attempt: self.attempt,
            started_at: self.started_at,
        }
    }
}

impl Clone for RequestContext {
    fn clone(&self) -> (copy: Self)
        ensures
            copy.deep_view() == self.deep_view(),
    {
        RequestContext {
            request_id: self.request_id.clone(),
            conversation_id: self.conversation_id.clone(),
            turn_id: self.turn_id.clone(),
            profile_id: self.profile_id.clone(),
            model_id: self.model_id.clone(),
            protocol: self.protocol,
            attempt: self.attempt,
            started_at: self.started_at,
        }
    }
}

/// What observers of a generation are to be told.
#[derive(PartialEq)]
pub enum LifecycleNotice {
    Start,
    UpstreamResponse(u16),
    Event(GenerationEvent),
    Finish(Box<GenerationOutcome>),
}

/// What a [`LifecycleNotice`] stands for.
pub enum LifecycleNoticeModel {
    Start,
    UpstreamResponse(u16),
    Event(GenerationEventModel),
    Finish(GenerationOutcomeModel),
}

impl DeepView for LifecycleNotice {
    type V = LifecycleNoticeModel;

    open spec fn deep_view(&self) -> LifecycleNoticeModel {
        match self {
            LifecycleNotice::Start => LifecycleNoticeModel::Start,
            LifecycleNotice::UpstreamResponse(value) => LifecycleNoticeModel::UpstreamResponse(*value),
            LifecycleNotice::Event(value) => LifecycleNoticeModel::Event(value.deep_view()),
            LifecycleNotice::Finish(value) => LifecycleNoticeModel::Finish(value.deep_view()),
        }
    }
}

/// The request identifier of the generation with the sequence number.
pub open spec fn request_id_of(sequence: u64) -> Seq<char> {
    "nostra-"@ + decimal_digits(sequence as nat)
}

/// The context of the generation with the sequence number.
pub open spec fn new_context(
    profile_id: Seq<char>,
    model_id: Seq<char>,
    protocol: Protocol,
    conversation_id: Seq<char>,
    turn_id: Seq<char>,
    sequence: u64,
    started_at: u64,
) -> RequestContextModel {
    RequestContextModel {
        request_id: request_id_of(sequence),
        conversation_id,
        turn_id,
        profile_id,
        model_id,
        protocol,
        attempt: 1,
        started_at,
    }
}

/// Different sequence numbers give different request identifiers. Each begins with `nostra-`.
pub proof fn request_ids_differ(first: u64, second: u64)
    requires
        first != second,
    ensures
        request_id_of(first) != request_id_of(second),
        "nostra-"@.is_prefix_of(request_id_of(first)),
        "nostra-"@.is_prefix_of(request_id_of(second)),
{
    let prefix = "nostra-"@;
    let n = prefix.len() as int;
    let left = decimal_digits(first as nat);
    let right = decimal_digits(second as nat);
    decimal_notation_reads_back(first as nat);
    decimal_notation_reads_back(second as nat);
    assert((prefix + left).skip(n) =~= left);
    assert((prefix + right).skip(n) =~= right);
    assert((prefix + left).take(n) =~= prefix);
    assert((prefix + right).take(n) =~= prefix);
}

/// Two generations that belong to no conversation are told apart by their request identifiers,
/// even where everything else about them is the same.
pub proof fn contexts_are_told_apart(
    profile_id: Seq<char>,
    model_id: Seq<char>,
    protocol: Protocol,
    started_at: u64,
    first: u64,
    other_profile_id: Seq<char>,
    other_model_id: Seq<char>,
    other_protocol: Protocol,
    other_started_at: u64,
    second: u64,
)
    requires
        first != second,
    ensures
        ({
            let none = Seq::<char>::empty();
            let a = new_context(profile_id, model_id, protocol, none, none, first, started_at);
            let b = new_context(
                other_profile_id,
                other_model_id,
                other_protocol,
                none,
                none,
                second,
                other_started_at,
            );
            &&& a.request_id != b.request_id
            &&& "nostra-"@.is_prefix_of(a.request_id)
            &&& "nostra-"@.is_prefix_of(b.request_id)
            &&& a.conversation_id == none && a.turn_id == none
            &&& a.profile_id == profile_id && a.model_id == model_id && a.protocol == protocol
            &&& a.attempt == 1
        }),
{
    request_ids_differ(first, second);
}

impl RequestContext {
    /// The context of a generation that belongs to no conversation. The caller counts the
    /// generations with `sequence`.
    pub fn new(
        profile_id: &str,
        model_id: &str,
        protocol: Protocol,
        sequence: u64,
        started_at: u64,
    ) -> (context: Self)
        ensures
            context.deep_view() == new_context(
                profile_id@,
                model_id@,
                protocol,
                Seq::empty(),
                Seq::empty(),
                sequence,
                started_at,
            ),
    {
        let empty = String::new();
        RequestContext::with_correlation(
            profile_id,
            model_id,
            protocol,
            empty.as_str(),
            empty.as_str(),
            sequence,
            started_at,
        )
    }

    /// The context of a generation that belongs to a turn of a conversation.
    pub fn with_correlation(
        profile_id: &str,
        model_id: &str,
        protocol: Protocol,
        conversation_id: &str,
        turn_id: &str,
        sequence: u64,
        started_at: u64,
    ) -> (context: Self)
        ensures
            context.deep_view() == new_context(
                profile_id@,
                model_id@,
                protocol,
                conversation_id@,
                turn_id@,
                sequence,
                started_at,
            ),
    {
        RequestContext {
            request_id: joined("nostra-", decimal(sequence).as_str()),
            conversation_id: conversation_id.to_owned(),
            turn_id: turn_id.to_owned(),
            profile_id: profile_id.to_owned(),
            model_id: model_id.to_owned(),
            protocol,
            attempt: 1,
            started_at,
        }
    }
}

/// What a [`GatewaySession`] stands for.
pub struct SessionModel {
    pub context: RequestContextModel,
    pub protocol: ProtocolModel,
    pub assembler: Blocks,
    pub first_event_at: Option<u64>,
    pub latest_usage: Usage,
    pub finished: bool,
    pub notices: Seq<LifecycleNoticeModel>,
}

/// What an outcome says beyond its session.
pub struct DetailsModel {
    pub finish_reason: Option<FinishReasonModel>,
    pub usage: Usage,
    pub response_id: Option<Seq<char>>,
    pub upstream_model: Option<Seq<char>>,
    pub provider_metadata: Option<ProviderMetadataModel>,
    pub error: Option<GatewayErrorModel>,
}

/// The session before its stream begins.
pub open spec fn new_session(context: RequestContextModel, protocol: ProtocolModel) -> SessionModel {
    SessionModel {
        context,
        protocol,
        assembler: Seq::empty(),
        first_event_at: None,
        latest_usage: no_usage(),
        finished: false,
        notices: seq![LifecycleNoticeModel::Start],
    }
}

/// The time from `start` to `end`; none where the clock went back.
pub open spec fn elapsed(start: u64, end: u64) -> u64 {
    if end >= start {
        (end - start) as u64
    } else {
        0
    }
}

/// The message of an outcome: what was assembled, unless that is nothing.
pub open spec fn outcome_message(
    session: SessionModel,
    metadata: Option<ProviderMetadataModel>,
) -> Option<IndexedMessageModel> {
    if contributes_nothing(session.assembler) {
        None
    } else {
        let message = assembled_message(session.assembler);
        match metadata {
            Some(provider_metadata) => Some(
                IndexedMessageModel { provider_metadata, ..message },
            ),
            None => Some(message),
        }
    }
}

/// The outcome of a session at the time `now`.
pub open spec fn outcome_of(
    session: SessionModel,
    status: OutcomeStatus,
    details: DetailsModel,
    now: u64,
) -> GenerationOutcomeModel {
    GenerationOutcomeModel {
        request_id: session.context.request_id,
        profile_id: session.context.profile_id,
        model_id: session.context.model_id,
        protocol: session.context.protocol,
        status,
        finish_reason: details.finish_reason,
        usage: details.usage,
        response_id: details.response_id,
        upstream_model: details.upstream_model,
        time_to_first_event: match session.first_event_at {
            Some(first) => Some(elapsed(session.context.started_at, first)),
            None => None,
        },
        latency: elapsed(session.context.started_at, now),
        message: outcome_message(session, details.provider_metadata),
        error: details.error,
    }
}

/// Ends a session. Its observers and its caller get the same outcome.
pub open spec fn finish(session: SessionModel, outcome: GenerationOutcomeModel) -> (
    SessionModel,
    GenerationEventModel,
) {
    (
        SessionModel {
            finished: true,
            notices: session.notices.push(LifecycleNoticeModel::Finish(outcome)),
            ..session
        },
        GenerationEventModel::Finished(outcome),
    )
}

/// Ends a session with an error.
pub open spec fn fail(session: SessionModel, error: GatewayErrorModel, now: u64) -> (
    SessionModel,
    GenerationEventModel,
) {
    finish(
        session,
        outcome_of(
            session,
            OutcomeStatus::Failed,
            DetailsModel {
                finish_reason: None,
                usage: session.latest_usage,
                response_id: None,
                upstream_model: None,
                provider_metadata: None,
                error: Some(
                    attributed_to(
                        error,
                        session.context.request_id,
                        session.first_event_at.is_some(),
                    ),
                ),
            },
            now,
        ),
    )
}

/// Ends a session that nobody wants any more.
pub open spec fn cancel(session: SessionModel, now: u64) -> (
    SessionModel,
    Option<GenerationEventModel>,
) {
    if session.finished {
        (session, None)
    } else {
        let (next, event) = finish(
            session,
            outcome_of(
                session,
                OutcomeStatus::Cancelled,
                DetailsModel {
                    finish_reason: None,
                    usage: session.latest_usage,
                    response_id: None,
                    upstream_model: None,
                    provider_metadata: None,
                    error: None,
                },
                now,
            ),
        );
        (next, Some(event))
    }
}

/// Ends a session as its provider ended the stream.
pub open spec fn conclude(session: SessionModel, terminal: ProtocolTerminalModel, now: u64) -> (
    SessionModel,
    GenerationEventModel,
) {
    let failed = terminal.status == ProtocolTerminalStatus::Failed;
    finish(
        session,
        outcome_of(
            session,
            if failed {
                OutcomeStatus::Failed
            } else {
                OutcomeStatus::Completed
            },
            DetailsModel {
                finish_reason: Some(terminal.finish_reason),
                usage: terminal.usage,
                response_id: terminal.response_id,
                upstream_model: terminal.upstream_model,
                provider_metadata: Some(terminal.provider_metadata),
                error: if failed {
                    match terminal.error {
                        Some(error) => Some(
                            attributed_to(
                                error,
                                session.context.request_id,
                                session.first_event_at.is_some(),
                            ),
                        ),
                        None => None,
                    }
                } else {
                    None
                },
            },
            now,
        ),
    )
}

/// Takes the events from position `start` on into the session, up to one that does not fit.
pub open spec fn observe_events(
    session: SessionModel,
    events: Seq<GenerationEventModel>,
    start: int,
) -> (SessionModel, Option<GatewayErrorModel>)
    decreases events.len() - start,
{
    if start < 0 || start >= events.len() {
        (session, None)
    } else {
        let (blocks, error) = observed(session.assembler, events[start]);
        let next = SessionModel {
            assembler: blocks,
            latest_usage: match events[start] {
                GenerationEventModel::UsageUpdated(usage) => usage,
                _ => session.latest_usage,
            },
            ..session
        };
        match error {
            Some(error) => (next, Some(error)),
            None => observe_events(
                SessionModel {
                    notices: next.notices.push(LifecycleNoticeModel::Event(events[start])),
                    ..next
                },
                events,
                start + 1,
            ),
        }
    }
}

/// The session with the time of its first event.
pub open spec fn with_first_event(session: SessionModel, any: bool, now: u64) -> SessionModel {
    if any && session.first_event_at.is_none() {
        SessionModel { first_event_at: Some(now), ..session }
    } else {
        session
    }
}

/// What a session makes of the update that its protocol read from a frame.
#[verifier::opaque]
pub open spec fn update_applied(
    session: SessionModel,
    result: Result<ProtocolUpdateModel, GatewayErrorModel>,
    now: u64,
) -> (SessionModel, Seq<GenerationEventModel>) {
    match result {
        Err(error) => {
            let (next, event) = fail(session, error, now);
            (next, seq![event])
        },
        Ok(update) => {
            let timed = with_first_event(session, update.events.len() > 0, now);
            let (seen, error) = observe_events(timed, update.events, 0);
            match error {
                Some(error) => {
                    let (next, event) = fail(seen, error, now);
                    (next, seq![event])
                },
                None => match update.terminal {
                    Some(terminal) => {
                        let (next, event) = conclude(seen, terminal, now);
                        (next, update.events.push(event))
                    },
                    None => (seen, update.events),
                },
            }
        },
    }
}

/// What a session makes of a frame. After its end it ignores frames.
pub open spec fn frame_ingested(session: SessionModel, data: Seq<char>, now: u64) -> (
    SessionModel,
    Seq<GenerationEventModel>,
) {
    if session.finished {
        (session, Seq::empty())
    } else {
        let (next, result) = protocol::ingested(session.protocol, data);
        update_applied(SessionModel { protocol: next, ..session }, result, now)
    }
}

/// What a session makes of what its protocol says at the end of the stream.
pub open spec fn end_applied(
    session: SessionModel,
    result: Result<Option<ProtocolTerminalModel>, GatewayErrorModel>,
    now: u64,
) -> (SessionModel, Option<GenerationEventModel>) {
    match result {
        Ok(Some(terminal)) => {
            let (next, event) = conclude(session, terminal, now);
            (next, Some(event))
        },
        Ok(None) => (session, None),
        Err(error) => {
            let (next, event) = fail(session, error, now);
            (next, Some(event))
        },
    }
}

/// What a session makes of the end of its stream.
pub open spec fn stream_ended(session: SessionModel, now: u64) -> (
    SessionModel,
    Option<GenerationEventModel>,
) {
    if session.finished {
        (session, None)
    } else {
        let (next, result) = protocol::ended(session.protocol);
        end_applied(SessionModel { protocol: next, ..session }, result, now)
    }
}

/// What a session makes of an error of the transport.
pub open spec fn failed_with(session: SessionModel, error: GatewayErrorModel, now: u64) -> (
    SessionModel,
    Option<GenerationEventModel>,
) {
    if session.finished {
        (session, None)
    } else {
        let (next, event) = fail(session, error, now);
        (next, Some(event))
    }
}

/// The session of one generation.
pub struct GatewaySession {
    context: RequestContext,
    protocol: ProtocolSession,
    assembler: MessageAssembler,
    first_event_at: Option<u64>,
    latest_usage: Usage,
    finished: bool,
    notices: Vec<LifecycleNotice>,
}

impl DeepView for GatewaySession {
    type V = SessionModel;

    closed spec fn deep_view(&self) -> SessionModel {
        SessionModel {
            context: self.context.deep_view(),
            protocol: self.protocol.deep_view(),
            assembler: self.assembler.deep_view(),
            first_event_at: self.first_event_at,
            latest_usage: self.latest_usage,
            finished: self.finished,
            notices: self.notices.deep_view(),
        }
    }
}

/// What an outcome says beyond its session.
struct OutcomeDetails {
    finish_reason: Option<FinishReason>,
    usage: Usage,
    response_id: Option<String>,
    upstream_model: Option<String>,
    provider_metadata: Option<ProviderMetadata>,
    error: Option<GatewayError>,
}

impl DeepView for OutcomeDetails {
    type V = DetailsModel;

    closed spec fn deep_view(&self) -> DetailsModel {
        DetailsModel {
            finish_reason: self.finish_reason.deep_view(),
            usage: self.usage,
            response_id: self.response_id.deep_view(),
            upstream_model: self.upstream_model.deep_view(),
            provider_metadata: self.provider_metadata.deep_view(),
            error: self.error.deep_view(),
        }
    }
}

impl OutcomeDetails {
    fn bare(usage: Usage, error: Option<GatewayError>) -> (details: Self)
        ensures
            details.deep_view() == (DetailsModel {
                finish_reason: None,
                usage,
                response_id: None,
                upstream_model: None,
                provider_metadata: None,
                error: error.deep_view(),
            }),
    {
        OutcomeDetails {
            finish_reason: None,
            usage,
            response_id: None,
            upstream_model: None,
            provider_metadata: None,
            error,
        }
    }
}

impl GatewaySession {
    pub fn new(context: RequestContext, protocol: ProtocolSession) -> (session: Self)
        ensures
            session.deep_view() == new_session(context.deep_view(), protocol.deep_view()),
    {
        let mut notices: Vec<LifecycleNotice> = Vec::new();
        notices.push(LifecycleNotice::Start);
        let session = GatewaySession {
            context,
            protocol,
            assembler: MessageAssembler::new(),
            first_event_at: None,
            latest_usage: Usage::default(),
            finished: false,
            notices,
        };
        proof {
            assert(session.deep_view().notices =~= seq![LifecycleNoticeModel::Start]);
        }
        session
    }

    pub fn context(&self) -> (context: &RequestContext)
        ensures
            context.deep_view() == self.deep_view().context,
    {
        &self.context
    }

    /// The notices since the last call, for the observers of the generation.
    pub fn take_notices(&mut self) -> (notices: Vec<LifecycleNotice>)
        ensures
            notices.deep_view() == old(self).deep_view().notices,
            final(self).deep_view() == (SessionModel {
                notices: Seq::empty(),
                ..old(self).deep_view()
            }),
    {
        let mut notices: Vec<LifecycleNotice> = Vec::new();
        std::mem::swap(&mut notices, &mut self.notices);
        notices
    }

    pub fn is_finished(&self) -> (finished: bool)
        ensures
            finished == self.deep_view().finished,
    {
        self.finished
    }

    /// Notes the status of a response.
    pub fn observe_upstream_response(&mut self, status: u16)
        ensures
            final(self).deep_view() == (SessionModel {
                notices: old(self).deep_view().notices.push(
                    LifecycleNoticeModel::UpstreamResponse(status),
                ),
                ..old(self).deep_view()
            }),
    {
        self.notices.push(LifecycleNotice::UpstreamResponse(status));
    }

    pub fn set_attempt(&mut self, attempt: u32)
        ensures
            final(self).deep_view() == (SessionModel {
                context: RequestContextModel { attempt, ..old(self).deep_view().context },
                ..old(self).deep_view()
            }),
    {
        self.context.attempt = attempt;
    }

    /// Takes in a frame of the stream.
    pub fn ingest_sse_data(&mut self, data: &str, now: u64) -> (events: Vec<GenerationEvent>)
        ensures
            (final(self).deep_view(), events.deep_view()) == frame_ingested(
                old(self).deep_view(),
                data@,
                now,
            ),
    {
        if self.finished {
            return Vec::new();
        }
        let result = self.protocol.ingest_sse_data(data);
        self.apply_update(result, now)
    }

    /// Takes in what the protocol read from a frame.
    pub fn apply_update(
        &mut self,
        result: Result<ProtocolUpdate, GatewayError>,
        now: u64,
    ) -> (events: Vec<GenerationEvent>)
        ensures
            (final(self).deep_view(), events.deep_view()) == update_applied(
                old(self).deep_view(),
                result_model(result),
                now,
            ),
    {
        reveal(update_applied);
        let update = match result {
            Ok(update) => update,
            Err(error) => {
                return self.failure(error, now);
            },
        };
        let mut events = update.events;
        if events.len() > 0 && self.first_event_at.is_none() {
            self.first_event_at = Some(now);
        }
        match self.observe_events(&events) {
            Ok(()) => {},
            Err(error) => {
                return self.failure(error, now);
            },
        }
        match update.terminal {
            Some(terminal) => {
                events.push(self.protocol_terminal(terminal, now));
            },
            None => {},
        }
        events
    }

    fn failure(&mut self, error: GatewayError, now: u64) -> (events: Vec<GenerationEvent>)
        ensures
            final(self).deep_view() == fail(old(self).deep_view(), error.deep_view(), now).0,
            events.deep_view() == seq![fail(old(self).deep_view(), error.deep_view(), now).1],
    {
        let mut events: Vec<GenerationEvent> = Vec::new();
        let event = self.fail(error, now);
        let ghost model = event.deep_view();
        events.push(event);
        proof {
            assert(events.deep_view() =~= seq![model]);
        }
        events
    }

    fn observe_events(&mut self, events: &Vec<GenerationEvent>) -> (result: Result<
        (),
        GatewayError,
    >)
        ensures
            (final(self).deep_view(), error_of(result)) == observe_events(
                old(self).deep_view(),
                events.deep_view(),
                0,
            ),
    {
        let ghost all = events.deep_view();
        let mut i: usize = 0;
        while i < events.len()
            invariant
                all == events.deep_view(),
                i <= events.len(),
                observe_events(old(self).deep_view(), all, 0) == observe_events(
                    self.deep_view(),
                    all,
                    i as int,
                ),
            decreases events.len() - i,
        {
            let event = &events[i];
            proof {
                assert(all[i as int] == event.deep_view());
            }
            match event {
                GenerationEvent::UsageUpdated(usage) => {
                    self.latest_usage = *usage;
                },
                _ => {},
            }
            match self.assembler.observe(event) {
                Ok(()) => {},
                Err(error) => {
                    return Err(error);
                },
            }
            self.notices.push(LifecycleNotice::Event(event.clone()));
            i += 1;
        }
        Ok(())
    }

    /// Takes in the end of the stream.
    pub fn finish_eof(&mut self, now: u64) -> (event: Option<GenerationEvent>)
        ensures
            (final(self).deep_view(), event.deep_view()) == stream_ended(
                old(self).deep_view(),
                now,
            ),
    {
        if self.finished {
            return None;
        }
        match self.protocol.finish_eof() {
            Ok(Some(terminal)) => Some(self.protocol_terminal(terminal, now)),
            Ok(None) => None,
            Err(error) => Some(self.fail(error, now)),
        }
    }

    /// Ends a generation that nobody wants any more.
    pub fn cancel(&mut self, now: u64) -> (event: Option<GenerationEvent>)
        ensures
            (final(self).deep_view(), event.deep_view()) == cancel(old(self).deep_view(), now),
    {
        if self.finished {
            return None;
        }
        let outcome = self.outcome(
            OutcomeStatus::Cancelled,
            OutcomeDetails::bare(self.latest_usage, None),
            now,
        );
        Some(self.finish(outcome))
    }

    /// Ends a generation whose transport failed.
    pub fn fail_with(&mut self, error: GatewayError, now: u64) -> (event: Option<GenerationEvent>)
        ensures
            (final(self).deep_view(), event.deep_view()) == failed_with(
                old(self).deep_view(),
                error.deep_view(),
                now,
            ),
    {
        if self.finished {
            None
        } else {
            Some(self.fail(error, now))
        }
    }

    fn complete(&mut self, terminal: ProtocolTerminal, now: u64) -> (event: GenerationEvent)
        requires
            terminal.status == ProtocolTerminalStatus::Completed,
        ensures
            (final(self).deep_view(), event.deep_view()) == conclude(
                old(self).deep_view(),
                terminal.deep_view(),
                now,
            ),
    {
        let details = OutcomeDetails {
            finish_reason: Some(terminal.finish_reason),
            usage: terminal.usage,
            response_id: terminal.response_id,
            upstream_model: terminal.upstream_model,
            provider_metadata: Some(terminal.provider_metadata),
            error: None,
        };
        let outcome = self.outcome(OutcomeStatus::Completed, details, now);
        self.finish(outcome)
    }

    fn protocol_terminal(&mut self, terminal: ProtocolTerminal, now: u64) -> (event:
        GenerationEvent)
        ensures
            (final(self).deep_view(), event.deep_view()) == conclude(
                old(self).deep_view(),
                terminal.deep_view(),
                now,
            ),
    {
        match terminal.status {
            ProtocolTerminalStatus::Completed => self.complete(terminal, now),
            ProtocolTerminalStatus::Failed => {
                let error = match terminal.error {
                    Some(error) => Some(
                        error.attributed(
                            self.context.request_id.as_str(),
                            self.first_event_at.is_some(),
                        ),
                    ),
                    None => None,
                };
                let details = OutcomeDetails {
                    finish_reason: Some(terminal.finish_reason),
                    usage: terminal.usage,
                    response_id: terminal.response_id,
                    upstream_model: terminal.upstream_model,
                    provider_metadata: Some(terminal.provider_metadata),
                    error,
                };
                let outcome = self.outcome(OutcomeStatus::Failed, details, now);
                self.finish(outcome)
            },
        }
    }

    fn fail(&mut self, error: GatewayError, now: u64) -> (event: GenerationEvent)
        ensures
            (final(self).deep_view(), event.deep_view()) == fail(
                old(self).deep_view(),
                error.deep_view(),
                now,
            ),
    {
        let error = error.attributed(
            self.context.request_id.as_str(),
            self.first_event_at.is_some(),
        );
        let outcome = self.outcome(
            OutcomeStatus::Failed,
            OutcomeDetails::bare(self.latest_usage, Some(error)),
            now,
        );
        self.finish(outcome)
    }

    fn outcome(&self, status: OutcomeStatus, details: OutcomeDetails, now: u64) -> (outcome:
        GenerationOutcome)
        ensures
            outcome.deep_view() == outcome_of(
                self.deep_view(),
                status,
                details.deep_view(),
                now,
            ),
    {
        let message = if self.assembler.is_empty() {
            None
        } else {
            let mut message = self.assembler.message();
            match details.provider_metadata {
                Some(metadata) => {
                    message.provider_metadata = metadata;
                },
                None => {},
            }
            Some(message)
        };
        let time_to_first_event = match self.first_event_at {
            Some(first) => Some(first.saturating_sub(self.context.started_at)),
            None => None,
        };
        GenerationOutcome {
            request_id: self.context.request_id.clone(),
            profile_id: self.context.profile_id.clone(),
            model_id: self.context.model_id.clone(),
            protocol: self.context.protocol,
            status,
            finish_reason: details.finish_reason,
            usage: details.usage,
            response_id: details.response_id,
            upstream_model: details.upstream_model,
            time_to_first_event,
            latency: now.saturating_sub(self.context.started_at),
            message,
            error: details.error,
        }
    }

    fn finish(&mut self, outcome: GenerationOutcome) -> (event: GenerationEvent)
        ensures
            (final(self).deep_view(), event.deep_view()) == finish(
                old(self).deep_view(),
                outcome.deep_view(),
            ),
    {
        self.finished = true;
        self.notices.push(LifecycleNotice::Finish(Box::new(outcome.clone())));
        GenerationEvent::Finished(Box::new(outcome))
    }
}

} // verus!
