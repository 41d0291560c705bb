//! A prepared generation: the request to send, and the session that takes the stream in.

use vstd::prelude::*;
use vstd::string::*;
use vstd::utf8::encode_utf8;

use crate::json::json_text;
use crate::llm::config::{
    base_of, checked_base_url, parsed_url, selected, ModelSelection, ModelSelectionModel,
    ProviderCatalogSnapshot, ProviderProfileModel,
};
use crate::llm::error::{protocol_error, GatewayError, GatewayErrorModel};
use crate::llm::event::{no_terminal_event, GenerationEvent, GenerationEventModel};
use crate::llm::gateway::laws::{
    a_frame_ends_a_generation_at_most_once, a_session_starts_sound, cancelling_and_failing_end_once,
    endings, finish_notices, sound, the_end_comes_last, the_end_of_the_stream_ends_the_generation,
};
use crate::llm::gateway::session::{
    cancel, failed_with, frame_ingested, new_context, new_session, stream_ended, GatewaySession,
    LifecycleNoticeModel, RequestContext, RequestContextModel, SessionModel,
};
use crate::llm::model::{GenerateRequest, GenerateRequestModel};
use crate::llm::protocol::{
    encoded_request, endpoint, fresh_session, result_model, CompatibilityProfile, Protocol,
    ProtocolSession,
};
use crate::llm::transport::{
    TransportEvent, TransportEventModel, TransportRequest, TransportRequestModel,
};
use crate::text::{joined, trim, trimmed};

verus! {

broadcast use crate::deep::group_models;

/// A generation that is ready to run.
pub struct Generation {
    pub request: TransportRequest,
    pub session: GatewaySession,
}

/// What a [`Generation`] stands for.
pub struct GenerationModel {
    pub request: TransportRequestModel,
    pub session: SessionModel,
}

impl DeepView for Generation {
    type V = GenerationModel;

    open spec fn deep_view(&self) -> GenerationModel {
        GenerationModel {
            request: self.request.deep_view(),
            session: self.session.deep_view(),
        }
    }
}

/// The generation that a request becomes, or why it becomes none. Whatever is wrong with the
/// selection or the request shows here, before there is anything to observe.
pub open spec fn prepared(
    profiles: Seq<ProviderProfileModel>,
    selection: ModelSelectionModel,
    request: GenerateRequestModel,
    sequence: u64,
    now: u64,
) -> Result<GenerationModel, GatewayErrorModel> {
    match selected(profiles, selection) {
        Err(error) => Err(error),
        Ok((profile, model)) => {
            let session = fresh_session(profile.protocol, profile.compatibility);
            let named = GenerateRequestModel { model: trimmed(model.model_id), ..request };
            let base = base_of(profile.base_url);
            match encoded_request(session, named) {
                Err(error) => Err(error),
                Ok(body) => match checked_base_url(base, parsed_url(base)) {
                    Err(error) => Err(error),
                    Ok(base) => Ok(
                        GenerationModel {
                            request: TransportRequestModel {
                                url: base + endpoint(profile.protocol),
                                api_key: profile.api_key,
                                body: encode_utf8(json_text(body)),
                            },
                            session: new_session(
                                new_context(
                                    profile.id,
                                    model.id,
                                    profile.protocol,
                                    request.conversation_id,
                                    request.turn_id,
                                    sequence,
                                    now,
                                ),
                                session,
                            ),
                        },
                    ),
                },
            }
        },
    }
}

/// Prepares a generation. The caller counts generations with `sequence`; `now` is its time.
pub fn prepare(
    catalog: &ProviderCatalogSnapshot,
    selection: &ModelSelection,
    request: GenerateRequest,
    sequence: u64,
    now: u64,
) -> (result: Result<Generation, GatewayError>)
    ensures
        result_model(result) == prepared(
            catalog.deep_view(),
            selection.deep_view(),
            request.deep_view(),
            sequence,
            now,
        ),
{
    let (profile, model) = match catalog.resolve_selection(selection) {
        Ok(found) => found,
        Err(error) => {
            return Err(error);
        },
    };
    let mut request = request;
    request.model = trim(model.model_id.as_str());
    let protocol = ProtocolSession::new(profile.protocol, profile.compatibility);
    let body = match protocol.encode_request(&request) {
        Ok(body) => body,
        Err(error) => {
            return Err(error);
        },
    };
    let base = match profile.validated_base_url() {
        Ok(base) => base,
        Err(error) => {
            return Err(error);
        },
    };
    let transport = TransportRequest {
        url: joined(base.as_str(), profile.protocol.endpoint_path()),
        api_key: profile.api_key.clone(),
        body: body.to_text().as_str().as_bytes_vec(),
    };
    let context = RequestContext::with_correlation(
        profile.id.as_str(),
        model.id.as_str(),
        profile.protocol,
        request.conversation_id.as_str(),
        request.turn_id.as_str(),
        sequence,
        now,
    );
    Ok(Generation { request: transport, session: GatewaySession::new(context, protocol) })
}

/// What a generation makes of an event of its transport.
pub open spec fn event_handled(session: SessionModel, event: TransportEventModel, now: u64) -> (
    SessionModel,
    Seq<GenerationEventModel>,
) {
    match event {
        TransportEventModel::Attempt(attempt) => (
            SessionModel {
                context: RequestContextModel { attempt, ..session.context },
                ..session
            },
            Seq::empty(),
        ),
        TransportEventModel::UpstreamResponse(status) => (
            SessionModel {
                notices: session.notices.push(LifecycleNoticeModel::UpstreamResponse(status)),
                ..session
            },
            Seq::empty(),
        ),
        TransportEventModel::SseData(data) => frame_ingested(session, data, now),
    }
}

/// What a generation makes of the end of its transport. A consumer that stopped has cancelled; it
/// is told nothing more.
pub open spec fn transport_ended(
    session: SessionModel,
    consumer_stopped: bool,
    failure: Option<GatewayErrorModel>,
    now: u64,
) -> (SessionModel, Option<GenerationEventModel>) {
    if session.finished {
        (session, None)
    } else if consumer_stopped {
        (cancel(session, now).0, None)
    } else {
        match failure {
            Some(error) => failed_with(session, error, now),
            None => stream_ended(session, now),
        }
    }
}

impl Generation {
    /// Takes in an event of the transport, and gives what the consumer is to be told.
    pub fn handle(&mut self, event: TransportEvent, now: u64) -> (events: Vec<GenerationEvent>)
        ensures
            (final(self).session.deep_view(), events.deep_view()) == event_handled(
                old(self).session.deep_view(),
                event.deep_view(),
                now,
            ),
            final(self).request == old(self).request,
    {
        match event {
            TransportEvent::Attempt(attempt) => {
                self.session.set_attempt(attempt);
                Vec::new()
            },
            TransportEvent::UpstreamResponse(status) => {
                self.session.observe_upstream_response(status);
                Vec::new()
            },
            TransportEvent::SseData(data) => self.session.ingest_sse_data(data.as_str(), now),
        }
    }

    /// Takes in the end of the transport, and gives what the consumer is to be told.
    pub fn conclude(
        &mut self,
        consumer_stopped: bool,
        failure: Option<GatewayError>,
        now: u64,
    ) -> (event: Option<GenerationEvent>)
        ensures
            (final(self).session.deep_view(), event.deep_view()) == transport_ended(
                old(self).session.deep_view(),
                consumer_stopped,
                failure.deep_view(),
                now,
            ),
            final(self).request == old(self).request,
    {
        if self.session.is_finished() {
            return None;
        }
        if consumer_stopped {
            let _ = self.session.cancel(now);
            return None;
        }
        match failure {
            Some(error) => self.session.fail_with(error, now),
            None => self.session.finish_eof(now),
        }
    }

    /// Ends a generation that nobody wants any more.
    pub fn cancel(&mut self, now: u64) -> (event: Option<GenerationEvent>)
        ensures
            (final(self).session.deep_view(), event.deep_view()) == cancel(
                old(self).session.deep_view(),
                now,
            ),
            final(self).request == old(self).request,
    {
        self.session.cancel(now)
    }
}

/// However its transport ends, a generation has ended then, and told its observers so once.
pub proof fn every_generation_ends(
    session: SessionModel,
    consumer_stopped: bool,
    failure: Option<GatewayErrorModel>,
    now: u64,
)
    requires
        sound(session),
    ensures
        ({
            let (after, _event) = transport_ended(session, consumer_stopped, failure, now);
            &&& after.finished
            &&& finish_notices(after.notices)
                == finish_notices(session.notices)
                + endings(session, after)
        }),
{
    the_end_of_the_stream_ends_the_generation(session, now);
    match failure {
        Some(error) => {
            cancelling_and_failing_end_once(session, error, now, now);
        },
        None => {
            let error = protocol_error(Seq::empty());
            cancelling_and_failing_end_once(session, error, now, now);
        },
    }
}

/// Hands events from position `start` on to a consumer, up to one after which it wants no more.
/// `seen` is what it was handed before; `goes_on` says, of everything that it was handed so far,
/// whether it goes on.
pub open spec fn consumed(
    seen: Seq<GenerationEventModel>,
    events: Seq<GenerationEventModel>,
    start: int,
    goes_on: spec_fn(Seq<GenerationEventModel>) -> bool,
) -> (Seq<GenerationEventModel>, bool)
    decreases events.len() - start,
{
    if start < 0 || start >= events.len() {
        (seen, true)
    } else {
        let more = seen.push(events[start]);
        if goes_on(more) {
            consumed(more, events, start + 1, goes_on)
        } else {
            (more, false)
        }
    }
}

/// A generation whose transport reports events, each at its time, from position `start` on: the
/// session after that, what the consumer was handed, and whether it stopped.
pub open spec fn streamed(
    session: SessionModel,
    inputs: Seq<(TransportEventModel, u64)>,
    start: int,
    seen: Seq<GenerationEventModel>,
    goes_on: spec_fn(Seq<GenerationEventModel>) -> bool,
) -> (SessionModel, Seq<GenerationEventModel>, bool)
    decreases inputs.len() - start,
{
    if start < 0 || start >= inputs.len() {
        (session, seen, false)
    } else {
        let (next, events) = event_handled(session, inputs[start].0, inputs[start].1);
        let (more, wanted) = consumed(seen, events, 0, goes_on);
        if wanted {
            streamed(next, inputs, start + 1, more, goes_on)
        } else {
            (next, more, true)
        }
    }
}

/// A generation from its first event to the end of its transport: the session after that, and what
/// the consumer was handed. `failure` is how the transport failed, if it did, and `now` the time of
/// its end.
pub open spec fn run(
    session: SessionModel,
    inputs: Seq<(TransportEventModel, u64)>,
    goes_on: spec_fn(Seq<GenerationEventModel>) -> bool,
    failure: Option<GatewayErrorModel>,
    now: u64,
) -> (SessionModel, Seq<GenerationEventModel>) {
    let (after, seen, stopped) = streamed(session, inputs, 0, Seq::empty(), goes_on);
    let (last, event) = transport_ended(after, stopped, failure, now);
    (
        last,
        match event {
            Some(event) => seen.push(event),
            None => seen,
        },
    )
}

/// Whether a terminal event stands at the end, if anywhere.
pub open spec fn ends_at_most_once(events: Seq<GenerationEventModel>) -> bool {
    forall|k: int| 0 <= k < events.len() - 1 ==> !(#[trigger] events[k] is Finished)
}

/// Whether a terminal event stands at the end.
pub open spec fn ends_with_its_outcome(events: Seq<GenerationEventModel>) -> bool {
    events.len() > 0 && events.last() is Finished
}

/// Whether a consumer that wants no more is handed nothing more: it went on after everything but
/// the last of what it was handed.
pub open spec fn stops_when_told(
    seen: Seq<GenerationEventModel>,
    goes_on: spec_fn(Seq<GenerationEventModel>) -> bool,
) -> bool {
    forall|n: int| 0 < n < seen.len() ==> #[trigger] goes_on(seen.take(n))
}

/// What holds of a generation while it runs.
spec fn runs_well(
    session: SessionModel,
    seen: Seq<GenerationEventModel>,
    goes_on: spec_fn(Seq<GenerationEventModel>) -> bool,
) -> bool {
    &&& sound(session)
    &&& finish_notices(session.notices) == if session.finished {
        1nat
    } else {
        0
    }
    &&& ends_at_most_once(seen)
    &&& !session.finished ==> no_terminal_event(seen)
    &&& stops_when_told(seen, goes_on)
}

/// Events of one step, handed on one by one, keep to the order: what ends the generation is the last
/// of them.
proof fn lemma_consumed(
    seen: Seq<GenerationEventModel>,
    events: Seq<GenerationEventModel>,
    start: int,
    goes_on: spec_fn(Seq<GenerationEventModel>) -> bool,
)
    requires
        0 <= start <= events.len(),
        start < events.len() ==> no_terminal_event(seen),
        ends_at_most_once(seen),
        ends_at_most_once(events),
        stops_when_told(seen, goes_on),
        seen.len() > 0 ==> goes_on(seen),
    ensures
        ({
            let (more, wanted) = consumed(seen, events, start, goes_on);
            &&& ends_at_most_once(more)
            &&& stops_when_told(more, goes_on)
            &&& wanted && more.len() > 0 ==> goes_on(more)
            &&& wanted ==> more == seen + events.skip(start)
            &&& no_terminal_event(seen) && no_terminal_event(events) ==> no_terminal_event(more)
        }),
    decreases events.len() - start,
{
    if start < events.len() {
        let more = seen.push(events[start]);
        assert(stops_when_told(more, goes_on)) by {
            assert forall|n: int| 0 < n < more.len() implies #[trigger] goes_on(more.take(n)) by {
                if n < seen.len() {
                    assert(more.take(n) =~= seen.take(n));
                } else {
                    assert(more.take(n) =~= seen);
                }
            }
        }
        if goes_on(more) {
            lemma_consumed(more, events, start + 1, goes_on);
            assert(more + events.skip(start + 1) =~= seen + events.skip(start));
        }
    } else {
        assert(seen + events.skip(start) =~= seen);
    }
}

/// What a step of the transport brings ends with what ends the generation, if anything does.
proof fn lemma_terminal_is_last(session: SessionModel, data: Seq<char>, now: u64)
    requires
        sound(session),
    ensures
        ({
            let (after, events) = frame_ingested(session, data, now);
            &&& ends_at_most_once(events)
            &&& no_terminal_event(events) == !(!session.finished && after.finished)
        }),
{
    a_frame_ends_a_generation_at_most_once(session, data, now);
    the_end_comes_last(session, data, now);
    let (after, events) = frame_ingested(session, data, now);
    if after.finished && !session.finished {
        assert(events.last() is Finished);
    }
}

proof fn lemma_streamed(
    session: SessionModel,
    inputs: Seq<(TransportEventModel, u64)>,
    start: int,
    seen: Seq<GenerationEventModel>,
    goes_on: spec_fn(Seq<GenerationEventModel>) -> bool,
)
    requires
        runs_well(session, seen, goes_on),
        seen.len() > 0 ==> goes_on(seen),
        session.finished ==> ends_with_its_outcome(seen),
    ensures
        ({
            let (after, more, stopped) = streamed(session, inputs, start, seen, goes_on);
            &&& runs_well(after, more, goes_on)
            &&& !stopped && more.len() > 0 ==> goes_on(more)
            &&& !stopped && after.finished ==> ends_with_its_outcome(more)
        }),
    decreases inputs.len() - start,
{
    if 0 <= start < inputs.len() {
        let (event, now) = inputs[start];
        let (next, events) = event_handled(session, event, now);
        match event {
            TransportEventModel::Attempt(_) => {},
            TransportEventModel::UpstreamResponse(status) => {
                let notice = LifecycleNoticeModel::UpstreamResponse(status);
                assert(session.notices.push(notice).drop_last() =~= session.notices);
            },
            TransportEventModel::SseData(data) => {
                a_frame_ends_a_generation_at_most_once(session, data, now);
                lemma_terminal_is_last(session, data, now);
            },
        }
        let (more, wanted) = consumed(seen, events, 0, goes_on);
        lemma_consumed(seen, events, 0, goes_on);
        if wanted {
            assert(more =~= seen + events);
            lemma_streamed(next, inputs, start + 1, more, goes_on);
        }
    }
}

/// Every prepared generation comes to one terminal outcome, whatever its transport reports, however
/// that ends, and whenever its consumer stops. Observers are told of the outcome exactly once. The
/// consumer is handed at most one terminal event, and nothing after it; and exactly one, if it did
/// not stop. After it said that it wants no more it is handed nothing. Cancelling the generation
/// later changes nothing.
pub proof fn a_run_has_one_outcome(
    context: RequestContextModel,
    protocol: Protocol,
    compatibility: CompatibilityProfile,
    inputs: Seq<(TransportEventModel, u64)>,
    goes_on: spec_fn(Seq<GenerationEventModel>) -> bool,
    failure: Option<GatewayErrorModel>,
    now: u64,
    later: u64,
)
    ensures
        ({
            let session = new_session(context, fresh_session(protocol, compatibility));
            let (last, seen) = run(session, inputs, goes_on, failure, now);
            &&& last.finished
            &&& finish_notices(last.notices) == 1
            &&& ends_at_most_once(seen)
            &&& !streamed(session, inputs, 0, Seq::empty(), goes_on).2 ==> ends_with_its_outcome(
                seen,
            )
            &&& stops_when_told(seen, goes_on)
            &&& cancel(last, later) == (last, None::<GenerationEventModel>)
        }),
{
    let session = new_session(context, fresh_session(protocol, compatibility));
    a_session_starts_sound(context, protocol, compatibility);
    let none = Seq::<GenerationEventModel>::empty();
    lemma_streamed(session, inputs, 0, none, goes_on);
    let (after, seen, stopped) = streamed(session, inputs, 0, none, goes_on);
    every_generation_ends(after, stopped, failure, now);
    let (last, event) = transport_ended(after, stopped, failure, now);
    match event {
        Some(event) => {
            let all = seen.push(event);
            assert forall|k: int| 0 <= k < all.len() - 1 implies !(#[trigger] all[k] is Finished) by {
                assert(all[k] == seen[k]);
            }
            assert forall|n: int| 0 < n < all.len() implies #[trigger] goes_on(all.take(n)) by {
                if n < seen.len() {
                    assert(all.take(n) =~= seen.take(n));
                } else {
                    assert(all.take(n) =~= seen);
                }
            }
        },
        None => {},
    }
}

} // verus!
