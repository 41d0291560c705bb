//! What holds of every generation: it ends in one terminal outcome.

use vstd::prelude::*;

use crate::llm::error::GatewayErrorModel;
use crate::llm::event::{no_terminal_event, GenerationEventModel};
use crate::llm::gateway::assembler::observed;
use crate::llm::gateway::session::{
    cancel, conclude, fail, failed_with, frame_ingested, new_session, observe_events, stream_ended,
    update_applied, with_first_event, LifecycleNoticeModel, RequestContextModel, SessionModel,
};
use crate::llm::protocol;
use crate::llm::protocol::{
    chat_completions, fresh_session, responses, CompatibilityProfile, Protocol, ProtocolModel,
    ProtocolUpdateModel,
};

verus! {

/// Whether the stream of a session has ended.
pub open spec fn stream_is_over(session: ProtocolModel) -> bool {
    match session {
        ProtocolModel::Chat(chat) => chat.terminal,
        ProtocolModel::Responses(responses) => responses.terminal,
    }
}

/// The state of a session between two calls: a stream that is over has ended its session.
pub open spec fn sound(session: SessionModel) -> bool {
    stream_is_over(session.protocol) ==> session.finished
}

/// The number of terminal events.
pub open spec fn terminal_events(events: Seq<GenerationEventModel>) -> nat
    decreases events.len(),
{
    if events.len() == 0 {
        0
    } else {
        terminal_events(events.drop_last()) + if events.last() is Finished {
            1nat
        } else {
            0
        }
    }
}

/// The number of notices of a terminal outcome.
pub open spec fn finish_notices(notices: Seq<LifecycleNoticeModel>) -> nat
    decreases notices.len(),
{
    if notices.len() == 0 {
        0
    } else {
        finish_notices(notices.drop_last()) + if notices.last() is Finish {
            1nat
        } else {
            0
        }
    }
}

/// How often a session ended between two states.
pub open spec fn endings(before: SessionModel, after: SessionModel) -> nat {
    if !before.finished && after.finished {
        1
    } else {
        0
    }
}

proof fn lemma_no_terminal_events(events: Seq<GenerationEventModel>)
    requires
        no_terminal_event(events),
    ensures
        terminal_events(events) == 0,
    decreases events.len(),
{
    if events.len() > 0 {
        let rest = events.drop_last();
        assert forall|i: int| 0 <= i < rest.len() implies !(#[trigger] rest[i] is Finished) by {
            assert(rest[i] == events[i]);
        }
        lemma_no_terminal_events(rest);
    }
}

proof fn lemma_events_push(events: Seq<GenerationEventModel>, event: GenerationEventModel)
    ensures
        terminal_events(events.push(event)) == terminal_events(events) + if event is Finished {
            1nat
        } else {
            0
        },
{
    assert(events.push(event).drop_last() =~= events);
}

proof fn lemma_notices_push(notices: Seq<LifecycleNoticeModel>, notice: LifecycleNoticeModel)
    ensures
        finish_notices(notices.push(notice)) == finish_notices(notices) + if notice is Finish {
            1nat
        } else {
            0
        },
{
    assert(notices.push(notice).drop_last() =~= notices);
}

proof fn lemma_single(event: GenerationEventModel)
    requires
        event is Finished,
    ensures
        terminal_events(seq![event]) == 1,
{
    let events = Seq::<GenerationEventModel>::empty();
    lemma_events_push(events, event);
    assert(events.push(event) =~= seq![event]);
}

proof fn lemma_observe_events(
    session: SessionModel,
    events: Seq<GenerationEventModel>,
    start: int,
)
    ensures
        observe_events(session, events, start).0.finished == session.finished,
        observe_events(session, events, start).0.protocol == session.protocol,
        finish_notices(observe_events(session, events, start).0.notices) == finish_notices(
            session.notices,
        ),
    decreases events.len() - start,
{
    if 0 <= start < events.len() {
        let (blocks, error) = observed(session.assembler, events[start]);
        if error.is_none() {
            let notice = LifecycleNoticeModel::Event(events[start]);
            lemma_notices_push(session.notices, notice);
            let next = SessionModel {
                assembler: blocks,
                latest_usage: match events[start] {
                    GenerationEventModel::UsageUpdated(usage) => usage,
                    _ => session.latest_usage,
                },
                notices: session.notices.push(notice),
                ..session
            };
            lemma_observe_events(next, events, start + 1);
        }
    }
}

proof fn lemma_update(
    session: SessionModel,
    result: Result<ProtocolUpdateModel, GatewayErrorModel>,
    now: u64,
)
    requires
        !session.finished,
        result is Ok ==> no_terminal_event(result->Ok_0.events),
        stream_is_over(session.protocol) == (result is Ok && result->Ok_0.terminal is Some),
    ensures
        ({
            let (after, events) = update_applied(session, result, now);
            &&& sound(after)
            &&& terminal_events(events) == endings(session, after)
            &&& finish_notices(after.notices) == finish_notices(session.notices) + endings(
                session,
                after,
            )
            &&& result is Err ==> after.finished
        }),
{
    reveal(update_applied);
    match result {
        Err(error) => {
            let (after, event) = fail(session, error, now);
            lemma_single(event);
            lemma_notices_push(session.notices, after.notices.last());
            assert(after.notices =~= session.notices.push(after.notices.last()));
        },
        Ok(update) => {
            let timed = with_first_event(session, update.events.len() > 0, now);
            lemma_observe_events(timed, update.events, 0);
            let (seen, error) = observe_events(timed, update.events, 0);
            match error {
                Some(error) => {
                    let (after, event) = fail(seen, error, now);
                    lemma_single(event);
                    lemma_notices_push(seen.notices, after.notices.last());
                    assert(after.notices =~= seen.notices.push(after.notices.last()));
                },
                None => {
                    lemma_no_terminal_events(update.events);
                    match update.terminal {
                        Some(terminal) => {
                            let (after, event) = conclude(seen, terminal, now);
                            lemma_events_push(update.events, event);
                            lemma_notices_push(seen.notices, after.notices.last());
                            assert(after.notices =~= seen.notices.push(after.notices.last()));
                        },
                        None => {},
                    }
                },
            }
        },
    }
}

proof fn lemma_protocol(session: ProtocolModel, data: Seq<char>)
    requires
        !stream_is_over(session),
    ensures
        ({
            let (after, result) = protocol::ingested(session, data);
            &&& result is Ok ==> no_terminal_event(result->Ok_0.events)
            &&& stream_is_over(after) == (result is Ok && result->Ok_0.terminal is Some)
        }),
{
    match session {
        ProtocolModel::Chat(chat) => {
            chat_completions::laws::a_frame_ends_the_session_with_its_terminal(chat, data);
        },
        ProtocolModel::Responses(responses) => {
            responses::laws::a_frame_ends_the_session_with_its_terminal(responses, data);
        },
    }
}

/// A session starts sound, with the start of the generation as its one notice.
pub proof fn a_session_starts_sound(
    context: RequestContextModel,
    protocol: Protocol,
    compatibility: CompatibilityProfile,
)
    ensures
        sound(new_session(context, fresh_session(protocol, compatibility))),
        !new_session(context, fresh_session(protocol, compatibility)).finished,
        finish_notices(
            new_session(context, fresh_session(protocol, compatibility)).notices,
        ) == 0,
{
    let notices = Seq::<LifecycleNoticeModel>::empty();
    lemma_notices_push(notices, LifecycleNoticeModel::Start);
    assert(notices.push(LifecycleNoticeModel::Start) =~= seq![LifecycleNoticeModel::Start]);
}

/// A frame ends a generation at most once: the events it brings hold one terminal event if it ends
/// the session, and none otherwise. The observers are told of the same endings.
pub proof fn a_frame_ends_a_generation_at_most_once(
    session: SessionModel,
    data: Seq<char>,
    now: u64,
)
    requires
        sound(session),
    ensures
        ({
            let (after, events) = frame_ingested(session, data, now);
            &&& sound(after)
            &&& session.finished ==> after == session && events.len() == 0
            &&& terminal_events(events) == endings(session, after)
            &&& finish_notices(after.notices) == finish_notices(session.notices) + endings(
                session,
                after,
            )
        }),
{
    if !session.finished {
        lemma_protocol(session.protocol, data);
        let (next, result) = protocol::ingested(session.protocol, data);
        lemma_update(SessionModel { protocol: next, ..session }, result, now);
    }
}

/// What ends a generation is the last event of its frame.
pub proof fn the_end_comes_last(session: SessionModel, data: Seq<char>, now: u64)
    requires
        sound(session),
    ensures
        ({
            let (after, events) = frame_ingested(session, data, now);
            &&& forall|k: int| 0 <= k < events.len() - 1 ==> !(#[trigger] events[k] is Finished)
            &&& !session.finished ==> after.finished == (events.len() > 0 && events.last() is Finished)
        }),
{
    if !session.finished {
        reveal(update_applied);
        lemma_protocol(session.protocol, data);
        let (next, result) = protocol::ingested(session.protocol, data);
        let read = SessionModel { protocol: next, ..session };
        match result {
            Err(_) => {},
            Ok(update) => {
                let timed = with_first_event(read, update.events.len() > 0, now);
                lemma_observe_events(timed, update.events, 0);
            },
        }
    }
}

/// The end of the stream ends every generation that has not ended, exactly once.
pub proof fn the_end_of_the_stream_ends_the_generation(session: SessionModel, now: u64)
    requires
        sound(session),
    ensures
        ({
            let (after, event) = stream_ended(session, now);
            &&& after.finished
            &&& event.is_some() == !session.finished
            &&& event.is_some() ==> event->0 is Finished
            &&& finish_notices(after.notices) == finish_notices(session.notices) + endings(
                session,
                after,
            )
        }),
{
    if !session.finished {
        match session.protocol {
            ProtocolModel::Chat(chat) => {
                reveal(chat_completions::model::take_terminal);
            },
            ProtocolModel::Responses(_) => {},
        }
        let (after, event) = stream_ended(session, now);
        lemma_notices_push(session.notices, after.notices.last());
        assert(after.notices =~= session.notices.push(after.notices.last()));
    }
}

/// Cancelling and failing end a generation exactly once. Afterwards nothing ends it again.
pub proof fn cancelling_and_failing_end_once(
    session: SessionModel,
    error: GatewayErrorModel,
    now: u64,
    later: u64,
)
    ensures
        cancel(session, now).0.finished,
        cancel(session, now).1.is_some() == !session.finished,
        cancel(cancel(session, now).0, later) == (
            cancel(session, now).0,
            None::<GenerationEventModel>,
        ),
        finish_notices(cancel(session, now).0.notices) == finish_notices(session.notices)
            + endings(session, cancel(session, now).0),
        failed_with(session, error, now).0.finished,
        failed_with(session, error, now).1.is_some() == !session.finished,
        cancel(failed_with(session, error, now).0, later).1 is None,
        finish_notices(failed_with(session, error, now).0.notices) == finish_notices(
            session.notices,
        ) + endings(session, failed_with(session, error, now).0),
{
    if !session.finished {
        let cancelled = cancel(session, now).0;
        lemma_notices_push(session.notices, cancelled.notices.last());
        assert(cancelled.notices =~= session.notices.push(cancelled.notices.last()));
        let failed = failed_with(session, error, now).0;
        lemma_notices_push(session.notices, failed.notices.last());
        assert(failed.notices =~= session.notices.push(failed.notices.last()));
    }
}

/// Observers are told the outcome that the caller gets, the captured upstream text and all.
pub proof fn observers_get_the_live_outcome(
    session: SessionModel,
    error: GatewayErrorModel,
    now: u64,
)
    requires
        !session.finished,
    ensures
        match failed_with(session, error, now) {
            (after, Some(GenerationEventModel::Finished(outcome))) => {
                &&& after.notices.last() == LifecycleNoticeModel::Finish(outcome)
                &&& outcome.error is Some
                &&& outcome.error->0.upstream_body == error.upstream_body
            },
            _ => false,
        },
{
}

} // verus!
