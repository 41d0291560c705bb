//! What a generation assembles, and what its outcome says.

use vstd::prelude::*;
use vstd::utf8::encode_utf8;

use crate::json::{json_text, JsonModel};
use crate::llm::config::{
    base_of, find_model, is_configured, profile_position, selected,
    selection_leads_to_what_it_names, ModelConfigModel, ModelSelectionModel, ProviderProfileModel,
};
use crate::llm::error::GatewayErrorModel;
use crate::llm::event::{
    GenerationEventModel, GenerationOutcomeModel, IndexedContentBlockModel, OutcomeStatus,
};
use crate::llm::gateway::assembler::{
    assembled_content, assembled_message, contributes_nothing, observed, AssembledModel, Blocks,
};
use crate::llm::gateway::generation::{event_handled, prepared, transport_ended};
use crate::llm::gateway::session::{
    cancel, end_applied, failed_with, observe_events, update_applied, LifecycleNoticeModel,
    SessionModel,
};
use crate::llm::model::{
    no_metadata, ContentBlockModel, GenerateRequestModel, ProviderMetadataModel,
    ReasoningContentModel, Role, ToolCallModel, Usage,
};
use crate::llm::protocol::{
    chat_completions, encoded_request, fresh_session, responses, Protocol, ProtocolTerminalModel,
    ProtocolTerminalStatus, ProtocolUpdateModel,
};
use crate::llm::transport::{TransportEventModel, TransportRequestModel};
use crate::ordered::{find, find_after_put, put, sorted};
use crate::text::{decimal_digits, trimmed};

verus! {

/// Whether two assemblies are the same but for what stands at an index.
pub open spec fn same_but_at(before: Blocks, after: Blocks, content_index: usize) -> bool {
    forall|other: usize|
        other != content_index ==> #[trigger] find(after, other) == find(before, other)
}

/// Whether what stands at an index is the text, or the reasoning, of a stream.
pub open spec fn streams(
    block: Option<AssembledModel>,
    thinks: bool,
    id: Seq<char>,
    text: Seq<char>,
    replay: Option<ProviderMetadataModel>,
    finished: bool,
) -> bool {
    block == if thinks {
        Some(AssembledModel::Reasoning { id, display: text, replay, finished })
    } else {
        Some(AssembledModel::Text { id, text, replay, finished })
    }
}

/// The event that starts a stream.
pub open spec fn start_of(
    thinks: bool,
    content_index: usize,
    id: Seq<char>,
) -> GenerationEventModel {
    if thinks {
        GenerationEventModel::ReasoningStarted { content_index, id }
    } else {
        GenerationEventModel::TextStarted { content_index, id }
    }
}

/// The event that streams a piece of text.
pub open spec fn piece_of(
    thinks: bool,
    content_index: usize,
    id: Seq<char>,
    delta: Seq<char>,
) -> GenerationEventModel {
    if thinks {
        GenerationEventModel::ReasoningDelta { content_index, id, delta }
    } else {
        GenerationEventModel::TextDelta { content_index, id, delta }
    }
}

/// The event that ends a stream.
pub open spec fn end_of(
    thinks: bool,
    content_index: usize,
    id: Seq<char>,
    replay: Option<ProviderMetadataModel>,
) -> GenerationEventModel {
    if thinks {
        GenerationEventModel::ReasoningFinished { content_index, id, replay }
    } else {
        GenerationEventModel::TextFinished { content_index, id, replay }
    }
}

/// A stream that starts at a free index is empty and open there. A piece of it is added at its
/// end. Its end keeps its text, and hands over what is handed back.
#[verifier::rlimit(40)]
pub proof fn streams_are_assembled(
    blocks: Blocks,
    thinks: bool,
    content_index: usize,
    id: Seq<char>,
    text: Seq<char>,
    replay: Option<ProviderMetadataModel>,
    delta: Seq<char>,
    more: Option<ProviderMetadataModel>,
    finished: bool,
)
    requires
        sorted(blocks),
    ensures
        ({
            let (after, error) = observed(blocks, start_of(thinks, content_index, id));
            find(blocks, content_index) is None ==> {
                &&& error is None
                &&& streams(find(after, content_index), thinks, id, Seq::empty(), None, false)
                &&& same_but_at(blocks, after, content_index)
            }
        }),
        ({
            let (after, error) = observed(blocks, piece_of(thinks, content_index, id, delta));
            streams(find(blocks, content_index), thinks, id, text, replay, false) ==> {
                &&& error is None
                &&& streams(find(after, content_index), thinks, id, text + delta, replay, false)
                &&& same_but_at(blocks, after, content_index)
            }
        }),
        ({
            let (after, error) = observed(blocks, end_of(thinks, content_index, id, more));
            let kept = if more is Some {
                more
            } else {
                replay
            };
            streams(find(blocks, content_index), thinks, id, text, replay, finished) ==> {
                &&& error is None
                &&& streams(find(after, content_index), thinks, id, text, kept, true)
                &&& same_but_at(blocks, after, content_index)
            }
        }),
{
    reveal(observed);
    let empty = Seq::<char>::empty();
    let kept = if more is Some {
        more
    } else {
        replay
    };
    lemma_put(
        blocks,
        content_index,
        AssembledModel::Text { id, text: empty, replay: None, finished: false },
    );
    lemma_put(
        blocks,
        content_index,
        AssembledModel::Reasoning { id, display: empty, replay: None, finished: false },
    );
    lemma_put(
        blocks,
        content_index,
        AssembledModel::Text { id, text: text + delta, replay, finished: false },
    );
    lemma_put(
        blocks,
        content_index,
        AssembledModel::Reasoning { id, display: text + delta, replay, finished: false },
    );
    lemma_put(
        blocks,
        content_index,
        AssembledModel::Text { id, text, replay: kept, finished: true },
    );
    lemma_put(
        blocks,
        content_index,
        AssembledModel::Reasoning { id, display: text, replay: kept, finished: true },
    );
}

proof fn lemma_put(blocks: Blocks, content_index: usize, block: AssembledModel)
    requires
        sorted(blocks),
    ensures
        find(put(blocks, content_index, block), content_index) == Some(block),
        same_but_at(blocks, put(blocks, content_index, block), content_index),
{
    assert forall|other: usize| other != content_index implies #[trigger] find(
        put(blocks, content_index, block),
        other,
    ) == find(blocks, other) by {
        find_after_put(blocks, content_index, block, other);
    }
    find_after_put(blocks, content_index, block, content_index);
}

/// A tool call that starts takes a free index, and one that finishes gives its index the whole
/// call.
pub proof fn calls_are_assembled(
    blocks: Blocks,
    content_index: usize,
    index: usize,
    id: Seq<char>,
    name: Seq<char>,
    delta: Seq<char>,
    tool_call: ToolCallModel,
)
    requires
        sorted(blocks),
    ensures
        ({
            let (after, error) = observed(
                blocks,
                GenerationEventModel::ToolCallStarted { content_index, index, id, name },
            );
            find(blocks, content_index) is None ==> {
                &&& error is None
                &&& find(after, content_index) == Some(
                    AssembledModel::Tool { index, tool_call: None },
                )
                &&& same_but_at(blocks, after, content_index)
            }
        }),
        ({
            let (after, error) = observed(
                blocks,
                GenerationEventModel::ToolCallFinished { content_index, index, tool_call },
            );
            let current = find(blocks, content_index);
            current is None || (current->0 is Tool && current->0->Tool_index == index) ==> {
                &&& error is None
                &&& find(after, content_index) == Some(
                    AssembledModel::Tool { index, tool_call: Some(tool_call) },
                )
                &&& same_but_at(blocks, after, content_index)
            }
        }),
        observed(blocks, GenerationEventModel::ToolCallDelta { content_index, index, delta }) == (
            blocks,
            None::<GatewayErrorModel>,
        ),
{
    reveal(observed);
    lemma_put(blocks, content_index, AssembledModel::Tool { index, tool_call: None });
    lemma_put(
        blocks,
        content_index,
        AssembledModel::Tool { index, tool_call: Some(tool_call) },
    );
}

/// Reasoning that arrives whole takes the place of reasoning that has finished.
pub proof fn snapshots_are_assembled(
    blocks: Blocks,
    content_index: usize,
    id: Seq<char>,
    text: Seq<char>,
    replay: Option<ProviderMetadataModel>,
    reasoning: ReasoningContentModel,
)
    requires
        sorted(blocks),
        streams(find(blocks, content_index), true, id, text, replay, true),
    ensures
        ({
            let (after, error) = observed(
                blocks,
                GenerationEventModel::ReasoningSnapshotUpdated { content_index, id, reasoning },
            );
            &&& error is None
            &&& streams(
                find(after, content_index),
                true,
                id,
                reasoning.display,
                reasoning.replay,
                true,
            )
            &&& same_but_at(blocks, after, content_index)
        }),
{
    reveal(observed);
    lemma_put(
        blocks,
        content_index,
        AssembledModel::Reasoning {
            id,
            display: reasoning.display,
            replay: reasoning.replay,
            finished: true,
        },
    );
}

/// Whether the stream with an identifier stands at an index.
pub open spec fn stands(
    blocks: Blocks,
    thinks: bool,
    content_index: usize,
    id: Seq<char>,
) -> bool {
    match find(blocks, content_index) {
        Some(AssembledModel::Text { id: current, .. }) => !thinks && current == id,
        Some(AssembledModel::Reasoning { id: current, .. }) => thinks && current == id,
        _ => false,
    }
}

/// Events that do not fit what stands at their index are refused: a piece, an end or a snapshot
/// of a stream that does not stand there, a start where something else stands, and a tool call
/// that is another one.
#[verifier::rlimit(40)]
pub proof fn misplaced_events_are_refused(
    blocks: Blocks,
    thinks: bool,
    content_index: usize,
    id: Seq<char>,
    delta: Seq<char>,
    replay: Option<ProviderMetadataModel>,
    reasoning: ReasoningContentModel,
    index: usize,
    name: Seq<char>,
    tool_call: ToolCallModel,
)
    ensures
        !stands(blocks, thinks, content_index, id) ==> observed(
            blocks,
            piece_of(thinks, content_index, id, delta),
        ).1 is Some,
        (observed(blocks, end_of(thinks, content_index, id, replay)).1 is Some) == !stands(
            blocks,
            thinks,
            content_index,
            id,
        ),
        !stands(blocks, true, content_index, id) ==> observed(
            blocks,
            GenerationEventModel::ReasoningSnapshotUpdated { content_index, id, reasoning },
        ).1 is Some,
        (observed(blocks, start_of(thinks, content_index, id)).1 is Some) == (find(
            blocks,
            content_index,
        ) is Some && !stands(blocks, thinks, content_index, id)),
        stands(blocks, thinks, content_index, id) ==> observed(
            blocks,
            start_of(thinks, content_index, id),
        ).0 == blocks,
        ({
            let current = find(blocks, content_index);
            let other = current is Some && !(current->0 is Tool && current->0->Tool_index == index);
            &&& (observed(
                blocks,
                GenerationEventModel::ToolCallStarted { content_index, index, id, name },
            ).1 is Some) == other
            &&& (observed(
                blocks,
                GenerationEventModel::ToolCallFinished { content_index, index, tool_call },
            ).1 is Some) == other
        }),
{
    reveal(observed);
}

/// Whether a block of a message is what an index of the assembly holds.
pub open spec fn tells(block: ContentBlockModel, assembled: AssembledModel) -> bool {
    match assembled {
        AssembledModel::Text { text, replay, .. } => text.len() > 0 && block
            == (ContentBlockModel::Text {
            text,
            provider_metadata: if replay is Some {
                replay->0
            } else {
                no_metadata()
            },
        }),
        AssembledModel::Reasoning { display, replay, .. } => (display.len() > 0 || replay is Some)
            && block == (ContentBlockModel::Reasoning {
            reasoning: ReasoningContentModel { display, replay },
        }),
        AssembledModel::Tool { tool_call, .. } => tool_call is Some && block
            == (ContentBlockModel::ToolCall { tool_call: tool_call->0 }),
    }
}

/// Whether an index of the assembly holds something to tell.
pub open spec fn has_content(assembled: AssembledModel) -> bool {
    match assembled {
        AssembledModel::Text { text, .. } => text.len() > 0,
        AssembledModel::Reasoning { display, replay, .. } => display.len() > 0 || replay is Some,
        AssembledModel::Tool { tool_call, .. } => tool_call is Some,
    }
}

/// The message that was assembled, cut in two, is what the two parts of the assembly tell, one
/// after the other. What stands at one index is told as it stands, under that index: its text,
/// its reasoning or its tool call; what holds nothing is left out.
pub proof fn messages_tell_what_was_assembled(
    first: Blocks,
    second: Blocks,
    content_index: usize,
    block: AssembledModel,
)
    ensures
        assembled_content(first + second, 0) == assembled_content(first, 0) + assembled_content(
            second,
            0,
        ),
        ({
            let content = assembled_content(seq![(content_index, block)], 0);
            if has_content(block) {
                content.len() == 1 && content[0].content_index == content_index && tells(
                    content[0].block,
                    block,
                )
            } else {
                content.len() == 0
            }
        }),
        ({
            let message = assembled_message(first);
            &&& message.role == Role::Assistant
            &&& message.content == assembled_content(first, 0)
            &&& message.provider_metadata == no_metadata()
        }),
        contributes_nothing(first) <==> assembled_message(first).content.len() == 0,
{
    lemma_content_cut(first, second, 0);
    lemma_content_of_rest(first, second, 0);
    reveal_with_fuel(assembled_content, 2);
}

proof fn lemma_content_cut(first: Blocks, second: Blocks, start: int)
    requires
        0 <= start <= first.len(),
    ensures
        assembled_content(first + second, start) == assembled_content(first, start)
            + assembled_content(first + second, first.len() as int),
    decreases first.len() - start,
{
    let rest = assembled_content(first + second, first.len() as int);
    if start < first.len() {
        lemma_content_cut(first, second, start + 1);
        assert((first + second)[start] == first[start]);
        assert(assembled_content(first + second, start) =~= assembled_content(first, start)
            + rest);
    } else {
        assert(assembled_content(first + second, start) =~= Seq::<
            IndexedContentBlockModel,
        >::empty() + rest);
    }
}

proof fn lemma_content_of_rest(first: Blocks, second: Blocks, start: int)
    requires
        0 <= start <= second.len(),
    ensures
        assembled_content(first + second, first.len() + start) == assembled_content(second, start),
    decreases second.len() - start,
{
    if start < second.len() {
        lemma_content_of_rest(first, second, start + 1);
        assert((first + second)[first.len() + start] == second[start]);
    }
}

/// Whether an outcome belongs to a session: it names the request, says how long the generation
/// took until it ended and until its first event, and holds what was assembled.
pub open spec fn reports(
    outcome: GenerationOutcomeModel,
    session: SessionModel,
    now: u64,
) -> bool {
    let started = session.context.started_at;
    &&& outcome.request_id == session.context.request_id
    &&& outcome.profile_id == session.context.profile_id
    &&& outcome.model_id == session.context.model_id
    &&& outcome.protocol == session.context.protocol
    &&& now >= started ==> outcome.latency == now - started
    &&& now < started ==> outcome.latency == 0
    &&& session.first_event_at is None ==> outcome.time_to_first_event is None
    &&& session.first_event_at is Some && session.first_event_at->0 >= started
        ==> outcome.time_to_first_event == Some((session.first_event_at->0 - started) as u64)
    &&& outcome.message is None <==> assembled_content(session.assembler, 0).len() == 0
    &&& outcome.message is Some ==> {
        &&& outcome.message->0.role == Role::Assistant
        &&& outcome.message->0.content == assembled_content(session.assembler, 0)
    }
}

/// Whether an error is another one with the request and with whether output had started.
pub open spec fn is_attributed(
    error: GatewayErrorModel,
    cause: GatewayErrorModel,
    session: SessionModel,
) -> bool {
    &&& error.request_id == Some(session.context.request_id)
    &&& error.output_started == (session.first_event_at is Some)
    &&& error.kind == cause.kind
    &&& error.message == cause.message
    &&& error.status == cause.status
    &&& error.provider_code == cause.provider_code
    &&& error.retryable == cause.retryable
    &&& error.upstream_body == cause.upstream_body
}

/// A generation that is cancelled or that fails says so, with the usage so far and with what was
/// assembled so far; a failure with its error, a cancellation without one.
pub proof fn broken_generations_report_what_there_is(
    session: SessionModel,
    error: GatewayErrorModel,
    now: u64,
)
    requires
        !session.finished,
    ensures
        match cancel(session, now) {
            (after, Some(GenerationEventModel::Finished(outcome))) => {
                &&& reports(outcome, session, now)
                &&& outcome.status == OutcomeStatus::Cancelled
                &&& outcome.error is None
                &&& outcome.usage == session.latest_usage
                &&& outcome.finish_reason is None
                &&& outcome.response_id is None && outcome.upstream_model is None
                &&& outcome.message is Some ==> outcome.message->0.provider_metadata
                    == no_metadata()
                &&& after.notices == session.notices.push(LifecycleNoticeModel::Finish(outcome))
                &&& after.finished
            },
            _ => false,
        },
        match failed_with(session, error, now) {
            (after, Some(GenerationEventModel::Finished(outcome))) => {
                &&& reports(outcome, session, now)
                &&& outcome.status == OutcomeStatus::Failed
                &&& outcome.error is Some && is_attributed(outcome.error->0, error, session)
                &&& outcome.usage == session.latest_usage
                &&& outcome.finish_reason is None
                &&& outcome.response_id is None && outcome.upstream_model is None
                &&& outcome.message is Some ==> outcome.message->0.provider_metadata
                    == no_metadata()
                &&& after.notices == session.notices.push(LifecycleNoticeModel::Finish(outcome))
                &&& after.finished
            },
            _ => false,
        },
{
}

/// Whether an outcome says what the end of a stream said.
pub open spec fn concludes(
    outcome: GenerationOutcomeModel,
    terminal: ProtocolTerminalModel,
    session: SessionModel,
) -> bool {
    let failed = terminal.status == ProtocolTerminalStatus::Failed;
    &&& outcome.status == OutcomeStatus::Failed <==> failed
    &&& outcome.status == OutcomeStatus::Completed <==> !failed
    &&& outcome.finish_reason == Some(terminal.finish_reason)
    &&& outcome.usage == terminal.usage
    &&& outcome.response_id == terminal.response_id
    &&& outcome.upstream_model == terminal.upstream_model
    &&& outcome.message is Some ==> outcome.message->0.provider_metadata
        == terminal.provider_metadata
    &&& outcome.error is Some <==> failed && terminal.error is Some
    &&& outcome.error is Some ==> is_attributed(outcome.error->0, terminal.error->0, session)
}

/// The end of a stream ends the generation with what the end says.
pub proof fn ended_generations_report_their_end(
    session: SessionModel,
    terminal: ProtocolTerminalModel,
    now: u64,
)
    ensures
        match end_applied(session, Ok(Some(terminal)), now) {
            (after, Some(GenerationEventModel::Finished(outcome))) => {
                &&& reports(outcome, session, now)
                &&& concludes(outcome, terminal, session)
                &&& after.notices == session.notices.push(LifecycleNoticeModel::Finish(outcome))
                &&& after.finished
            },
            _ => false,
        },
        end_applied(session, Ok(None), now) == (session, None::<GenerationEventModel>),
{
}

/// Whether the events of a frame fit what has been assembled.
pub open spec fn all_fit(blocks: Blocks, events: Seq<GenerationEventModel>) -> bool
    decreases events.len(),
{
    events.len() == 0 || (all_fit(blocks, events.drop_last()) && observed(
        all_assembled(blocks, events.drop_last()),
        events.last(),
    ).1 is None)
}

/// What has been assembled after events.
pub open spec fn all_assembled(blocks: Blocks, events: Seq<GenerationEventModel>) -> Blocks
    decreases events.len(),
{
    if events.len() == 0 {
        blocks
    } else {
        observed(all_assembled(blocks, events.drop_last()), events.last()).0
    }
}

/// The usage after events: the last that they tell.
pub open spec fn last_usage(usage: Usage, events: Seq<GenerationEventModel>) -> Usage
    decreases events.len(),
{
    if events.len() == 0 {
        usage
    } else if events.last() is UsageUpdated {
        events.last()->UsageUpdated_0
    } else {
        last_usage(usage, events.drop_last())
    }
}

/// The notices of events, one of each, in their order.
pub open spec fn told_notices(events: Seq<GenerationEventModel>) -> Seq<LifecycleNoticeModel> {
    Seq::new(events.len(), |i: int| LifecycleNoticeModel::Event(events[i]))
}

proof fn lemma_observed(session: SessionModel, events: Seq<GenerationEventModel>, start: int)
    requires
        0 <= start <= events.len(),
        all_fit(session.assembler, events.skip(start)),
    ensures
        observe_events(session, events, start) == (
            SessionModel {
                assembler: all_assembled(session.assembler, events.skip(start)),
                latest_usage: last_usage(session.latest_usage, events.skip(start)),
                notices: session.notices + told_notices(events.skip(start)),
                ..session
            },
            None::<GatewayErrorModel>,
        ),
    decreases events.len() - start,
{
    let rest = events.skip(start);
    if start >= events.len() {
        assert(session.notices + told_notices(rest) =~= session.notices);
    } else {
        let event = events[start];
        let (blocks, error) = observed(session.assembler, event);
        lemma_first(session.assembler, session.latest_usage, rest);
        assert(rest.drop_first() =~= events.skip(start + 1));
        let next = SessionModel {
            assembler: blocks,
            latest_usage: match event {
                GenerationEventModel::UsageUpdated(usage) => usage,
                _ => session.latest_usage,
            },
            notices: session.notices.push(LifecycleNoticeModel::Event(event)),
            ..session
        };
        lemma_observed(next, events, start + 1);
        assert(next.notices + told_notices(events.skip(start + 1)) =~= session.notices
            + told_notices(rest));
    }
}

proof fn lemma_first(blocks: Blocks, usage: Usage, events: Seq<GenerationEventModel>)
    requires
        events.len() > 0,
    ensures
        all_fit(blocks, events) ==> observed(blocks, events[0]).1 is None && all_fit(
            observed(blocks, events[0]).0,
            events.drop_first(),
        ),
        all_assembled(blocks, events) == all_assembled(
            observed(blocks, events[0]).0,
            events.drop_first(),
        ),
        last_usage(usage, events) == last_usage(
            if events[0] is UsageUpdated {
                events[0]->UsageUpdated_0
            } else {
                usage
            },
            events.drop_first(),
        ),
    decreases events.len(),
{
    if events.len() == 1 {
        assert(events.drop_last() =~= Seq::<GenerationEventModel>::empty());
        assert(events.drop_first() =~= Seq::<GenerationEventModel>::empty());
        reveal_with_fuel(all_fit, 2);
        reveal_with_fuel(all_assembled, 2);
        reveal_with_fuel(last_usage, 2);
    } else {
        lemma_first(blocks, usage, events.drop_last());
        assert(events.drop_last().drop_first() =~= events.drop_first().drop_last());
        assert(events.drop_first().last() == events.last());
    }
}

/// The events of a frame that fit are handed on as they are, one by one, to the consumer and to
/// the observers. The first of them starts the clock, the last usage counts, and a frame that
/// ends the stream ends the generation behind them.
#[verifier::rlimit(40)]
pub proof fn frames_are_handed_on(session: SessionModel, update: ProtocolUpdateModel, now: u64)
    requires
        all_fit(session.assembler, update.events),
    ensures
        ({
            let (after, events) = update_applied(session, Ok(update), now);
            let first = if session.first_event_at is None && update.events.len() > 0 {
                Some(now)
            } else {
                session.first_event_at
            };
            let notices = session.notices + told_notices(update.events);
            &&& after.context == session.context
            &&& after.first_event_at == first
            &&& after.assembler == all_assembled(session.assembler, update.events)
            &&& after.latest_usage == last_usage(session.latest_usage, update.events)
            &&& match update.terminal {
                None => {
                    &&& events == update.events
                    &&& after.notices == notices
                    &&& after.finished == session.finished
                },
                Some(terminal) => {
                    &&& events.len() == update.events.len() + 1
                    &&& events.drop_last() == update.events
                    &&& after.finished
                    &&& match events.last() {
                        GenerationEventModel::Finished(outcome) => {
                            &&& reports(outcome, after, now)
                            &&& concludes(outcome, terminal, after)
                            &&& after.notices == notices.push(
                                LifecycleNoticeModel::Finish(outcome),
                            )
                        },
                        _ => false,
                    }
                },
            }
        }),
{
    reveal(update_applied);
    let timed = SessionModel {
        first_event_at: if session.first_event_at is None && update.events.len() > 0 {
            Some(now)
        } else {
            session.first_event_at
        },
        ..session
    };
    assert(update.events.skip(0) =~= update.events);
    lemma_observed(timed, update.events, 0);
    let events = update_applied(session, Ok(update), now).1;
    assert(update.terminal is Some ==> events.drop_last() =~= update.events);
}

/// A frame that cannot be read fails the generation: the one event is the outcome, with the error.
pub proof fn unreadable_frames_fail(session: SessionModel, error: GatewayErrorModel, now: u64)
    ensures
        ({
            let (after, events) = update_applied(session, Err(error), now);
            &&& after.finished
            &&& events.len() == 1
            &&& match events[0] {
                GenerationEventModel::Finished(outcome) => {
                    &&& reports(outcome, session, now)
                    &&& outcome.status == OutcomeStatus::Failed
                    &&& outcome.error is Some && is_attributed(outcome.error->0, error, session)
                    &&& outcome.usage == session.latest_usage
                },
                _ => false,
            }
        }),
{
    reveal(update_applied);
}

/// An attempt is counted in the context and a response is told to the observers; neither is an
/// event of the generation.
pub proof fn transport_events_are_noted(
    session: SessionModel,
    attempt: u32,
    status: u16,
    now: u64,
)
    ensures
        ({
            let (after, events) = event_handled(
                session,
                TransportEventModel::Attempt(attempt),
                now,
            );
            &&& events.len() == 0
            &&& after.context.attempt == attempt
            &&& after.context.request_id == session.context.request_id
            &&& after.notices == session.notices
            &&& after.assembler == session.assembler
            &&& after.finished == session.finished
        }),
        ({
            let (after, events) = event_handled(
                session,
                TransportEventModel::UpstreamResponse(status),
                now,
            );
            &&& events.len() == 0
            &&& after.notices == session.notices.push(
                LifecycleNoticeModel::UpstreamResponse(status),
            )
            &&& after.context == session.context
            &&& after.assembler == session.assembler
            &&& after.finished == session.finished
        }),
{
}

/// A stream that the consumer stops is cancelled, without an event to a consumer who has gone. One
/// that breaks off fails with its error.
pub proof fn stopped_streams_are_cancelled(
    session: SessionModel,
    failure: Option<GatewayErrorModel>,
    now: u64,
)
    requires
        !session.finished,
    ensures
        ({
            let (after, event) = transport_ended(session, true, failure, now);
            &&& event is None
            &&& after.finished
            &&& after.notices.len() == session.notices.len() + 1
            &&& match after.notices.last() {
                LifecycleNoticeModel::Finish(outcome) => outcome.status
                    == OutcomeStatus::Cancelled && reports(outcome, session, now),
                _ => false,
            }
        }),
        failure is Some ==> match transport_ended(session, false, failure, now) {
            (_, Some(GenerationEventModel::Finished(outcome))) => {
                &&& outcome.status == OutcomeStatus::Failed
                &&& outcome.error is Some && is_attributed(outcome.error->0, failure->0, session)
            },
            _ => false,
        },
{
}

/// Whether a request goes to a provider: to its address and the path of its protocol, with its
/// key, for the model upstream.
pub open spec fn goes_to(
    request: TransportRequestModel,
    profile: ProviderProfileModel,
    upstream: Seq<char>,
) -> bool {
    let path = if profile.protocol == Protocol::Responses {
        "/responses"@
    } else {
        "/chat/completions"@
    };
    &&& request.url == base_of(profile.base_url) + path
    &&& request.api_key == profile.api_key
    &&& exists|body: JsonModel|
        request.body == encode_utf8(#[trigger] json_text(body)) && body.str_at("model"@) == Some(
            upstream,
        ) && body.get("stream"@) == Some(JsonModel::Bool(true))
}

/// A generation that is prepared goes to the profile and the model that were selected: the request
/// to the provider asks for the model by its name upstream, and the session knows the request by
/// the identifiers of the profile, the model, the conversation and the turn.
pub proof fn generations_go_where_they_were_sent(
    profiles: Seq<ProviderProfileModel>,
    selection: ModelSelectionModel,
    request: GenerateRequestModel,
    sequence: u64,
    now: u64,
)
    ensures
        match prepared(profiles, selection, request, sequence, now) {
            Err(_) => true,
            Ok(generation) => {
                let context = generation.session.context;
                &&& exists|at: int, model: int|
                    #![trigger profiles[at].models[model]]
                    {
                        &&& 0 <= at < profiles.len()
                        &&& 0 <= model < profiles[at].models.len()
                        &&& profiles[at].id == selection.profile_id
                        &&& profiles[at].models[model].id == selection.model_id
                        &&& goes_to(
                            generation.request,
                            profiles[at],
                            trimmed(profiles[at].models[model].model_id),
                        )
                        &&& context.protocol == profiles[at].protocol
                        &&& generation.session.protocol == fresh_session(
                            profiles[at].protocol,
                            profiles[at].compatibility,
                        )
                    }
                &&& context.profile_id == selection.profile_id
                &&& context.model_id == selection.model_id
                &&& context.conversation_id == request.conversation_id
                &&& context.turn_id == request.turn_id
                &&& context.attempt == 1
                &&& context.started_at == now
                &&& context.request_id == "nostra-"@ + decimal_digits(sequence as nat)
                &&& generation.session.assembler.len() == 0
                &&& !generation.session.finished
                &&& generation.session.first_event_at is None
            },
        },
        selected(profiles, selection) is Err ==> prepared(
            profiles,
            selection,
            request,
            sequence,
            now,
        ) is Err,
{
    if let Ok((profile, model)) = selected(profiles, selection) {
        selection_leads_to_what_it_names(profiles, selection);
        let named = GenerateRequestModel { model: trimmed(model.model_id), ..request };
        let at = lemma_selected_profile(profiles, selection);
        let k = lemma_selected_model(profile.models, selection.model_id, 0);
        assert(profiles[at].models[k] == model);
        chat_completions::requests::bodies_ask_for_what_is_asked(profile.compatibility, named);
        responses::requests::bodies_ask_for_what_is_asked(profile.compatibility, named);
        let session = fresh_session(profile.protocol, profile.compatibility);
        if let Ok(body) = encoded_request(session, named) {
            assert(json_text(body) == json_text(body));
            if let Ok(generation) = prepared(profiles, selection, request, sequence, now) {
                assert(goes_to(generation.request, profile, named.model));
            }
        }
    }
}

proof fn lemma_selected_profile(
    profiles: Seq<ProviderProfileModel>,
    selection: ModelSelectionModel,
) -> (at: int)
    requires
        selected(profiles, selection) is Ok,
    ensures
        0 <= at < profiles.len(),
        profiles[at] == selected(profiles, selection)->Ok_0.0,
{
    lemma_position_is_no_less(profiles, selection.profile_id, 0);
    profile_position(profiles, selection.profile_id, 0)
}

proof fn lemma_position_is_no_less(
    profiles: Seq<ProviderProfileModel>,
    id: Seq<char>,
    start: int,
)
    requires
        0 <= start,
    ensures
        start <= profile_position(profiles, id, start),
    decreases profiles.len() - start,
{
    if start < profiles.len() && profiles[start].id != id {
        lemma_position_is_no_less(profiles, id, start + 1);
    }
}

proof fn lemma_selected_model(
    models: Seq<ModelConfigModel>,
    id: Seq<char>,
    start: int,
) -> (at: int)
    requires
        0 <= start,
        find_model(models, id, start) is Some,
    ensures
        0 <= at < models.len(),
        find_model(models, id, start) == Some(models[at]),
    decreases models.len() - start,
{
    if start >= models.len() {
        start
    } else if models[start].id == id && is_configured(models[start]) {
        start
    } else {
        lemma_selected_model(models, id, start + 1)
    }
}

/// A request for a model that can be selected is prepared wherever it can be encoded.
pub proof fn good_requests_are_prepared(
    profiles: Seq<ProviderProfileModel>,
    selection: ModelSelectionModel,
    request: GenerateRequestModel,
    sequence: u64,
    now: u64,
)
    requires
        selected(profiles, selection) is Ok,
    ensures
        ({
            let (profile, model) = selected(profiles, selection)->Ok_0;
            let session = fresh_session(profile.protocol, profile.compatibility);
            let named = GenerateRequestModel { model: trimmed(model.model_id), ..request };
            prepared(profiles, selection, request, sequence, now) is Ok <==> encoded_request(
                session,
                named,
            ) is Ok
        }),
{
    selection_leads_to_what_it_names(profiles, selection);
}

} // verus!
