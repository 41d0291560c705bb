//! What is said in a Responses stream, and what is reported of it.

use vstd::prelude::*;

use crate::json::{parsed_json, JsonModel};
use crate::llm::error::GatewayErrorModel;
use crate::llm::event::{FinishReasonModel, GenerationEventModel};
use crate::llm::model::{
    no_responses_replay, ProviderMetadataModel, ResponsesReplayMetadataModel, Usage,
    UsageProvenance,
};
use crate::llm::protocol::chat_completions::content::{
    at_most_u64, or_zero, read_their_arguments, reads_its_arguments,
};
use crate::llm::protocol::responses::model::{
    authoritative_text, buffer_at, capture_message_item, capture_reasoning_item,
    capture_reasoning_replay, capture_response, capture_terminal_output, capture_text,
    close_open_parts, completed_function, dispatch, emit_function, ended, ends, finish_each,
    finish_other_reasoning, finish_reasoning, fresh, function_at, function_delta, function_done,
    function_started, ingest, item_added, item_content, item_finished, keys_except, message_text,
    reasoning_delta, reasoning_id, reasoning_metadata, replay_at, responses_metadata,
    snapshot_updated, started_event, summary_part_done, terminal_item, terminal_items,
    terminal_usage, text_delta, text_id, updated_replay, FunctionModel, ResponsesModel,
};
use crate::llm::protocol::responses::wire::{
    event_kind, index_of, item_kind, responses_usage, string_or_empty, text_fields, unless_empty,
    EventKind, OutputKind,
};
use crate::llm::protocol::{CompatibilityProfile, ProtocolTerminalStatus};
use crate::ordered::{
    find, find_after_put, find_after_without, lemma_position_from, position, put, put_keeps_order,
    sorted, without_keeps_order,
};
use crate::text::{decimal_digits, join_texts};

verus! {

/// Events are known by their names.
pub proof fn events_are_known_by_their_names()
    ensures
        event_kind("response.created"@) == EventKind::Created,
        event_kind("response.in_progress"@) == EventKind::InProgress,
        event_kind("response.output_item.added"@) == EventKind::ItemAdded,
        event_kind("response.output_text.delta"@) == EventKind::TextDelta,
        event_kind("response.refusal.delta"@) == EventKind::TextDelta,
        event_kind("response.output_text.done"@) == EventKind::TextDone,
        event_kind("response.refusal.done"@) == EventKind::RefusalDone,
        event_kind("response.reasoning_summary_text.delta"@) == EventKind::ReasoningDelta,
        event_kind("response.reasoning_text.delta"@) == EventKind::ReasoningDelta,
        event_kind("response.reasoning_summary_text.done"@) == EventKind::ReasoningDone,
        event_kind("response.reasoning_text.done"@) == EventKind::ReasoningDone,
        event_kind("response.reasoning_summary_part.added"@) == EventKind::ReasoningDone,
        event_kind("response.reasoning_summary_part.done"@) == EventKind::SummaryPartDone,
        event_kind("response.function_call_arguments.delta"@) == EventKind::ArgumentsDelta,
        event_kind("response.function_call_arguments.done"@) == EventKind::ArgumentsDone,
        event_kind("response.output_item.done"@) == EventKind::ItemDone,
        event_kind("response.content_part.added"@) == EventKind::ContentPart,
        event_kind("response.content_part.done"@) == EventKind::ContentPart,
        event_kind("response.completed"@) == EventKind::Completed,
        event_kind("response.incomplete"@) == EventKind::Incomplete,
        event_kind("response.failed"@) == EventKind::Failed,
        event_kind("error"@) == EventKind::Failed,
{
    reveal_strlit("response.created");
    reveal_strlit("response.in_progress");
    reveal_strlit("response.output_item.added");
    reveal_strlit("response.output_text.delta");
    reveal_strlit("response.refusal.delta");
    reveal_strlit("response.output_text.done");
    reveal_strlit("response.refusal.done");
    reveal_strlit("response.reasoning_summary_text.delta");
    reveal_strlit("response.reasoning_text.delta");
    reveal_strlit("response.reasoning_summary_text.done");
    reveal_strlit("response.reasoning_text.done");
    reveal_strlit("response.reasoning_summary_part.added");
    reveal_strlit("response.reasoning_summary_part.done");
    reveal_strlit("response.function_call_arguments.delta");
    reveal_strlit("response.function_call_arguments.done");
    reveal_strlit("response.output_item.done");
    reveal_strlit("response.content_part.added");
    reveal_strlit("response.content_part.done");
    reveal_strlit("response.completed");
    reveal_strlit("response.incomplete");
    reveal_strlit("response.failed");
    reveal_strlit("error");
    assert("response.created"@.len() == 16);
    assert("response.in_progress"@.len() == 20);
    assert("response.output_item.added"@.len() == 26);
    assert("response.output_text.delta"@.len() == 26);
    assert("response.refusal.delta"@.len() == 22);
    assert("response.output_text.done"@.len() == 25);
    assert("response.refusal.done"@.len() == 21);
    assert("response.reasoning_summary_text.delta"@.len() == 37);
    assert("response.reasoning_text.delta"@.len() == 29);
    assert("response.reasoning_summary_text.done"@.len() == 36);
    assert("response.reasoning_text.done"@.len() == 28);
    assert("response.reasoning_summary_part.added"@.len() == 37);
    assert("response.reasoning_summary_part.done"@.len() == 36);
    assert("response.function_call_arguments.delta"@.len() == 38);
    assert("response.function_call_arguments.done"@.len() == 37);
    assert("response.output_item.done"@.len() == 25);
    assert("response.content_part.added"@.len() == 27);
    assert("response.content_part.done"@.len() == 26);
    assert("response.completed"@.len() == 18);
    assert("response.incomplete"@.len() == 19);
    assert("response.failed"@.len() == 15);
    assert("error"@.len() == 5);
    assert("response.output_item.added"@[16] == 'i');
    assert("response.output_text.delta"@[16] == 't');
    assert("response.output_item.added"@[9] == 'o');
    assert("response.content_part.done"@[9] == 'c');
    assert("response.output_text.delta"@[9] == 'o');
    assert("response.output_text.done"@[16] == 't');
    assert("response.output_item.done"@[16] == 'i');
    assert("response.reasoning_summary_text.delta"@[27] == 't');
    assert("response.reasoning_summary_part.added"@[27] == 'p');
    assert("response.reasoning_summary_text.delta"@[9] == 'r');
    assert("response.function_call_arguments.done"@[9] == 'f');
    assert("response.reasoning_summary_text.done"@[27] == 't');
    assert("response.reasoning_summary_part.done"@[27] == 'p');
    assert("response.reasoning_summary_part.added"@[9] == 'r');
}

/// The text that events report of an output item.
pub open spec fn text_of_item(events: Seq<GenerationEventModel>, index: usize) -> Seq<char>
    decreases events.len(),
{
    if events.len() == 0 {
        Seq::empty()
    } else {
        let before = text_of_item(events.drop_last(), index);
        match events.last() {
            GenerationEventModel::TextDelta { content_index, delta, .. } => if content_index
                == index {
                before + delta
            } else {
                before
            },
            _ => before,
        }
    }
}

/// The reasoning that events report of an output item. A later version replaces what was told.
pub open spec fn reasoning_of_item(events: Seq<GenerationEventModel>, index: usize) -> Seq<char>
    decreases events.len(),
{
    if events.len() == 0 {
        Seq::empty()
    } else {
        let before = reasoning_of_item(events.drop_last(), index);
        match events.last() {
            GenerationEventModel::ReasoningDelta { content_index, delta, .. } => if content_index
                == index {
                before + delta
            } else {
                before
            },
            GenerationEventModel::ReasoningSnapshotUpdated { content_index, reasoning, .. } =>
            if content_index == index {
                reasoning.display
            } else {
                before
            },
            _ => before,
        }
    }
}

/// Whether the reasoning of an output item was started and has not ended.
pub open spec fn reasoning_is_open(events: Seq<GenerationEventModel>, index: usize) -> bool
    decreases events.len(),
{
    if events.len() == 0 {
        false
    } else {
        let before = reasoning_is_open(events.drop_last(), index);
        match events.last() {
            GenerationEventModel::ReasoningStarted { content_index, .. } => content_index == index
                || before,
            GenerationEventModel::ReasoningFinished { content_index, .. } => content_index != index
                && before,
            _ => before,
        }
    }
}

/// Whether a tool call is reported as finished.
pub open spec fn finishes_a_call(events: Seq<GenerationEventModel>) -> bool
    decreases events.len(),
{
    events.len() > 0 && (events.last() is ToolCallFinished || finishes_a_call(events.drop_last()))
}

/// What holds of a session, of everything that it has reported, and of one output item.
spec fn in_step(state: ResponsesModel, all: Seq<GenerationEventModel>, index: usize) -> bool {
    &&& sorted(state.text_buffers)
    &&& sorted(state.reasoning_buffers)
    &&& sorted(state.open_reasoning)
    &&& buffer_at(state.text_buffers, index) == text_of_item(all, index)
    &&& buffer_at(state.reasoning_buffers, index) == reasoning_of_item(all, index)
    &&& find(state.open_reasoning, index) is Some == reasoning_is_open(all, index)
    &&& buffer_at(state.reasoning_buffers, index).len() > 0 ==> reasoning_is_open(all, index)
        || state.finished_reasoning.contains(index)
    &&& read_their_arguments(all)
    &&& finishes_a_call(all) == (state.finished_functions != Set::<usize>::empty())
}

/// A piece of a frame that changes the session and reports nothing.
proof fn lemma_same(
    before: ResponsesModel,
    after: ResponsesModel,
    all: Seq<GenerationEventModel>,
    index: usize,
)
    requires
        in_step(before, all, index),
        after.text_buffers == before.text_buffers,
        after.reasoning_buffers == before.reasoning_buffers,
        after.open_reasoning == before.open_reasoning,
        after.finished_reasoning == before.finished_reasoning,
        after.finished_functions == before.finished_functions,
    ensures
        in_step(after, all, index),
{
}

/// A piece of a frame that reports one more event.
proof fn lemma_event(
    before: ResponsesModel,
    after: ResponsesModel,
    history: Seq<GenerationEventModel>,
    events: Seq<GenerationEventModel>,
    event: GenerationEventModel,
    index: usize,
)
    requires
        in_step(before, history + events, index),
        sorted(after.text_buffers),
        sorted(after.reasoning_buffers),
        sorted(after.open_reasoning),
        reads_its_arguments(event),
        after.finished_functions != Set::<usize>::empty() <==> event is ToolCallFinished
            || before.finished_functions != Set::<usize>::empty(),
        buffer_at(after.text_buffers, index) == match event {
            GenerationEventModel::TextDelta { content_index, delta, .. } => if content_index
                == index {
                buffer_at(before.text_buffers, index) + delta
            } else {
                buffer_at(before.text_buffers, index)
            },
            _ => buffer_at(before.text_buffers, index),
        },
        buffer_at(after.reasoning_buffers, index) == match event {
            GenerationEventModel::ReasoningDelta { content_index, delta, .. } => if content_index
                == index {
                buffer_at(before.reasoning_buffers, index) + delta
            } else {
                buffer_at(before.reasoning_buffers, index)
            },
            GenerationEventModel::ReasoningSnapshotUpdated { content_index, reasoning, .. } =>
            if content_index == index {
                reasoning.display
            } else {
                buffer_at(before.reasoning_buffers, index)
            },
            _ => buffer_at(before.reasoning_buffers, index),
        },
        find(after.open_reasoning, index) is Some == match event {
            GenerationEventModel::ReasoningStarted { content_index, .. } => content_index == index
                || find(before.open_reasoning, index) is Some,
            GenerationEventModel::ReasoningFinished { content_index, .. } => content_index != index
                && find(before.open_reasoning, index) is Some,
            _ => find(before.open_reasoning, index) is Some,
        },
        buffer_at(after.reasoning_buffers, index).len() > 0 ==> find(
            after.open_reasoning,
            index,
        ) is Some || after.finished_reasoning.contains(index),
    ensures
        in_step(after, history + events.push(event), index),
{
    let all = history + events;
    assert(history + events.push(event) =~= all.push(event));
    assert(all.push(event).drop_last() =~= all);
}

/// Putting a text into a buffer.
proof fn lemma_buffer(
    buffers: Seq<(usize, Seq<char>)>,
    of: usize,
    text: Seq<char>,
    index: usize,
)
    requires
        sorted(buffers),
    ensures
        sorted(put(buffers, of, text)),
        buffer_at(put(buffers, of, text), index) == if of == index {
            text
        } else {
            buffer_at(buffers, index)
        },
        find(put(buffers, of, text), index) is Some == (of == index || find(
            buffers,
            index,
        ) is Some),
{
    put_keeps_order(buffers, of, text);
    find_after_put(buffers, of, text, index);
}

proof fn lemma_finish_reasoning(
    state: ResponsesModel,
    of: usize,
    history: Seq<GenerationEventModel>,
    events: Seq<GenerationEventModel>,
    index: usize,
)
    requires
        in_step(state, history + events, index),
    ensures
        ({
            let (after, reported) = finish_reasoning(state, of, events);
            &&& in_step(after, history + reported, index)
            &&& after.text_buffers == state.text_buffers
            &&& after.reasoning_buffers == state.reasoning_buffers
            &&& find(state.open_reasoning, of) is Some ==> after.finished_reasoning.contains(of)
            &&& state.finished_reasoning.subset_of(after.finished_reasoning)
            &&& after.output_kinds == state.output_kinds
            &&& after.functions == state.functions
            &&& after.finished_functions == state.finished_functions
            &&& after.response_id == state.response_id
            &&& after.upstream_model == state.upstream_model
            &&& after.usage == state.usage
        }),
{
    reveal(finish_reasoning);
    let (after, reported) = finish_reasoning(state, of, events);
    without_keeps_order(state.open_reasoning, of);
    find_after_without(state.open_reasoning, of, index);
    if !state.finished_reasoning.contains(of) {
        if find(state.open_reasoning, of) is Some {
            lemma_event(state, after, history, events, reported.last(), index);
            assert(reported =~= events.push(reported.last()));
        } else if reported.len() > events.len() {
            let first = reported[events.len() as int];
            let opened = ResponsesModel {
                open_reasoning: put(state.open_reasoning, of, reasoning_id(of)),
                ..state
            };
            lemma_buffer(state.open_reasoning, of, reasoning_id(of), index);
            lemma_event(state, opened, history, events, first, index);
            lemma_event(opened, after, history, events.push(first), reported.last(), index);
            assert(reported =~= events.push(first).push(reported.last()));
        }
    } else {
        // Reasoning that has ended stays so.
    }
}

proof fn lemma_finish_each(
    state: ResponsesModel,
    indices: Seq<usize>,
    start: int,
    history: Seq<GenerationEventModel>,
    events: Seq<GenerationEventModel>,
    index: usize,
)
    requires
        in_step(state, history + events, index),
    ensures
        ({
            let (after, reported) = finish_each(state, indices, start, events);
            &&& in_step(after, history + reported, index)
            &&& after.text_buffers == state.text_buffers
            &&& after.reasoning_buffers == state.reasoning_buffers
            &&& after.functions == state.functions
            &&& after.output_kinds == state.output_kinds
            &&& after.finished_functions == state.finished_functions
            &&& after.response_id == state.response_id
            &&& after.upstream_model == state.upstream_model
            &&& after.usage == state.usage
        }),
    decreases indices.len() - start,
{
    if 0 <= start < indices.len() {
        lemma_finish_reasoning(state, indices[start], history, events, index);
        let (next, reported) = finish_reasoning(state, indices[start], events);
        lemma_finish_each(next, indices, start + 1, history, reported, index);
    }
}

proof fn lemma_finish_other(
    state: ResponsesModel,
    of: usize,
    history: Seq<GenerationEventModel>,
    events: Seq<GenerationEventModel>,
    index: usize,
)
    requires
        in_step(state, history + events, index),
    ensures
        ({
            let (after, reported) = finish_other_reasoning(state, of, events);
            &&& in_step(after, history + reported, index)
            &&& after.text_buffers == state.text_buffers
            &&& after.reasoning_buffers == state.reasoning_buffers
            &&& after.functions == state.functions
            &&& after.output_kinds == state.output_kinds
            &&& after.finished_functions == state.finished_functions
            &&& after.response_id == state.response_id
            &&& after.upstream_model == state.upstream_model
            &&& after.usage == state.usage
        }),
{
    reveal(finish_other_reasoning);
    lemma_finish_each(
        state,
        keys_except(state.open_reasoning, of, 0),
        0,
        history,
        events,
        index,
    );
}

proof fn lemma_item_added(
    state: ResponsesModel,
    value: JsonModel,
    history: Seq<GenerationEventModel>,
    events: Seq<GenerationEventModel>,
    index: usize,
)
    requires
        in_step(state, history + events, index),
        item_added(state, value, events).error is None,
    ensures
        ({
            let step = item_added(state, value, events);
            &&& in_step(step.state, history + step.events, index)
            &&& step.state.text_buffers == state.text_buffers
            &&& step.state.reasoning_buffers == state.reasoning_buffers
        }),
{
    reveal(item_added);
    reveal(capture_reasoning_replay);
    let of = index_of(value);
    match value.get("item"@) {
        None => {},
        Some(item) => {
            let known = ResponsesModel {
                output_kinds: put(state.output_kinds, of, item_kind(item)),
                ..state
            };
            lemma_same(state, known, history + events, index);
            let (next, reported) = finish_other_reasoning(known, of, events);
            lemma_finish_other(known, of, history, events, index);
            let step = item_added(state, value, events);
            if item_kind(item) == OutputKind::FunctionCall {
                lemma_event(next, step.state, history, reported, step.events.last(), index);
                assert(step.events =~= reported.push(step.events.last()));
            } else {
                lemma_same(next, step.state, history + reported, index);
            }
        },
    }
}

proof fn lemma_text_delta(
    state: ResponsesModel,
    value: JsonModel,
    history: Seq<GenerationEventModel>,
    events: Seq<GenerationEventModel>,
    index: usize,
)
    requires
        in_step(state, history + events, index),
        text_delta(state, value, events).error is None,
    ensures
        ({
            let step = text_delta(state, value, events);
            &&& in_step(step.state, history + step.events, index)
            &&& value.str_at("delta"@) is Some
            &&& buffer_at(step.state.text_buffers, index) == if index_of(value) == index {
                buffer_at(state.text_buffers, index) + value.str_at("delta"@)->0
            } else {
                buffer_at(state.text_buffers, index)
            }
            &&& step.state.reasoning_buffers == state.reasoning_buffers
        }),
{
    reveal(text_delta);
    let step = text_delta(state, value, events);
    let of = index_of(value);
    let delta = value.str_at("delta"@)->0;
    lemma_buffer(state.text_buffers, of, buffer_at(state.text_buffers, of) + delta, index);
    match find(state.open_text, of) {
        Some(_) => {
            lemma_event(state, step.state, history, events, step.events.last(), index);
            assert(step.events =~= events.push(step.events.last()));
        },
        None => {
            let first = step.events[events.len() as int];
            lemma_event(state, state, history, events, first, index);
            lemma_event(state, step.state, history, events.push(first), step.events.last(), index);
            assert(step.events =~= events.push(first).push(step.events.last()));
        },
    }
}

proof fn lemma_reasoning_delta(
    state: ResponsesModel,
    value: JsonModel,
    history: Seq<GenerationEventModel>,
    events: Seq<GenerationEventModel>,
    index: usize,
)
    requires
        in_step(state, history + events, index),
        reasoning_delta(state, value, events).error is None,
    ensures
        ({
            let step = reasoning_delta(state, value, events);
            &&& in_step(step.state, history + step.events, index)
            &&& value.str_at("delta"@) is Some
            &&& buffer_at(step.state.reasoning_buffers, index) == if index_of(value) == index {
                buffer_at(state.reasoning_buffers, index) + value.str_at("delta"@)->0
            } else {
                buffer_at(state.reasoning_buffers, index)
            }
            &&& step.state.text_buffers == state.text_buffers
        }),
{
    reveal(reasoning_delta);
    let step = reasoning_delta(state, value, events);
    let of = index_of(value);
    let delta = value.str_at("delta"@)->0;
    lemma_buffer(
        state.reasoning_buffers,
        of,
        buffer_at(state.reasoning_buffers, of) + delta,
        index,
    );
    match find(state.open_reasoning, of) {
        Some(_) => {
            lemma_event(state, step.state, history, events, step.events.last(), index);
            assert(step.events =~= events.push(step.events.last()));
        },
        None => {
            let first = step.events[events.len() as int];
            let opened = ResponsesModel {
                open_reasoning: put(state.open_reasoning, of, reasoning_id(of)),
                ..state
            };
            lemma_buffer(state.open_reasoning, of, reasoning_id(of), index);
            lemma_event(state, opened, history, events, first, index);
            lemma_event(opened, step.state, history, events.push(first), step.events.last(), index);
            assert(step.events =~= events.push(first).push(step.events.last()));
        },
    }
}

proof fn lemma_summary(
    state: ResponsesModel,
    value: JsonModel,
    history: Seq<GenerationEventModel>,
    events: Seq<GenerationEventModel>,
    index: usize,
)
    requires
        in_step(state, history + events, index),
        summary_part_done(state, value, events).error is None,
    ensures
        ({
            let step = summary_part_done(state, value, events);
            &&& in_step(step.state, history + step.events, index)
            &&& buffer_at(step.state.reasoning_buffers, index) == if index_of(value) == index
                && reasoning_is_open(history + events, index) {
                buffer_at(state.reasoning_buffers, index) + "\n\n"@
            } else {
                buffer_at(state.reasoning_buffers, index)
            }
            &&& step.state.text_buffers == state.text_buffers
        }),
{
    reveal(summary_part_done);
    let step = summary_part_done(state, value, events);
    let of = index_of(value);
    lemma_buffer(
        state.reasoning_buffers,
        of,
        buffer_at(state.reasoning_buffers, of) + "\n\n"@,
        index,
    );
    if find(state.open_reasoning, of) is Some {
        lemma_event(state, step.state, history, events, step.events.last(), index);
        assert(step.events =~= events.push(step.events.last()));
    }
}

proof fn lemma_functions(
    state: ResponsesModel,
    value: JsonModel,
    history: Seq<GenerationEventModel>,
    events: Seq<GenerationEventModel>,
    index: usize,
)
    requires
        in_step(state, history + events, index),
    ensures
        ({
            let step = function_delta(state, value, events);
            &&& step.error is None ==> in_step(step.state, history + step.events, index)
            &&& step.state.text_buffers == state.text_buffers
            &&& step.state.reasoning_buffers == state.reasoning_buffers
        }),
        ({
            let (after, _) = function_done(state, value);
            &&& in_step(after, history + events, index)
            &&& after.text_buffers == state.text_buffers
            &&& after.reasoning_buffers == state.reasoning_buffers
        }),
{
    reveal(function_delta);
    reveal(function_done);
    lemma_same(state, function_done(state, value).0, history + events, index);
    let step = function_delta(state, value, events);
    if step.error is None {
        let of = index_of(value);
        let function = function_at(state, of);
        let start = function_started(of, function);
        let reported = if function.started {
            events
        } else {
            events.push(start)
        };
        if !function.started {
            lemma_event(state, state, history, events, start, index);
        }
        lemma_event(state, step.state, history, reported, step.events.last(), index);
        assert(step.events =~= reported.push(step.events.last()));
    }
}

proof fn lemma_emit_function(
    state: ResponsesModel,
    of: usize,
    function: FunctionModel,
    history: Seq<GenerationEventModel>,
    events: Seq<GenerationEventModel>,
    index: usize,
)
    requires
        in_step(state, history + events, index),
    ensures
        ({
            let (after, reported) = emit_function(state, of, function, events);
            &&& in_step(after, history + reported, index)
            &&& after.text_buffers == state.text_buffers
            &&& after.reasoning_buffers == state.reasoning_buffers
        }),
{
    let (after, all) = emit_function(state, of, function, events);
    let start = function_started(of, function);
    let reported = if function.started {
        events
    } else {
        events.push(start)
    };
    if !function.started {
        lemma_event(state, state, history, events, start, index);
    }
    assert(after.finished_functions.contains(of));
    lemma_event(state, after, history, reported, all.last(), index);
    assert(all =~= reported.push(all.last()));
}

/// The reasoning of an output item after its complete item: that of the item, where it has any.
pub open spec fn reasoning_settled(before: Seq<char>, item: JsonModel) -> Seq<char> {
    let summary = paragraphs(texts_of_parts(item, "summary"@));
    let content = paragraphs(texts_of_parts(item, "content"@));
    if summary.len() > 0 {
        summary
    } else if content.len() > 0 {
        content
    } else {
        before
    }
}

/// The texts of the parts in a member of an item.
pub open spec fn texts_of_parts(item: JsonModel, key: Seq<char>) -> Seq<Seq<char>> {
    match item.array_at(key) {
        Some(parts) => texts_in(parts),
        None => Seq::empty(),
    }
}

pub open spec fn texts_in(parts: Seq<JsonModel>) -> Seq<Seq<char>>
    decreases parts.len(),
{
    if parts.len() == 0 {
        Seq::empty()
    } else {
        match parts.last().str_at("text"@) {
            Some(text) => texts_in(parts.drop_last()).push(text),
            None => texts_in(parts.drop_last()),
        }
    }
}

/// Texts with an empty line between them.
pub open spec fn paragraphs(texts: Seq<Seq<char>>) -> Seq<char>
    decreases texts.len(),
{
    if texts.len() == 0 {
        Seq::empty()
    } else if texts.len() == 1 {
        texts[0]
    } else {
        paragraphs(texts.drop_last()).push('\n').push('\n') + texts.last()
    }
}

proof fn lemma_paragraphs(texts: Seq<Seq<char>>)
    ensures
        join_texts(texts, "\n\n"@) == paragraphs(texts),
    decreases texts.len(),
{
    reveal_strlit("\n\n");
    if texts.len() > 1 {
        lemma_paragraphs(texts.drop_last());
        let before = paragraphs(texts.drop_last());
        assert(before + "\n\n"@ =~= before.push('\n').push('\n'));
    }
}

proof fn lemma_texts_in(parts: Seq<JsonModel>)
    ensures
        text_fields(parts, "text"@) == texts_in(parts),
    decreases parts.len(),
{
    if parts.len() > 0 {
        lemma_texts_in(parts.drop_last());
    }
}

proof fn lemma_settled(before: Seq<char>, item: JsonModel)
    ensures
        reasoning_settled(before, item) == match authoritative_text(item) {
            Some(text) => text,
            None => before,
        },
{
    match item.array_at("summary"@) {
        Some(parts) => {
            lemma_texts_in(parts);
            lemma_paragraphs(texts_in(parts));
        },
        None => {},
    }
    match item.array_at("content"@) {
        Some(parts) => {
            lemma_texts_in(parts);
            lemma_paragraphs(texts_in(parts));
        },
        None => {},
    }
}

#[verifier::rlimit(40)]
proof fn lemma_reasoning_item(
    state: ResponsesModel,
    of: usize,
    item: JsonModel,
    history: Seq<GenerationEventModel>,
    events: Seq<GenerationEventModel>,
    index: usize,
)
    requires
        in_step(state, history + events, index),
        in_step(state, history + events, of),
    ensures
        ({
            let (after, reported) = capture_reasoning_item(state, of, item, events);
            &&& in_step(after, history + reported, index)
            &&& buffer_at(after.reasoning_buffers, index) == if of == index {
                reasoning_settled(buffer_at(state.reasoning_buffers, index), item)
            } else {
                buffer_at(state.reasoning_buffers, index)
            }
            &&& after.text_buffers == state.text_buffers
        }),
{
    reveal(capture_reasoning_replay);
    let captured = capture_reasoning_replay(state, of, item);
    let (after, all) = capture_reasoning_item(state, of, item, events);
    let authoritative = authoritative_text(item);
    let streamed = buffer_at(state.reasoning_buffers, of);
    let display_changed = authoritative.is_some() && authoritative != Some(streamed);
    let shown = match authoritative {
        Some(text) => text,
        None => streamed,
    };
    lemma_settled(streamed, item);
    lemma_same(state, captured, history + events, index);
    lemma_same(state, captured, history + events, of);
    lemma_buffer(state.reasoning_buffers, of, shown, index);
    lemma_buffer(state.reasoning_buffers, of, shown, of);
    if state.finished_reasoning.contains(of) {
        if all.len() > events.len() {
            lemma_event(captured, after, history, events, all.last(), index);
            assert(all =~= events.push(all.last()));
        } else {
            assert(all =~= events);
        }
    } else if display_changed && streamed.is_prefix_of(shown) {
        let id = match find(state.open_reasoning, of) {
            Some(id) => id,
            None => reasoning_id(of),
        };
        let start = GenerationEventModel::ReasoningStarted { content_index: of, id };
        let delta = GenerationEventModel::ReasoningDelta {
            content_index: of,
            id,
            delta: shown.skip(streamed.len() as int),
        };
        let is_open = find(state.open_reasoning, of) is Some;
        let opened = ResponsesModel {
            open_reasoning: if is_open {
                state.open_reasoning
            } else {
                put(state.open_reasoning, of, id)
            },
            ..captured
        };
        let reported = if is_open {
            events
        } else {
            events.push(start)
        };
        lemma_buffer(state.open_reasoning, of, id, index);
        if !is_open {
            lemma_event(captured, opened, history, events, start, index);
        }
        let extended = ResponsesModel {
            reasoning_buffers: put(state.reasoning_buffers, of, shown),
            ..opened
        };
        assert(streamed + shown.skip(streamed.len() as int) =~= shown);
        lemma_event(opened, extended, history, reported, delta, index);
        lemma_finish_reasoning(extended, of, history, reported.push(delta), index);
    } else {
        let (closed, reported) = finish_reasoning(captured, of, events);
        lemma_finish_reasoning(captured, of, history, events, index);
        lemma_finish_reasoning(captured, of, history, events, of);
        if display_changed {
            assert(streamed.len() > 0) by {
                if streamed.len() == 0 {
                    assert(streamed =~= shown.take(0));
                }
            }
            assert(closed.finished_reasoning.contains(of));
            let event = snapshot_updated(after, of, shown);
            lemma_event(closed, after, history, reported, all.last(), index);
            assert(all =~= reported.push(all.last()));
        }
    }
}

/// The text of a message item: that of its text and refusal parts.
pub open spec fn message_said(parts: Seq<JsonModel>) -> Seq<char>
    decreases parts.len(),
{
    if parts.len() == 0 {
        Seq::empty()
    } else {
        let before = message_said(parts.drop_last());
        let part = parts.last();
        if part.str_at("type"@) == Some("output_text"@) {
            match part.str_at("text"@) {
                Some(text) => before + text,
                None => before,
            }
        } else if part.str_at("type"@) == Some("refusal"@) {
            match part.str_at("refusal"@) {
                Some(text) => before + text,
                None => before,
            }
        } else {
            before
        }
    }
}

proof fn lemma_message_said(parts: Seq<JsonModel>, start: int, text: Seq<char>)
    requires
        0 <= start <= parts.len(),
        text == message_said(parts.take(start)),
    ensures
        match message_text(parts, start, text) {
            Ok(all) => all == message_said(parts),
            Err(_) => true,
        },
    decreases parts.len() - start,
{
    if start < parts.len() {
        let longer = parts.take(start + 1);
        assert(longer.drop_last() =~= parts.take(start));
        assert(longer.last() == parts[start]);
        lemma_message_said(parts, start + 1, message_said(longer));
    } else {
        assert(parts.take(start) =~= parts);
    }
}

pub open spec fn item_said(item: JsonModel) -> Seq<char> {
    match item.array_at("content"@) {
        Some(parts) => message_said(parts),
        None => Seq::empty(),
    }
}

#[verifier::rlimit(40)]
proof fn lemma_capture_text(
    state: ResponsesModel,
    of: usize,
    text: Seq<char>,
    replay: Option<ProviderMetadataModel>,
    history: Seq<GenerationEventModel>,
    events: Seq<GenerationEventModel>,
    index: usize,
)
    requires
        in_step(state, history + events, index),
        capture_text(state, of, text, replay, events).error is None,
    ensures
        ({
            let step = capture_text(state, of, text, replay, events);
            &&& in_step(step.state, history + step.events, index)
            &&& buffer_at(step.state.text_buffers, index) == if of == index {
                text
            } else {
                buffer_at(state.text_buffers, index)
            }
            &&& step.state.reasoning_buffers == state.reasoning_buffers
        }),
{
    let step = capture_text(state, of, text, replay, events);
    let streamed = buffer_at(state.text_buffers, of);
    let touched = ResponsesModel { text_buffers: put(state.text_buffers, of, streamed), ..state };
    lemma_buffer(state.text_buffers, of, streamed, index);
    lemma_buffer(touched.text_buffers, of, text, index);
    let suffix = text.skip(streamed.len() as int);
    assert(streamed + suffix =~= text);
    let start = GenerationEventModel::TextStarted { content_index: of, id: text_id(of) };
    let opened = if streamed.len() == 0 && text.len() > 0 {
        events.push(start)
    } else {
        events
    };
    if streamed.len() == 0 && text.len() > 0 {
        lemma_event(state, state, history, events, start, index);
    }
    let buffered = ResponsesModel { text_buffers: put(touched.text_buffers, of, text), ..state };
    let delta = GenerationEventModel::TextDelta {
        content_index: of,
        id: text_id(of),
        delta: suffix,
    };
    let delivered = if suffix.len() > 0 {
        opened.push(delta)
    } else {
        opened
    };
    if suffix.len() > 0 {
        lemma_event(state, buffered, history, opened, delta, index);
    } else {
        assert(text =~= streamed);
        assert(in_step(buffered, history + opened, index));
    }
    if step.events.len() > delivered.len() {
        lemma_event(buffered, step.state, history, delivered, step.events.last(), index);
        assert(step.events =~= delivered.push(step.events.last()));
    } else {
        assert(step.events =~= delivered);
        lemma_same(buffered, step.state, history + delivered, index);
    }
}

proof fn lemma_message_item(
    state: ResponsesModel,
    of: usize,
    item: JsonModel,
    history: Seq<GenerationEventModel>,
    events: Seq<GenerationEventModel>,
    index: usize,
)
    requires
        in_step(state, history + events, index),
        capture_message_item(state, of, item, events).error is None,
    ensures
        ({
            let step = capture_message_item(state, of, item, events);
            &&& in_step(step.state, history + step.events, index)
            &&& buffer_at(step.state.text_buffers, index) == if of == index {
                item_said(item)
            } else {
                buffer_at(state.text_buffers, index)
            }
            &&& step.state.reasoning_buffers == state.reasoning_buffers
        }),
{
    let parts = item.array_at("content"@)->0;
    assert(parts.take(0).len() == 0);
    lemma_message_said(parts, 0, Seq::empty());
    let text = message_text(parts, 0, Seq::empty())->Ok_0;
    let replay = match unless_empty(
        string_or_empty(item, "id"@),
    ) {
        Some(id) => Some(
            responses_metadata(
                ResponsesReplayMetadataModel {
                    message_id: Some(id),
                    ..no_responses_replay()
                },
            ),
        ),
        None => None,
    };
    lemma_capture_text(state, of, text, replay, history, events, index);
}

/// The text of an output item after a complete item at an index.
spec fn item_text_after(before: Seq<char>, of: usize, item: JsonModel, index: usize) -> Seq<char> {
    if of == index && item.str_at("type"@) == Some("message"@) {
        item_said(item)
    } else {
        before
    }
}

/// The reasoning of an output item after a complete item at an index.
spec fn item_reasoning_after(
    before: Seq<char>,
    of: usize,
    item: JsonModel,
    index: usize,
) -> Seq<char> {
    if of == index && item.str_at("type"@) == Some("reasoning"@) {
        reasoning_settled(before, item)
    } else {
        before
    }
}

proof fn lemma_kinds(item: JsonModel)
    ensures
        item_kind(item) == OutputKind::Message <==> item.str_at("type"@) == Some("message"@),
        item_kind(item) == OutputKind::Reasoning <==> item.str_at("type"@) == Some("reasoning"@),
{
    reveal_strlit("message");
    reveal_strlit("reasoning");
    assert("message"@.len() != "reasoning"@.len());
}

proof fn lemma_item_content(
    state: ResponsesModel,
    of: usize,
    item: JsonModel,
    history: Seq<GenerationEventModel>,
    events: Seq<GenerationEventModel>,
    index: usize,
)
    requires
        in_step(state, history + events, index),
        in_step(state, history + events, of),
        item_content(state, of, item, item_kind(item), events).error is None,
    ensures
        ({
            let step = item_content(state, of, item, item_kind(item), events);
            &&& in_step(step.state, history + step.events, index)
            &&& buffer_at(step.state.text_buffers, index) == item_text_after(
                buffer_at(state.text_buffers, index),
                of,
                item,
                index,
            )
            &&& buffer_at(step.state.reasoning_buffers, index) == item_reasoning_after(
                buffer_at(state.reasoning_buffers, index),
                of,
                item,
                index,
            )
        }),
{
    lemma_kinds(item);
    let step = item_content(state, of, item, item_kind(item), events);
    match item_kind(item) {
        OutputKind::FunctionCall => {
            if state.finished_functions.contains(of) {
                lemma_same(state, step.state, history + events, index);
            } else {
                let function = completed_function(function_at(state, of), item);
                let (next, reported) = emit_function(state, of, function, events);
                lemma_emit_function(state, of, function, history, events, index);
                lemma_same(next, step.state, history + reported, index);
            }
        },
        OutputKind::Reasoning => {
            let (next, reported) = capture_reasoning_item(state, of, item, events);
            lemma_reasoning_item(state, of, item, history, events, index);
            lemma_same(next, step.state, history + reported, index);
        },
        OutputKind::Message => {
            let inner = capture_message_item(state, of, item, events);
            lemma_message_item(state, of, item, history, events, index);
            lemma_same(inner.state, step.state, history + inner.events, index);
        },
        OutputKind::Unsupported => {
            lemma_same(state, step.state, history + events, index);
        },
    }
}

proof fn lemma_item_finished(
    state: ResponsesModel,
    of: usize,
    item: JsonModel,
    history: Seq<GenerationEventModel>,
    events: Seq<GenerationEventModel>,
    index: usize,
)
    requires
        in_step(state, history + events, index),
        in_step(state, history + events, of),
        item_finished(state, of, Some(item), events).error is None,
    ensures
        ({
            let step = item_finished(state, of, Some(item), events);
            &&& in_step(step.state, history + step.events, index)
            &&& buffer_at(step.state.text_buffers, index) == item_text_after(
                buffer_at(state.text_buffers, index),
                of,
                item,
                index,
            )
            &&& buffer_at(step.state.reasoning_buffers, index) == item_reasoning_after(
                buffer_at(state.reasoning_buffers, index),
                of,
                item,
                index,
            )
        }),
{
    reveal(item_finished);
    match find(state.output_kinds, of) {
        Some(_) => {
            lemma_item_content(state, of, item, history, events, index);
        },
        None => {
            let known = ResponsesModel {
                output_kinds: put(state.output_kinds, of, item_kind(item)),
                ..state
            };
            lemma_same(state, known, history + events, index);
            lemma_same(state, known, history + events, of);
            let (next, reported) = finish_other_reasoning(known, of, events);
            lemma_finish_other(known, of, history, events, index);
            lemma_finish_other(known, of, history, events, of);
            lemma_item_content(next, of, item, history, reported, index);
        },
    }
}

proof fn lemma_terminal_item(
    state: ResponsesModel,
    of: usize,
    item: JsonModel,
    history: Seq<GenerationEventModel>,
    events: Seq<GenerationEventModel>,
    index: usize,
)
    requires
        in_step(state, history + events, index),
        in_step(state, history + events, of),
        terminal_item(state, of, item, events).error is None,
    ensures
        ({
            let step = terminal_item(state, of, item, events);
            &&& in_step(step.state, history + step.events, index)
            &&& buffer_at(step.state.text_buffers, index) == item_text_after(
                buffer_at(state.text_buffers, index),
                of,
                item,
                index,
            )
            &&& buffer_at(step.state.reasoning_buffers, index) == item_reasoning_after(
                buffer_at(state.reasoning_buffers, index),
                of,
                item,
                index,
            )
        }),
{
    lemma_kinds(item);
    match item_kind(item) {
        OutputKind::Reasoning => {
            lemma_reasoning_item(state, of, item, history, events, index);
        },
        OutputKind::Message => {
            lemma_message_item(state, of, item, history, events, index);
        },
        OutputKind::FunctionCall => {
            if !state.finished_functions.contains(of) {
                lemma_item_finished(state, of, item, history, events, index);
            }
        },
        OutputKind::Unsupported => {},
    }
}

/// The text of an output item after the output that ends a response.
pub open spec fn listed_text(before: Seq<char>, output: Seq<JsonModel>, index: usize) -> Seq<char> {
    if index < output.len() && output[index as int].str_at("type"@) == Some("message"@) {
        item_said(output[index as int])
    } else {
        before
    }
}

/// The reasoning of an output item after the output that ends a response.
pub open spec fn listed_reasoning(
    before: Seq<char>,
    output: Seq<JsonModel>,
    index: usize,
) -> Seq<char> {
    if index < output.len() && output[index as int].str_at("type"@) == Some("reasoning"@) {
        reasoning_settled(before, output[index as int])
    } else {
        before
    }
}

proof fn lemma_terminal_items(
    state: ResponsesModel,
    output: Seq<JsonModel>,
    start: int,
    history: Seq<GenerationEventModel>,
    events: Seq<GenerationEventModel>,
    index: usize,
)
    requires
        0 <= start <= output.len() <= usize::MAX,
        forall|j: usize| in_step(state, history + events, j),
        terminal_items(state, output, start, events).error is None,
    ensures
        ({
            let step = terminal_items(state, output, start, events);
            &&& forall|j: usize| in_step(step.state, history + step.events, j)
            &&& buffer_at(step.state.text_buffers, index) == if index < start {
                buffer_at(state.text_buffers, index)
            } else {
                listed_text(buffer_at(state.text_buffers, index), output, index)
            }
            &&& buffer_at(step.state.reasoning_buffers, index) == if index < start {
                buffer_at(state.reasoning_buffers, index)
            } else {
                listed_reasoning(buffer_at(state.reasoning_buffers, index), output, index)
            }
        }),
    decreases output.len() - start,
{
    if start < output.len() {
        let of = start as usize;
        let step = terminal_item(state, of, output[start], events);
        assert forall|j: usize| in_step(step.state, history + step.events, j) by {
            assert(in_step(state, history + events, j));
            assert(in_step(state, history + events, of));
            lemma_terminal_item(state, of, output[start], history, events, j);
        }
        assert(in_step(state, history + events, index));
        assert(in_step(state, history + events, of));
        lemma_terminal_item(state, of, output[start], history, events, index);
        lemma_terminal_items(step.state, output, start + 1, history, step.events, index);
    }
}

/// Events that say nothing.
proof fn lemma_ends_of_texts(
    state: ResponsesModel,
    all: Seq<GenerationEventModel>,
    more: Seq<GenerationEventModel>,
    index: usize,
)
    requires
        in_step(state, all, index),
        forall|k: int| 0 <= k < more.len() ==> (#[trigger] more[k]) is TextFinished,
    ensures
        in_step(state, all + more, index),
    decreases more.len(),
{
    if more.len() > 0 {
        let shorter = more.drop_last();
        assert forall|k: int| 0 <= k < shorter.len() implies (#[trigger] shorter[k]) is TextFinished by {
            assert(shorter[k] == more[k]);
        }
        lemma_ends_of_texts(state, all, shorter, index);
        assert(more[more.len() - 1] is TextFinished);
        let none = Seq::<GenerationEventModel>::empty();
        assert((all + shorter) + none =~= all + shorter);
        lemma_event(state, state, all + shorter, none, more.last(), index);
        assert((all + shorter) + none.push(more.last()) =~= all + more);
    } else {
        assert(all + more =~= all);
    }
}

/// The ends of reasoning, one after the other.
proof fn lemma_ends_of_reasonings(
    all: Seq<GenerationEventModel>,
    open: Seq<(usize, Seq<char>)>,
    more: Seq<GenerationEventModel>,
    n: int,
    index: usize,
)
    requires
        0 <= n <= more.len(),
        more.len() == open.len(),
        read_their_arguments(all),
        forall|k: int|
            0 <= k < more.len() ==> match #[trigger] more[k] {
                GenerationEventModel::ReasoningFinished { content_index, .. } => content_index
                    == open[k].0,
                _ => false,
            },
    ensures
        text_of_item(all + more.take(n), index) == text_of_item(all, index),
        reasoning_of_item(all + more.take(n), index) == reasoning_of_item(all, index),
        read_their_arguments(all + more.take(n)),
        finishes_a_call(all + more.take(n)) == finishes_a_call(all),
        reasoning_is_open(all + more.take(n), index) == (reasoning_is_open(all, index) && forall|
            k: int,
        |
            0 <= k < n ==> (#[trigger] open[k]).0 != index),
    decreases n,
{
    let longer = all + more.take(n);
    if n > 0 {
        lemma_ends_of_reasonings(all, open, more, n - 1, index);
        assert(longer.drop_last() =~= all + more.take(n - 1));
        assert(longer.last() == more[n - 1]);
        let before = all + more.take(n - 1);
        assert forall|k: int| 0 <= k < longer.len() implies reads_its_arguments(
            #[trigger] longer[k],
        ) by {
            if k < before.len() {
                assert(longer[k] == before[k]);
            }
        }
        if reasoning_is_open(longer, index) {
            assert forall|k: int| 0 <= k < n implies (#[trigger] open[k]).0 != index by {}
        }
    } else {
        assert(longer =~= all);
    }
}

#[verifier::rlimit(40)]
proof fn lemma_close_open_parts(
    state: ResponsesModel,
    history: Seq<GenerationEventModel>,
    events: Seq<GenerationEventModel>,
    index: usize,
)
    requires
        in_step(state, history + events, index),
    ensures
        ({
            let (after, reported) = close_open_parts(state, events);
            &&& in_step(after, history + reported, index)
            &&& after.text_buffers == state.text_buffers
            &&& after.reasoning_buffers == state.reasoning_buffers
        }),
{
    reveal(close_open_parts);
    let (after, reported) = close_open_parts(state, events);
    let texts = Seq::new(
        state.open_text.len(),
        |i: int|
            GenerationEventModel::TextFinished {
                content_index: state.open_text[i].0,
                id: state.open_text[i].1,
                replay: None,
            },
    );
    let reasonings = Seq::new(
        state.open_reasoning.len(),
        |i: int|
            GenerationEventModel::ReasoningFinished {
                content_index: state.open_reasoning[i].0,
                id: state.open_reasoning[i].1,
                replay: reasoning_metadata(state, state.open_reasoning[i].0),
            },
    );
    let all = history + events;
    lemma_ends_of_texts(state, all, texts, index);
    let n = reasonings.len() as int;
    lemma_ends_of_reasonings(all + texts, state.open_reasoning, reasonings, n, index);
    assert(reasonings.take(n) =~= reasonings);
    assert(history + reported =~= all + texts + reasonings);
    let open = state.open_reasoning;
    reveal(find);
    lemma_position_from(open, index, 0);
    if reasoning_is_open(all, index) {
        let at = position(open, index);
        assert(open[at].0 == index);
        let keys = Seq::new(open.len(), |i: int| open[i].0);
        assert(keys[at] == index);
        assert(keys.to_set().contains(index));
    }
}

#[verifier::rlimit(40)]
proof fn lemma_ends(
    state: ResponsesModel,
    value: JsonModel,
    status: ProtocolTerminalStatus,
    reason: Option<FinishReasonModel>,
    error: Option<GatewayErrorModel>,
    history: Seq<GenerationEventModel>,
    events: Seq<GenerationEventModel>,
    index: usize,
)
    requires
        forall|j: usize| in_step(state, history + events, j),
        listed(value).len() <= usize::MAX,
    ensures
        ({
            let over = ends(state, value, status, reason, error, events);
            match over.result {
                Err(_) => true,
                Ok(update) => {
                    &&& in_step(over.state, history + update.events, index)
                    &&& buffer_at(over.state.text_buffers, index) == listed_text(
                        buffer_at(state.text_buffers, index),
                        listed(value),
                        index,
                    )
                    &&& buffer_at(over.state.reasoning_buffers, index) == listed_reasoning(
                        buffer_at(state.reasoning_buffers, index),
                        listed(value),
                        index,
                    )
                },
            }
        }),
{
    reveal(ends);
    reveal(ended);
    reveal(capture_response);
    reveal(capture_terminal_output);
    let begun = capture_response(state, value);
    assert forall|j: usize| in_step(begun, history + events, j) by {
        assert(in_step(state, history + events, j));
        lemma_same(state, begun, history + events, j);
    }
    let step = capture_terminal_output(begun, value, events);
    if step.error is None {
        assert(forall|j: usize| in_step(step.state, history + step.events, j)) by {
            match value.get2("response"@, "output"@) {
                Some(JsonModel::Array(items)) => {
                    lemma_terminal_items(begun, items, 0, history, events, index);
                },
                _ => {},
            }
        }
        match value.get2("response"@, "output"@) {
            Some(JsonModel::Array(items)) => {
                lemma_terminal_items(begun, items, 0, history, events, index);
            },
            _ => {},
        }
        assert(in_step(step.state, history + step.events, index));
        let (closed, reported) = close_open_parts(step.state, step.events);
        lemma_close_open_parts(step.state, history, step.events, index);
        let (last, all) = ended(step.state, value, step.events);
        match terminal_usage(value) {
            Some(_) => {
                lemma_event(closed, last, history, reported, all.last(), index);
                assert(all =~= reported.push(all.last()));
            },
            None => {
                lemma_same(closed, last, history + reported, index);
            },
        }
    }
}

/// The output that an event lists.
pub open spec fn listed(value: JsonModel) -> Seq<JsonModel> {
    match value.get("response"@) {
        Some(response) => match response.get("output"@) {
            Some(JsonModel::Array(items)) => items,
            _ => Seq::empty(),
        },
        None => Seq::empty(),
    }
}

/// The output item that an event speaks of.
pub open spec fn speaks_of(value: JsonModel, index: usize) -> bool {
    match value.u64_at("output_index"@) {
        Some(n) => n as usize == index,
        None => index == 0,
    }
}

pub open spec fn item_in(value: JsonModel) -> JsonModel {
    match value.get("item"@) {
        Some(item) => item,
        None => JsonModel::Null,
    }
}

pub open spec fn delta_in(value: JsonModel) -> Seq<char> {
    match value.str_at("delta"@) {
        Some(delta) => delta,
        None => Seq::empty(),
    }
}

/// Whether an event ends the response.
pub open spec fn ends_the_response(kind: Seq<char>) -> bool {
    ||| kind == "response.completed"@
    ||| kind == "response.incomplete"@
    ||| kind == "response.failed"@
    ||| kind == "error"@
}

/// The text of an output item after an event: more of it, or the whole of it with its item, or with
/// the output that ends the response.
pub open spec fn text_after(
    before: Seq<char>,
    kind: Seq<char>,
    value: JsonModel,
    index: usize,
) -> Seq<char> {
    if kind == "response.output_text.delta"@ || kind == "response.refusal.delta"@ {
        if speaks_of(value, index) {
            before + delta_in(value)
        } else {
            before
        }
    } else if kind == "response.output_item.done"@ {
        if speaks_of(value, index) && item_in(value).str_at("type"@) == Some("message"@) {
            item_said(item_in(value))
        } else {
            before
        }
    } else if ends_the_response(kind) {
        listed_text(before, listed(value), index)
    } else {
        before
    }
}

/// The reasoning of an output item after an event: more of it, an empty line after a part of it that
/// is complete, or the whole of it with its item, or with the output that ends the response.
pub open spec fn reasoning_after(
    before: Seq<char>,
    is_open: bool,
    kind: Seq<char>,
    value: JsonModel,
    index: usize,
) -> Seq<char> {
    if kind == "response.reasoning_summary_text.delta"@ || kind == "response.reasoning_text.delta"@ {
        if speaks_of(value, index) {
            before + delta_in(value)
        } else {
            before
        }
    } else if kind == "response.reasoning_summary_part.done"@ {
        if speaks_of(value, index) && is_open {
            before + "\n\n"@
        } else {
            before
        }
    } else if kind == "response.output_item.done"@ {
        if speaks_of(value, index) && item_in(value).str_at("type"@) == Some("reasoning"@) {
            reasoning_settled(before, item_in(value))
        } else {
            before
        }
    } else if ends_the_response(kind) {
        listed_reasoning(before, listed(value), index)
    } else {
        before
    }
}

#[verifier::rlimit(60)]
proof fn lemma_dispatch(
    state: ResponsesModel,
    event: Seq<char>,
    value: JsonModel,
    data: Seq<char>,
    history: Seq<GenerationEventModel>,
    events: Seq<GenerationEventModel>,
    index: usize,
)
    requires
        forall|j: usize| in_step(state, history + events, j),
        listed(value).len() <= usize::MAX,
    ensures
        ({
            let step = dispatch(state, event, event_kind(event), value, data, events);
            match step.result {
                Err(_) => true,
                Ok(update) => {
                    &&& in_step(step.state, history + update.events, index)
                    &&& buffer_at(step.state.text_buffers, index) == text_after(
                        buffer_at(state.text_buffers, index),
                        event,
                        value,
                        index,
                    )
                    &&& buffer_at(step.state.reasoning_buffers, index) == reasoning_after(
                        buffer_at(state.reasoning_buffers, index),
                        reasoning_is_open(history + events, index),
                        event,
                        value,
                        index,
                    )
                },
            }
        }),
{
    reveal(dispatch);
    reveal(capture_response);
    events_are_known_by_their_names();
    let kind = event_kind(event);
    let step = dispatch(state, event, kind, value, data, events);
    let all = history + events;
    let of = index_of(value);
    assert(in_step(state, all, index));
    assert(in_step(state, all, of));
    match kind {
        EventKind::Created => {
            if !state.started {
                let begun = ResponsesModel { started: true, ..capture_response(state, value) };
                lemma_event(state, begun, history, events, started_event(begun), index);
            }
        },
        EventKind::InProgress => {
            lemma_same(state, step.state, all, index);
        },
        EventKind::ItemAdded => {
            if item_added(state, value, events).error is None {
                lemma_item_added(state, value, history, events, index);
            }
        },
        EventKind::TextDelta => {
            if text_delta(state, value, events).error is None {
                lemma_text_delta(state, value, history, events, index);
            }
        },
        EventKind::ReasoningDelta => {
            if reasoning_delta(state, value, events).error is None {
                lemma_reasoning_delta(state, value, history, events, index);
            }
        },
        EventKind::SummaryPartDone => {
            if summary_part_done(state, value, events).error is None {
                lemma_summary(state, value, history, events, index);
            }
        },
        EventKind::ArgumentsDelta => {
            lemma_functions(state, value, history, events, index);
        },
        EventKind::ArgumentsDone => {
            lemma_functions(state, value, history, events, index);
        },
        EventKind::ItemDone => {
            reveal(item_finished);
            match value.get("item"@) {
                Some(item) => {
                    if item_finished(state, of, Some(item), events).error is None {
                        lemma_item_finished(state, of, item, history, events, index);
                    }
                },
                None => {},
            }
        },
        EventKind::Completed => {
            lemma_ends(
                state,
                value,
                ProtocolTerminalStatus::Completed,
                None,
                None,
                history,
                events,
                index,
            );
        },
        EventKind::Incomplete => {
            lemma_any_end(state, value, history, events, index);
        },
        EventKind::Failed => {
            lemma_any_end(state, value, history, events, index);
        },
        _ => {},
    }
}

proof fn lemma_any_end(
    state: ResponsesModel,
    value: JsonModel,
    history: Seq<GenerationEventModel>,
    events: Seq<GenerationEventModel>,
    index: usize,
)
    requires
        forall|j: usize| in_step(state, history + events, j),
        listed(value).len() <= usize::MAX,
    ensures
        forall|
            status: ProtocolTerminalStatus,
            reason: Option<FinishReasonModel>,
            error: Option<GatewayErrorModel>,
        |
            match (#[trigger] ends(state, value, status, reason, error, events)).result {
                Err(_) => true,
                Ok(update) => {
                    let last = ends(state, value, status, reason, error, events).state;
                    &&& in_step(last, history + update.events, index)
                    &&& buffer_at(last.text_buffers, index) == listed_text(
                        buffer_at(state.text_buffers, index),
                        listed(value),
                        index,
                    )
                    &&& buffer_at(last.reasoning_buffers, index) == listed_reasoning(
                        buffer_at(state.reasoning_buffers, index),
                        listed(value),
                        index,
                    )
                },
            },
{
    assert forall|
        status: ProtocolTerminalStatus,
        reason: Option<FinishReasonModel>,
        error: Option<GatewayErrorModel>,
    |
        match (#[trigger] ends(state, value, status, reason, error, events)).result {
            Err(_) => true,
            Ok(update) => {
                let last = ends(state, value, status, reason, error, events).state;
                &&& in_step(last, history + update.events, index)
                &&& buffer_at(last.text_buffers, index) == listed_text(
                    buffer_at(state.text_buffers, index),
                    listed(value),
                    index,
                )
                &&& buffer_at(last.reasoning_buffers, index) == listed_reasoning(
                    buffer_at(state.reasoning_buffers, index),
                    listed(value),
                    index,
                )
            },
        } by {
        lemma_ends(state, value, status, reason, error, history, events, index);
    }
}

proof fn lemma_frame(
    state: ResponsesModel,
    data: Seq<char>,
    history: Seq<GenerationEventModel>,
    index: usize,
)
    requires
        forall|j: usize| in_step(state, history, j),
        match parsed_json(data) {
            Some(value) => listed(value).len() <= usize::MAX,
            None => true,
        },
    ensures
        match ingest(state, data).result {
            Err(_) => true,
            Ok(update) => {
                &&& parsed_json(data) is Some
                &&& parsed_json(data)->0.str_at("type"@) is Some
                &&& in_step(ingest(state, data).state, history + update.events, index)
                &&& text_of_item(history + update.events, index) == text_after(
                    text_of_item(history, index),
                    parsed_json(data)->0.str_at("type"@)->0,
                    parsed_json(data)->0,
                    index,
                )
                &&& reasoning_of_item(history + update.events, index) == reasoning_after(
                    reasoning_of_item(history, index),
                    reasoning_is_open(history, index),
                    parsed_json(data)->0.str_at("type"@)->0,
                    parsed_json(data)->0,
                    index,
                )
            },
        },
{
    reveal(capture_response);
    let none = Seq::<GenerationEventModel>::empty();
    assert(history + none =~= history);
    assert(in_step(state, history, index));
    match parsed_json(data) {
        None => {},
        Some(value) => match value.str_at("type"@) {
            None => {},
            Some(event) => {
                let begun = ResponsesModel { started: true, ..capture_response(state, value) };
                let first = seq![started_event(begun)];
                assert(first =~= none.push(started_event(begun)));
                assert forall|j: usize| in_step(begun, history + first, j) by {
                    assert(in_step(state, history, j));
                    lemma_event(state, begun, history, none, started_event(begun), j);
                }
                lemma_dispatch(begun, event, value, data, history, first, index);
                lemma_dispatch(state, event, value, data, history, none, index);
                assert((history + first).drop_last() =~= history);
            },
        },
    }
}

/// The frames of a stream from position `start` on: the session after them and what they report, or
/// nothing if one of them is refused.
pub open spec fn stream_run(state: ResponsesModel, frames: Seq<Seq<char>>, start: int) -> Option<
    (ResponsesModel, Seq<GenerationEventModel>),
>
    decreases frames.len() - start,
{
    if start < 0 || start >= frames.len() {
        Some((state, Seq::empty()))
    } else {
        let step = ingest(state, frames[start]);
        match step.result {
            Err(_) => None,
            Ok(update) => match stream_run(step.state, frames, start + 1) {
                None => None,
                Some((last, rest)) => Some((last, update.events + rest)),
            },
        }
    }
}

/// Whether a frame lists no more output than can be counted.
pub open spec fn is_countable(data: Seq<char>) -> bool {
    match parsed_json(data) {
        Some(value) => listed(value).len() <= usize::MAX,
        None => true,
    }
}

proof fn lemma_run(
    state: ResponsesModel,
    frames: Seq<Seq<char>>,
    start: int,
    history: Seq<GenerationEventModel>,
)
    requires
        0 <= start,
        forall|j: usize| in_step(state, history, j),
        forall|k: int| 0 <= k < frames.len() ==> is_countable(#[trigger] frames[k]),
    ensures
        match stream_run(state, frames, start) {
            Some((last, events)) => forall|j: usize| in_step(last, history + events, j),
            None => true,
        },
    decreases frames.len() - start,
{
    assert(history + Seq::<GenerationEventModel>::empty() =~= history);
    if start < frames.len() {
        let data = frames[start];
        let step = ingest(state, data);
        assert(is_countable(data));
        match step.result {
            Err(_) => {},
            Ok(update) => {
                let told = history + update.events;
                assert forall|j: usize| in_step(step.state, told, j) by {
                    lemma_frame(state, data, history, j);
                }
                lemma_run(step.state, frames, start + 1, told);
                match stream_run(step.state, frames, start + 1) {
                    None => {},
                    Some((last, rest)) => {
                        assert(told + rest =~= history + (update.events + rest));
                    },
                }
            },
        }
    }
}

/// After the frames of a stream that are accepted, one more that is accepted tells exactly what it
/// says of each output item: the text and the reasoning that are reported of it go on by what the
/// frame adds, or come to what the frame gives as the whole, and everything else stays. The
/// arguments of every tool call are read as the JSON that they are.
pub proof fn streams_tell_what_was_said(
    compatibility: CompatibilityProfile,
    frames: Seq<Seq<char>>,
    data: Seq<char>,
    index: usize,
)
    requires
        forall|k: int| 0 <= k < frames.len() ==> is_countable(#[trigger] frames[k]),
        is_countable(data),
    ensures
        match stream_run(fresh(compatibility), frames, 0) {
            None => true,
            Some((state, events)) => match ingest(state, data).result {
                Err(_) => true,
                Ok(update) => {
                    let all = events + update.events;
                    &&& parsed_json(data) is Some
                    &&& parsed_json(data)->0.str_at("type"@) is Some
                    &&& text_of_item(all, index) == text_after(
                        text_of_item(events, index),
                        parsed_json(data)->0.str_at("type"@)->0,
                        parsed_json(data)->0,
                        index,
                    )
                    &&& reasoning_of_item(all, index) == reasoning_after(
                        reasoning_of_item(events, index),
                        reasoning_is_open(events, index),
                        parsed_json(data)->0.str_at("type"@)->0,
                        parsed_json(data)->0,
                        index,
                    )
                    &&& read_their_arguments(all)
                },
            },
        },
{
    let none = Seq::<GenerationEventModel>::empty();
    let state = fresh(compatibility);
    assert forall|j: usize| in_step(state, none, j) by {
        reveal(find);
    }
    lemma_run(state, frames, 0, none);
    match stream_run(state, frames, 0) {
        None => {},
        Some((last, events)) => {
            assert(none + events =~= events);
            lemma_frame(last, data, events, index);
        },
    }
}

/// A string member, or nothing to read.
pub open spec fn string_in(value: JsonModel, key: Seq<char>) -> Seq<char> {
    match value.str_at(key) {
        Some(text) => text,
        None => Seq::empty(),
    }
}

/// Whether an identifier is the one that a provider gave a call, or one made from its place where it
/// gave none.
pub open spec fn is_call_id(id: Seq<char>, given: Seq<char>, index: usize) -> bool {
    if given.len() > 0 {
        id == given
    } else {
        id == "call-"@ + decimal_digits(index as nat)
    }
}

/// The item of a function call starts the call: under its name and its identifier, with the
/// arguments that it may carry already.
pub proof fn items_start_calls(
    state: ResponsesModel,
    data: Seq<char>,
    value: JsonModel,
    index: usize,
)
    requires
        state.started,
        parsed_json(data) == Some(value),
        value.str_at("type"@) == Some("response.output_item.added"@),
        speaks_of(value, index),
        item_in(value).str_at("type"@) == Some("function_call"@),
        ingest(state, data).result is Ok,
    ensures
        ({
            let item = item_in(value);
            let after = ingest(state, data).state;
            let events = ingest(state, data).result->Ok_0.events;
            let function = find(after.functions, index);
            &&& events.len() > 0
            &&& match events.last() {
                GenerationEventModel::ToolCallStarted { content_index, index: i, id, name } => {
                    &&& content_index == index && i == index
                    &&& name == string_in(item, "name"@)
                    &&& is_call_id(id, string_in(item, "call_id"@), index)
                },
                _ => false,
            }
            &&& sorted(state.functions) ==> {
                &&& function is Some
                &&& function->0.name == string_in(item, "name"@)
                &&& function->0.call_id == string_in(item, "call_id"@)
                &&& function->0.item_id == string_in(item, "id"@)
                &&& function->0.arguments == string_in(item, "arguments"@)
            }
        }),
{
    events_are_known_by_their_names();
    reveal(dispatch);
    reveal(item_added);
    reveal_strlit("message");
    reveal_strlit("reasoning");
    reveal_strlit("function_call");
    assert("message"@.len() == 7 && "reasoning"@.len() == 9 && "function_call"@.len() == 13);
    let item = item_in(value);
    assert(item_kind(item) == OutputKind::FunctionCall);
    let known = ResponsesModel {
        output_kinds: put(state.output_kinds, index, item_kind(item)),
        ..state
    };
    let none = Seq::<GenerationEventModel>::empty();
    let (next, _) = finish_other_reasoning(known, index, none);
    lemma_functions_stay(known, index, none);
    if sorted(state.functions) {
        let function = FunctionModel {
            item_id: string_in(item, "id"@),
            call_id: string_in(item, "call_id"@),
            name: string_in(item, "name"@),
            arguments: string_in(item, "arguments"@),
            started: true,
        };
        find_after_put(next.functions, index, function, index);
    }
}

proof fn lemma_functions_stay_each(
    state: ResponsesModel,
    indices: Seq<usize>,
    start: int,
    events: Seq<GenerationEventModel>,
)
    ensures
        finish_each(state, indices, start, events).0.functions == state.functions,
        finish_each(state, indices, start, events).0.finished_functions == state.finished_functions,
    decreases indices.len() - start,
{
    if 0 <= start < indices.len() {
        reveal(finish_reasoning);
        let (next, reported) = finish_reasoning(state, indices[start], events);
        lemma_functions_stay_each(next, indices, start + 1, reported);
    }
}

proof fn lemma_functions_stay(
    state: ResponsesModel,
    of: usize,
    events: Seq<GenerationEventModel>,
)
    ensures
        finish_other_reasoning(state, of, events).0.functions == state.functions,
        finish_other_reasoning(state, of, events).0.finished_functions == state.finished_functions,
{
    reveal(finish_other_reasoning);
    lemma_functions_stay_each(state, keys_except(state.open_reasoning, of, 0), 0, events);
}

/// More arguments of a call are reported as they come, and put to those that are there. The complete
/// arguments take their place.
pub proof fn arguments_are_collected(
    state: ResponsesModel,
    data: Seq<char>,
    value: JsonModel,
    index: usize,
    function: FunctionModel,
)
    requires
        state.started,
        parsed_json(data) == Some(value),
        speaks_of(value, index),
        sorted(state.functions),
        find(state.functions, index) == Some(function),
        function.started,
        ingest(state, data).result is Ok,
    ensures
        ({
            let after = find(ingest(state, data).state.functions, index);
            let events = ingest(state, data).result->Ok_0.events;
            &&& value.str_at("type"@) == Some("response.function_call_arguments.delta"@) ==> {
                &&& value.str_at("delta"@) is Some
                &&& events == seq![
                    GenerationEventModel::ToolCallDelta {
                        content_index: index,
                        index,
                        delta: value.str_at("delta"@)->0,
                    },
                ]
                &&& after == Some(
                    FunctionModel {
                        arguments: function.arguments + value.str_at("delta"@)->0,
                        ..function
                    },
                )
            }
            &&& value.str_at("type"@) == Some("response.function_call_arguments.done"@) ==> {
                &&& value.str_at("arguments"@) is Some
                &&& events.len() == 0
                &&& after == Some(
                    FunctionModel { arguments: value.str_at("arguments"@)->0, ..function },
                )
            }
        }),
{
    events_are_known_by_their_names();
    reveal(dispatch);
    reveal(function_delta);
    reveal(function_done);
    let delta = string_in(value, "delta"@);
    let arguments = string_in(value, "arguments"@);
    let longer = FunctionModel { arguments: function.arguments + delta, ..function };
    let whole = FunctionModel { arguments, ..function };
    find_after_put(state.functions, index, longer, index);
    find_after_put(state.functions, index, whole, index);
    if value.str_at("type"@) == Some("response.function_call_arguments.delta"@) {
        let events = ingest(state, data).result->Ok_0.events;
        assert(events =~= seq![
            GenerationEventModel::ToolCallDelta { content_index: index, index, delta },
        ]);
    }
}

/// The complete item of a function call finishes the call, with the arguments of the item, or else
/// with those that were collected, and under the name and the identifiers that it had, or else those
/// of the item. The arguments are read as the JSON that they are.
pub proof fn items_finish_calls(
    state: ResponsesModel,
    data: Seq<char>,
    value: JsonModel,
    index: usize,
)
    requires
        state.started,
        parsed_json(data) == Some(value),
        value.str_at("type"@) == Some("response.output_item.done"@),
        speaks_of(value, index),
        item_in(value).str_at("type"@) == Some("function_call"@),
        !state.finished_functions.contains(index),
        ingest(state, data).result is Ok,
    ensures
        ({
            let item = item_in(value);
            let events = ingest(state, data).result->Ok_0.events;
            let known = match find(state.functions, index) {
                Some(function) => function,
                None => FunctionModel {
                    item_id: Seq::empty(),
                    call_id: Seq::empty(),
                    name: Seq::empty(),
                    arguments: Seq::empty(),
                    started: false,
                },
            };
            let call_id = if known.call_id.len() > 0 {
                known.call_id
            } else {
                string_in(item, "call_id"@)
            };
            let item_id = if known.item_id.len() > 0 {
                known.item_id
            } else {
                string_in(item, "id"@)
            };
            &&& events.len() > 0
            &&& match events.last() {
                GenerationEventModel::ToolCallFinished { content_index, index: i, tool_call } => {
                    &&& content_index == index && i == index
                    &&& tool_call.raw_arguments == match item.str_at("arguments"@) {
                        Some(arguments) => arguments,
                        None => known.arguments,
                    }
                    &&& tool_call.name == if known.name.len() > 0 {
                        known.name
                    } else {
                        string_in(item, "name"@)
                    }
                    &&& is_call_id(tool_call.id, call_id, index)
                    &&& tool_call.provider_metadata.responses is Some
                    &&& tool_call.provider_metadata.responses->0.call_id == if call_id.len() > 0 {
                        Some(call_id)
                    } else {
                        None
                    }
                    &&& tool_call.provider_metadata.responses->0.item_id == if item_id.len() > 0 {
                        Some(item_id)
                    } else {
                        None
                    }
                },
                _ => false,
            }
            &&& reads_its_arguments(events.last())
            &&& ingest(state, data).state.finished_functions == state.finished_functions.insert(
                index,
            )
        }),
{
    events_are_known_by_their_names();
    reveal(dispatch);
    reveal(item_finished);
    reveal_strlit("message");
    reveal_strlit("reasoning");
    reveal_strlit("function_call");
    assert("message"@.len() == 7 && "reasoning"@.len() == 9 && "function_call"@.len() == 13);
    let item = item_in(value);
    assert(item_kind(item) == OutputKind::FunctionCall);
    let known = ResponsesModel {
        output_kinds: put(state.output_kinds, index, item_kind(item)),
        ..state
    };
    lemma_functions_stay(known, index, Seq::empty());
}

/// Whether usage is what a usage object counts.
pub open spec fn counts(usage: Usage, object: JsonModel) -> bool {
    let input = or_zero(object.u64_at("input_tokens"@));
    let output = or_zero(object.u64_at("output_tokens"@));
    let read = or_zero(object.u64_at2("input_tokens_details"@, "cached_tokens"@));
    let written = or_zero(object.u64_at2("input_tokens_details"@, "cache_write_tokens"@));
    &&& usage.provenance == UsageProvenance::Reported
    &&& usage.cache_read_tokens == read
    &&& usage.cache_write_tokens == written
    &&& usage.input_tokens == if input >= read + written {
        input - read - written
    } else {
        0
    }
    &&& usage.output_tokens == output
    &&& usage.reasoning_tokens == or_zero(
        object.u64_at2("output_tokens_details"@, "reasoning_tokens"@),
    )
    &&& usage.total_tokens == match object.u64_at("total_tokens"@) {
        Some(n) => n as int,
        None => at_most_u64(input + output),
    }
}

/// The usage object of an event that ends a response.
pub open spec fn usage_in(value: JsonModel) -> Option<JsonModel> {
    let inner = match value.get("response"@) {
        Some(response) => response.get("usage"@),
        None => None,
    };
    let usage = match inner {
        Some(usage) => Some(usage),
        None => value.get("usage"@),
    };
    match usage {
        Some(JsonModel::Object(members)) => Some(JsonModel::Object(members)),
        _ => None,
    }
}

/// What an event calls the response, or what it was called before.
pub open spec fn called(before: Option<Seq<char>>, value: JsonModel, key: Seq<char>) -> Option<
    Seq<char>,
> {
    let response = match value.get("response"@) {
        Some(response) => response,
        None => value,
    };
    match response.str_at(key) {
        Some(name) => Some(name),
        None => before,
    }
}

proof fn lemma_identity_each(
    state: ResponsesModel,
    indices: Seq<usize>,
    start: int,
    events: Seq<GenerationEventModel>,
)
    ensures
        same_identity(state, finish_each(state, indices, start, events).0),
    decreases indices.len() - start,
{
    if 0 <= start < indices.len() {
        reveal(finish_reasoning);
        let (next, reported) = finish_reasoning(state, indices[start], events);
        lemma_identity_each(next, indices, start + 1, reported);
    }
}

spec fn same_identity(before: ResponsesModel, after: ResponsesModel) -> bool {
    &&& after.response_id == before.response_id
    &&& after.upstream_model == before.upstream_model
    &&& after.usage == before.usage
}

#[verifier::rlimit(40)]
proof fn lemma_identity_item(
    state: ResponsesModel,
    of: usize,
    item: JsonModel,
    events: Seq<GenerationEventModel>,
)
    ensures
        same_identity(state, terminal_item(state, of, item, events).state),
{
    reveal(finish_reasoning);
    reveal(capture_reasoning_replay);
    reveal(item_finished);
    reveal(finish_other_reasoning);
    let known = ResponsesModel {
        output_kinds: put(state.output_kinds, of, item_kind(item)),
        ..state
    };
    lemma_identity_each(known, keys_except(known.open_reasoning, of, 0), 0, events);
}

proof fn lemma_identity_items(
    state: ResponsesModel,
    output: Seq<JsonModel>,
    start: int,
    events: Seq<GenerationEventModel>,
)
    ensures
        same_identity(state, terminal_items(state, output, start, events).state),
    decreases output.len() - start,
{
    if 0 <= start < output.len() {
        let step = terminal_item(state, start as usize, output[start], events);
        lemma_identity_item(state, start as usize, output[start], events);
        if step.error.is_none() {
            lemma_identity_items(step.state, output, start + 1, step.events);
        }
    }
}

/// The end of a response sums it up: how it ended, what it used, and what it is called. It stopped
/// for tool calls where a call was finished, and by itself where none was.
#[verifier::rlimit(40)]
pub proof fn the_end_sums_up_the_response(
    compatibility: CompatibilityProfile,
    frames: Seq<Seq<char>>,
    data: Seq<char>,
    value: JsonModel,
)
    requires
        forall|k: int| 0 <= k < frames.len() ==> is_countable(#[trigger] frames[k]),
        is_countable(data),
        parsed_json(data) == Some(value),
        value.str_at("type"@) is Some,
        ends_the_response(value.str_at("type"@)->0),
    ensures
        match stream_run(fresh(compatibility), frames, 0) {
            None => true,
            Some((state, events)) => match ingest(state, data).result {
                Err(_) => true,
                Ok(update) => {
                    let kind = value.str_at("type"@)->0;
                    let terminal = update.terminal->0;
                    &&& update.terminal is Some
                    &&& terminal.response_id == called(state.response_id, value, "id"@)
                    &&& terminal.upstream_model == called(state.upstream_model, value, "model"@)
                    &&& match usage_in(value) {
                        Some(object) => {
                            &&& counts(terminal.usage, object)
                            &&& update.events.len() > 0
                            &&& update.events.last() == GenerationEventModel::UsageUpdated(
                                terminal.usage,
                            )
                        },
                        None => terminal.usage == state.usage,
                    }
                    &&& kind == "response.completed"@ ==> {
                        &&& terminal.status == ProtocolTerminalStatus::Completed
                        &&& terminal.error is None
                        &&& terminal.finish_reason == if finishes_a_call(events + update.events) {
                            FinishReasonModel::ToolCalls
                        } else {
                            FinishReasonModel::Stop
                        }
                    }
                    &&& kind != "response.completed"@ ==> {
                        &&& terminal.status == ProtocolTerminalStatus::Failed
                        &&& terminal.error is Some
                    }
                    &&& kind == "response.incomplete"@ ==> terminal.finish_reason is Incomplete
                },
            },
        },
{
    let none = Seq::<GenerationEventModel>::empty();
    let fresh_state = fresh(compatibility);
    assert forall|j: usize| in_step(fresh_state, none, j) by {
        reveal(find);
    }
    lemma_run(fresh_state, frames, 0, none);
    events_are_known_by_their_names();
    match stream_run(fresh_state, frames, 0) {
        None => {},
        Some((state, events)) => {
            assert(none + events =~= events);
            assert(in_step(state, events, 0));
            lemma_frame(state, data, events, 0);
            lemma_end(state, data, value);
        },
    }
}

#[verifier::rlimit(40)]
proof fn lemma_end(state: ResponsesModel, data: Seq<char>, value: JsonModel)
    requires
        parsed_json(data) == Some(value),
        value.str_at("type"@) is Some,
        ends_the_response(value.str_at("type"@)->0),
    ensures
        match ingest(state, data).result {
            Err(_) => true,
            Ok(update) => {
                let kind = value.str_at("type"@)->0;
                let terminal = update.terminal->0;
                let last = ingest(state, data).state;
                &&& update.terminal is Some
                &&& terminal.response_id == called(state.response_id, value, "id"@)
                &&& terminal.upstream_model == called(state.upstream_model, value, "model"@)
                &&& match usage_in(value) {
                    Some(object) => {
                        &&& counts(terminal.usage, object)
                        &&& update.events.len() > 0
                        &&& update.events.last() == GenerationEventModel::UsageUpdated(
                            terminal.usage,
                        )
                    },
                    None => terminal.usage == state.usage,
                }
                &&& kind == "response.completed"@ ==> {
                    &&& terminal.status == ProtocolTerminalStatus::Completed
                    &&& terminal.error is None
                    &&& terminal.finish_reason == if last.finished_functions
                        == Set::<usize>::empty() {
                        FinishReasonModel::Stop
                    } else {
                        FinishReasonModel::ToolCalls
                    }
                }
                &&& kind != "response.completed"@ ==> {
                    &&& terminal.status == ProtocolTerminalStatus::Failed
                    &&& terminal.error is Some
                }
                &&& kind == "response.incomplete"@ ==> terminal.finish_reason is Incomplete
            },
        },
{
    events_are_known_by_their_names();
    reveal(dispatch);
    reveal(ends);
    reveal(ended);
    reveal(capture_response);
    reveal(capture_terminal_output);
    reveal(close_open_parts);
    reveal_strlit("response.completed");
    reveal_strlit("response.incomplete");
    reveal_strlit("response.failed");
    reveal_strlit("error");
    assert("response.completed"@.len() == 18 && "response.incomplete"@.len() == 19
        && "response.failed"@.len() == 15 && "error"@.len() == 5);
    match usage_in(value) {
        Some(object) => {
            assert(terminal_usage(value) == Some(object));
            assert(counts(responses_usage(object), object)) by {
                reveal(responses_usage);
            }
        },
        None => {
            assert(terminal_usage(value) is None);
        },
    }
    let begun = ResponsesModel { started: true, ..capture_response(state, value) };
    let output = listed(value);
    lemma_identity_items(capture_response(state, value), output, 0, Seq::empty());
    lemma_identity_items(capture_response(begun, value), output, 0, seq![started_event(begun)]);
}

/// What an event hands over of the reasoning of an output item, for a later request.
pub open spec fn handed_over(event: GenerationEventModel, index: usize) -> Option<
    ProviderMetadataModel,
> {
    match event {
        GenerationEventModel::ReasoningFinished { content_index, replay, .. } => if content_index
            == index {
            replay
        } else {
            None
        },
        GenerationEventModel::ReasoningSnapshotUpdated { content_index, reasoning, .. } =>
        if content_index == index {
            reasoning.replay
        } else {
            None
        },
        _ => None,
    }
}

/// The complete item of reasoning hands over what the provider wants back of it: its encrypted form,
/// as it came, and the identifier of the item.
#[verifier::rlimit(40)]
pub proof fn items_hand_reasoning_over(
    state: ResponsesModel,
    data: Seq<char>,
    value: JsonModel,
    index: usize,
)
    requires
        state.started,
        parsed_json(data) == Some(value),
        value.str_at("type"@) == Some("response.output_item.done"@),
        speaks_of(value, index),
        item_in(value).str_at("type"@) == Some("reasoning"@),
        string_in(item_in(value), "encrypted_content"@).len() > 0,
        !state.finished_reasoning.contains(index),
        sorted(state.reasoning_replay),
        find(state.output_kinds, index) is Some,
        ingest(state, data).result is Ok,
    ensures
        ({
            let item = item_in(value);
            let events = ingest(state, data).result->Ok_0.events;
            &&& events.len() > 0
            &&& handed_over(events.last(), index) is Some
            &&& handed_over(events.last(), index)->0.responses is Some
            &&& handed_over(events.last(), index)->0.responses->0.encrypted_reasoning
                == item.str_at("encrypted_content"@)
            &&& string_in(item, "id"@).len() > 0 ==> handed_over(
                events.last(),
                index,
            )->0.responses->0.item_id == item.str_at("id"@)
        }),
{
    events_are_known_by_their_names();
    let item = item_in(value);
    lemma_kinds(item);
    lemma_handed(state, index, item, Seq::empty());
    assert(ingest(state, data).result->Ok_0.events == capture_reasoning_item(
        state,
        index,
        item,
        Seq::empty(),
    ).1) by {
        reveal(dispatch);
        reveal(item_finished);
    }
}

spec fn hands_over(event: GenerationEventModel, item: JsonModel, index: usize) -> bool {
    &&& handed_over(event, index) is Some
    &&& handed_over(event, index)->0.responses is Some
    &&& handed_over(event, index)->0.responses->0.encrypted_reasoning == item.str_at(
        "encrypted_content"@,
    )
    &&& string_in(item, "id"@).len() > 0 ==> handed_over(event, index)->0.responses->0.item_id
        == item.str_at("id"@)
}

#[verifier::rlimit(40)]
proof fn lemma_handed(
    state: ResponsesModel,
    index: usize,
    item: JsonModel,
    events: Seq<GenerationEventModel>,
)
    requires
        string_in(item, "encrypted_content"@).len() > 0,
        !state.finished_reasoning.contains(index),
        sorted(state.reasoning_replay),
    ensures
        ({
            let all = capture_reasoning_item(state, index, item, events).1;
            all.len() > 0 && hands_over(all.last(), item, index)
        }),
{
    reveal(finish_reasoning);
    reveal(capture_reasoning_replay);
    let replay = updated_replay(replay_at(state, index), item);
    find_after_put(state.reasoning_replay, index, replay, index);
    let captured = capture_reasoning_replay(state, index, item);
    assert(reasoning_metadata(captured, index) == Some(
        ProviderMetadataModel { chat: None, responses: Some(replay) },
    ));
    assert(replay.encrypted_reasoning == item.str_at("encrypted_content"@));
    assert(string_in(item, "id"@).len() > 0 ==> replay.item_id == item.str_at("id"@));
    let (after, all) = capture_reasoning_item(state, index, item, events);
    assert(handed_over(all.last(), index) == reasoning_metadata(captured, index));
}

/// The complete item of a message finishes its text, with the identifier that the provider knows it
/// by.
pub proof fn items_finish_texts(
    state: ResponsesModel,
    data: Seq<char>,
    value: JsonModel,
    index: usize,
)
    requires
        state.started,
        parsed_json(data) == Some(value),
        value.str_at("type"@) == Some("response.output_item.done"@),
        speaks_of(value, index),
        item_in(value).str_at("type"@) == Some("message"@),
        item_said(item_in(value)).len() > 0,
        !state.finished_text.contains(index),
        find(state.output_kinds, index) is Some,
        ingest(state, data).result is Ok,
    ensures
        ({
            let id = string_in(item_in(value), "id"@);
            let events = ingest(state, data).result->Ok_0.events;
            &&& events.len() > 0
            &&& match events.last() {
                GenerationEventModel::TextFinished { content_index, replay, .. } => {
                    &&& content_index == index
                    &&& id.len() == 0 ==> replay is None
                    &&& id.len() > 0 ==> {
                        &&& replay is Some
                        &&& replay->0.responses is Some
                        &&& replay->0.responses->0.message_id == Some(id)
                    }
                },
                _ => false,
            }
        }),
{
    events_are_known_by_their_names();
    reveal(dispatch);
    reveal(item_finished);
    let item = item_in(value);
    lemma_kinds(item);
    match item.array_at("content"@) {
        Some(parts) => {
            assert(parts.take(0).len() == 0);
            lemma_message_said(parts, 0, Seq::empty());
        },
        None => {},
    }
}

} // verus!
