//! How the blocks of a Responses stream end.

use vstd::prelude::*;

use crate::json::{parsed_json, JsonModel};
use crate::llm::error::GatewayErrorModel;
use crate::llm::event::{FinishReasonModel, GenerationEventModel};
use crate::llm::model::ProviderMetadataModel;
use crate::llm::protocol::responses::model::{
    authoritative_text, buffer_at, capture_message_item, capture_reasoning_item,
    capture_reasoning_replay, capture_response, capture_terminal_output, capture_text,
    close_open_parts, completed_function, dispatch, emit_function, ended, ends, finish_each,
    finish_other_reasoning, finish_reasoning, fresh, function_at, function_delta, function_done,
    function_started, ingest, ingest_value, item_added, item_content, item_finished, keys,
    keys_except, may_come_first, message_text, open_item, reasoning_delta, reasoning_id,
    reasoning_metadata, started_event, summary_part_done, terminal_item, terminal_items,
    terminal_usage, text_delta, text_id, FunctionModel, ResponsesModel,
};
use crate::llm::protocol::responses::wire::{
    event_kind, index_of, item_kind, EventKind, OutputKind,
};
use crate::llm::protocol::{CompatibilityProfile, ProtocolTerminalStatus};
use crate::ordered::{
    find, lemma_position_from, position, put, put_keeps_order, sorted, without,
    without_keeps_order,
};
use crate::text::without_prefix;

verus! {

/// The three kinds of blocks.
pub enum BlockKind {
    Text,
    Reasoning,
    ToolCall,
}

/// The block that an event ends.
pub open spec fn end_of(event: GenerationEventModel) -> Option<(BlockKind, usize)> {
    match event {
        GenerationEventModel::TextFinished { content_index, .. } => Some(
            (BlockKind::Text, content_index),
        ),
        GenerationEventModel::ReasoningFinished { content_index, .. } => Some(
            (BlockKind::Reasoning, content_index),
        ),
        GenerationEventModel::ToolCallFinished { content_index, .. } => Some(
            (BlockKind::ToolCall, content_index),
        ),
        _ => None,
    }
}

/// Whether the session holds a block for ended.
pub open spec fn has_ended(state: ResponsesModel, block: (BlockKind, usize)) -> bool {
    match block.0 {
        BlockKind::Text => state.finished_text.contains(block.1),
        BlockKind::Reasoning => state.finished_reasoning.contains(block.1),
        BlockKind::ToolCall => state.finished_functions.contains(block.1),
    }
}

/// Whether no block ends twice.
pub open spec fn ends_once(events: Seq<GenerationEventModel>) -> bool {
    forall|j: int, k: int|
        0 <= j < k < events.len() && end_of(#[trigger] events[j]) is Some ==> end_of(events[j])
            != end_of(#[trigger] events[k])
}

/// Whether the session knows of every block that has ended.
pub open spec fn knows_ends(state: ResponsesModel, events: Seq<GenerationEventModel>) -> bool {
    forall|k: int|
        0 <= k < events.len() && end_of(#[trigger] events[k]) is Some ==> has_ended(
            state,
            end_of(events[k])->0,
        )
}

/// Whether an open block is listed once, and has not ended.
pub open spec fn open_blocks_wf(open: Seq<(usize, Seq<char>)>, finished: Set<usize>) -> bool {
    &&& sorted(open)
    &&& forall|k: int| 0 <= k < open.len() ==> !finished.contains((#[trigger] open[k]).0)
}

pub open spec fn blocks_wf(state: ResponsesModel) -> bool {
    &&& open_blocks_wf(state.open_text, state.finished_text)
    &&& open_blocks_wf(state.open_reasoning, state.finished_reasoning)
}

/// What holds of a session and of everything that it has reported.
pub open spec fn well_told(
    state: ResponsesModel,
    history: Seq<GenerationEventModel>,
    events: Seq<GenerationEventModel>,
) -> bool {
    &&& ends_once(history + events)
    &&& knows_ends(state, history + events)
    &&& blocks_wf(state)
}

/// Whether what has ended before has ended after.
pub open spec fn keeps_ends(before: ResponsesModel, after: ResponsesModel) -> bool {
    &&& before.finished_text.subset_of(after.finished_text)
    &&& before.finished_reasoning.subset_of(after.finished_reasoning)
    &&& before.finished_functions.subset_of(after.finished_functions)
}

proof fn lemma_state(
    before: ResponsesModel,
    after: ResponsesModel,
    history: Seq<GenerationEventModel>,
    events: Seq<GenerationEventModel>,
)
    requires
        well_told(before, history, events),
        keeps_ends(before, after),
        blocks_wf(after),
    ensures
        well_told(after, history, events),
{
    let all = history + events;
    assert forall|k: int| 0 <= k < all.len() && end_of(#[trigger] all[k]) is Some implies has_ended(
        after,
        end_of(all[k])->0,
    ) by {
        assert(has_ended(before, end_of(all[k])->0));
    }
}

/// One more event, which ends nothing, or a block that had not ended.
proof fn lemma_event(
    before: ResponsesModel,
    after: ResponsesModel,
    history: Seq<GenerationEventModel>,
    events: Seq<GenerationEventModel>,
    event: GenerationEventModel,
)
    requires
        well_told(before, history, events),
        keeps_ends(before, after),
        blocks_wf(after),
        match end_of(event) {
            Some(block) => !has_ended(before, block) && has_ended(after, block),
            None => true,
        },
    ensures
        well_told(after, history, events.push(event)),
{
    lemma_state(before, after, history, events);
    let all = history + events;
    let longer = history + events.push(event);
    assert(longer =~= all.push(event));
    assert forall|j: int, k: int|
        0 <= j < k < longer.len() && end_of(#[trigger] longer[j]) is Some implies end_of(longer[j])
        != end_of(#[trigger] longer[k]) by {
        assert(longer[j] == all[j]);
        if k < all.len() {
            assert(longer[k] == all[k]);
        } else {
            assert(has_ended(before, end_of(all[j])->0));
        }
    }
    assert forall|k: int| 0 <= k < longer.len() && end_of(#[trigger] longer[k]) is Some implies has_ended(
        after,
        end_of(longer[k])->0,
    ) by {
        if k < all.len() {
            assert(longer[k] == all[k]);
            assert(has_ended(before, end_of(all[k])->0));
        }
    }
}

/// Opening a block that has not ended.
proof fn lemma_open(
    open: Seq<(usize, Seq<char>)>,
    finished: Set<usize>,
    index: usize,
    id: Seq<char>,
)
    requires
        open_blocks_wf(open, finished),
        !finished.contains(index),
    ensures
        open_blocks_wf(put(open, index, id), finished),
{
    put_keeps_order(open, index, id);
    reveal(put);
    lemma_position_from(open, index, 0);
    let next = put(open, index, id);
    let at = position(open, index);
    assert forall|k: int| 0 <= k < next.len() implies !finished.contains((#[trigger] next[k]).0) by {
        if at < open.len() && open[at].0 == index {
            if k != at {
                assert(next[k] == open[k]);
            }
        } else if k < at {
            assert(next[k] == open[k]);
        } else if k > at {
            assert(next[k] == open[k - 1]);
        }
    }
}

/// Closing a block.
proof fn lemma_close(open: Seq<(usize, Seq<char>)>, finished: Set<usize>, index: usize)
    requires
        open_blocks_wf(open, finished),
    ensures
        open_blocks_wf(without(open, index), finished.insert(index)),
        forall|k: int|
            0 <= k < without(open, index).len() ==> {
                &&& (#[trigger] without(open, index)[k]).0 != index
                &&& open.contains(without(open, index)[k])
            },
{
    without_keeps_order(open, index);
    reveal(without);
    lemma_position_from(open, index, 0);
    let next = without(open, index);
    let at = position(open, index);
    assert forall|k: int| 0 <= k < next.len() implies {
        &&& (#[trigger] next[k]).0 != index
        &&& open.contains(next[k])
        &&& !finished.insert(index).contains(next[k].0)
    } by {
        if at < open.len() && open[at].0 == index {
            if k < at {
                assert(next[k] == open[k]);
            } else {
                assert(next[k] == open[k + 1]);
                assert(open[at].0 < open[k + 1].0);
            }
        } else {
            assert(next[k] == open[k]);
            if k >= at {
                if k > at {
                    assert(open[at].0 < open[k].0);
                }
            }
        }
    }
}

proof fn lemma_finish_reasoning(
    state: ResponsesModel,
    index: usize,
    history: Seq<GenerationEventModel>,
    events: Seq<GenerationEventModel>,
)
    requires
        well_told(state, history, events),
    ensures
        ({
            let (after, reported) = finish_reasoning(state, index, events);
            &&& well_told(after, history, reported)
            &&& forall|k: int|
                0 <= k < after.open_reasoning.len() ==> {
                    &&& (#[trigger] after.open_reasoning[k]).0 != index
                    &&& state.open_reasoning.contains(after.open_reasoning[k])
                }
        }),
{
    reveal(finish_reasoning);
    let (after, reported) = finish_reasoning(state, index, events);
    lemma_close(state.open_reasoning, state.finished_reasoning, index);
    if state.finished_reasoning.contains(index) {
        assert forall|k: int| 0 <= k < after.open_reasoning.len() implies {
            &&& (#[trigger] after.open_reasoning[k]).0 != index
            &&& state.open_reasoning.contains(after.open_reasoning[k])
        } by {
            assert(state.open_reasoning[k] == after.open_reasoning[k]);
        }
    } else {
        match find(state.open_reasoning, index) {
            Some(id) => {
                lemma_event(state, after, history, events, reported.last());
                assert(reported =~= events.push(reported.last()));
            },
            None => {
                lemma_not_open(state.open_reasoning, index);
                assert forall|k: int| 0 <= k < after.open_reasoning.len() implies {
                    &&& (#[trigger] after.open_reasoning[k]).0 != index
                    &&& state.open_reasoning.contains(after.open_reasoning[k])
                    &&& !after.finished_reasoning.contains(after.open_reasoning[k].0)
                } by {
                    assert(state.open_reasoning[k] == after.open_reasoning[k]);
                }
                if reported.len() > events.len() {
                    let first = reported[reported.len() - 2];
                    lemma_event(state, state, history, events, first);
                    lemma_event(state, after, history, events.push(first), reported.last());
                    assert(reported =~= events.push(first).push(reported.last()));
                }
            },
        }
    }
}

proof fn lemma_not_open(open: Seq<(usize, Seq<char>)>, index: usize)
    requires
        sorted(open),
        find(open, index) is None,
    ensures
        forall|k: int| 0 <= k < open.len() ==> (#[trigger] open[k]).0 != index,
{
    reveal(find);
    lemma_position_from(open, index, 0);
    let at = position(open, index);
    assert forall|k: int| 0 <= k < open.len() implies (#[trigger] open[k]).0 != index by {
        if k > at {
            assert(open[at].0 < open[k].0);
        }
    }
}

proof fn lemma_finish_each(
    state: ResponsesModel,
    indices: Seq<usize>,
    start: int,
    history: Seq<GenerationEventModel>,
    events: Seq<GenerationEventModel>,
)
    requires
        well_told(state, history, events),
        0 <= start,
    ensures
        ({
            let (after, reported) = finish_each(state, indices, start, events);
            &&& well_told(after, history, reported)
            &&& forall|k: int|
                0 <= k < after.open_reasoning.len() ==> {
                    &&& state.open_reasoning.contains(#[trigger] after.open_reasoning[k])
                    &&& forall|i: int|
                        start <= i < indices.len() ==> #[trigger] indices[i]
                            != after.open_reasoning[k].0
                }
        }),
    decreases indices.len() - start,
{
    let (after, reported) = finish_each(state, indices, start, events);
    if start < indices.len() {
        let (next, so_far) = finish_reasoning(state, indices[start], events);
        lemma_finish_reasoning(state, indices[start], history, events);
        lemma_finish_each(next, indices, start + 1, history, so_far);
        assert forall|k: int| 0 <= k < after.open_reasoning.len() implies {
            &&& state.open_reasoning.contains(#[trigger] after.open_reasoning[k])
            &&& forall|i: int|
                start <= i < indices.len() ==> #[trigger] indices[i] != after.open_reasoning[k].0
        } by {
            let entry = after.open_reasoning[k];
            assert(next.open_reasoning.contains(entry));
            let at = choose|at: int|
                0 <= at < next.open_reasoning.len() && next.open_reasoning[at] == entry;
            assert(next.open_reasoning[at].0 != indices[start]);
        }
    } else {
        assert forall|k: int| 0 <= k < after.open_reasoning.len() implies state.open_reasoning.contains(
            #[trigger] after.open_reasoning[k],
        ) by {
            assert(state.open_reasoning[k] == after.open_reasoning[k]);
        }
    }
}

proof fn lemma_keys_except(entries: Seq<(usize, Seq<char>)>, except: usize, start: int, at: int)
    requires
        0 <= start <= at < entries.len(),
        entries[at].0 != except,
    ensures
        keys_except(entries, except, start).contains(entries[at].0),
    decreases at - start,
{
    let all = keys_except(entries, except, start);
    if start == at {
        assert(all[0] == entries[at].0);
    } else {
        lemma_keys_except(entries, except, start + 1, at);
        let rest = keys_except(entries, except, start + 1);
        let k = choose|k: int| 0 <= k < rest.len() && rest[k] == entries[at].0;
        if entries[start].0 == except {
            assert(all[k] == entries[at].0);
        } else {
            assert(all[k + 1] == entries[at].0);
        }
    }
}

proof fn lemma_finish_other(
    state: ResponsesModel,
    index: usize,
    history: Seq<GenerationEventModel>,
    events: Seq<GenerationEventModel>,
)
    requires
        well_told(state, history, events),
    ensures
        ({
            let (after, reported) = finish_other_reasoning(state, index, events);
            &&& well_told(after, history, reported)
            &&& forall|k: int|
                0 <= k < after.open_reasoning.len() ==> (#[trigger] after.open_reasoning[k]).0
                    == index
        }),
{
    reveal(finish_other_reasoning);
    let indices = keys_except(state.open_reasoning, index, 0);
    lemma_finish_each(state, indices, 0, history, events);
    let (after, reported) = finish_other_reasoning(state, index, events);
    assert forall|k: int| 0 <= k < after.open_reasoning.len() implies (
    #[trigger] after.open_reasoning[k]).0 == index by {
        let entry = after.open_reasoning[k];
        assert(state.open_reasoning.contains(entry));
        let at = choose|at: int|
            0 <= at < state.open_reasoning.len() && state.open_reasoning[at] == entry;
        if entry.0 != index {
            lemma_keys_except(state.open_reasoning, index, 0, at);
            let i = choose|i: int| 0 <= i < indices.len() && indices[i] == entry.0;
            assert(indices[i] != after.open_reasoning[k].0);
        }
    }
}

proof fn lemma_item_added(
    state: ResponsesModel,
    value: JsonModel,
    history: Seq<GenerationEventModel>,
    events: Seq<GenerationEventModel>,
)
    requires
        well_told(state, history, events),
    ensures
        ({
            let step = item_added(state, value, events);
            &&& well_told(step.state, history, step.events)
            &&& step.error is None ==> forall|k: int|
                0 <= k < step.state.open_reasoning.len() ==> (
                #[trigger] step.state.open_reasoning[k]).0 == index_of(value)
        }),
{
    reveal(item_added);
    let index = index_of(value);
    let step = item_added(state, value, events);
    match value.get("item"@) {
        None => {},
        Some(item) => {
            let kind = item_kind(item);
            let known = ResponsesModel {
                output_kinds: put(state.output_kinds, index, kind),
                ..state
            };
            lemma_state(state, known, history, events);
            if find(state.output_kinds, index).is_some() || state.finished_outputs.contains(index) {
            } else {
                let (next, reported) = finish_other_reasoning(known, index, events);
                lemma_finish_other(known, index, history, events);
                match kind {
                    OutputKind::FunctionCall => {
                        lemma_event(next, step.state, history, reported, step.events.last());
                        assert(step.events =~= reported.push(step.events.last()));
                    },
                    OutputKind::Reasoning => {
                        reveal(capture_reasoning_replay);
                        lemma_state(next, step.state, history, reported);
                    },
                    _ => {},
                }
            }
        },
    }
}

proof fn lemma_deltas(
    state: ResponsesModel,
    value: JsonModel,
    history: Seq<GenerationEventModel>,
    events: Seq<GenerationEventModel>,
)
    requires
        well_told(state, history, events),
    ensures
        well_told(
            text_delta(state, value, events).state,
            history,
            text_delta(state, value, events).events,
        ),
        well_told(
            reasoning_delta(state, value, events).state,
            history,
            reasoning_delta(state, value, events).events,
        ),
        well_told(
            summary_part_done(state, value, events).state,
            history,
            summary_part_done(state, value, events).events,
        ),
{
    reveal(text_delta);
    reveal(reasoning_delta);
    reveal(summary_part_done);
    let text = text_delta(state, value, events);
    match open_item(state, value, OutputKind::Message) {
        Ok(index) => if text.error is None {
            match find(state.open_text, index) {
                Some(_) => {
                    lemma_event(state, text.state, history, events, text.events.last());
                    assert(text.events =~= events.push(text.events.last()));
                },
                None => {
                    let first = text.events[text.events.len() - 2];
                    lemma_open(state.open_text, state.finished_text, index, text_id(index));
                    lemma_event(state, state, history, events, first);
                    lemma_event(
                        state,
                        text.state,
                        history,
                        events.push(first),
                        text.events.last(),
                    );
                    assert(text.events =~= events.push(first).push(text.events.last()));
                },
            }
        },
        Err(_) => {},
    }
    let reasoning = reasoning_delta(state, value, events);
    let part = summary_part_done(state, value, events);
    match open_item(state, value, OutputKind::Reasoning) {
        Ok(index) => {
            if reasoning.error is None {
                match find(state.open_reasoning, index) {
                    Some(_) => {
                        lemma_event(
                            state,
                            reasoning.state,
                            history,
                            events,
                            reasoning.events.last(),
                        );
                        assert(reasoning.events =~= events.push(reasoning.events.last()));
                    },
                    None => {
                        let first = reasoning.events[reasoning.events.len() - 2];
                        lemma_open(
                            state.open_reasoning,
                            state.finished_reasoning,
                            index,
                            reasoning_id(index),
                        );
                        lemma_event(state, state, history, events, first);
                        lemma_event(
                            state,
                            reasoning.state,
                            history,
                            events.push(first),
                            reasoning.events.last(),
                        );
                        assert(reasoning.events =~= events.push(first).push(
                            reasoning.events.last(),
                        ));
                    },
                }
            }
            if find(state.open_reasoning, index) is Some {
                lemma_event(state, part.state, history, events, part.events.last());
                assert(part.events =~= events.push(part.events.last()));
            }
        },
        Err(_) => {},
    }
}

proof fn lemma_functions(
    state: ResponsesModel,
    value: JsonModel,
    history: Seq<GenerationEventModel>,
    events: Seq<GenerationEventModel>,
)
    requires
        well_told(state, history, events),
    ensures
        well_told(
            function_delta(state, value, events).state,
            history,
            function_delta(state, value, events).events,
        ),
        well_told(function_done(state, value).0, history, events),
{
    reveal(function_delta);
    reveal(function_done);
    lemma_state(state, function_done(state, value).0, history, events);
    let step = function_delta(state, value, events);
    match open_item(state, value, OutputKind::FunctionCall) {
        Ok(index) => if !state.finished_function_arguments.contains(index) {
            let function = function_at(state, index);
            let start = function_started(index, function);
            let reported = if function.started {
                events
            } else {
                events.push(start)
            };
            lemma_event(state, state, history, events, start);
            match value.str_at("delta"@) {
                None => {
                    lemma_state(state, step.state, history, reported);
                },
                Some(_) => {
                    lemma_event(state, step.state, history, reported, step.events.last());
                    assert(step.events =~= reported.push(step.events.last()));
                },
            }
        },
        Err(_) => {},
    }
}

proof fn lemma_emit_function(
    state: ResponsesModel,
    index: usize,
    function: FunctionModel,
    history: Seq<GenerationEventModel>,
    events: Seq<GenerationEventModel>,
)
    requires
        well_told(state, history, events),
        !state.finished_functions.contains(index),
    ensures
        well_told(
            emit_function(state, index, function, events).0,
            history,
            emit_function(state, index, function, events).1,
        ),
{
    let (after, all) = emit_function(state, index, function, events);
    let start = function_started(index, function);
    let reported = if function.started {
        events
    } else {
        events.push(start)
    };
    lemma_event(state, state, history, events, start);
    lemma_event(state, after, history, reported, all.last());
    assert(all =~= reported.push(all.last()));
}

proof fn lemma_reasoning_item(
    state: ResponsesModel,
    index: usize,
    item: JsonModel,
    history: Seq<GenerationEventModel>,
    events: Seq<GenerationEventModel>,
)
    requires
        well_told(state, history, events),
    ensures
        well_told(
            capture_reasoning_item(state, index, item, events).0,
            history,
            capture_reasoning_item(state, index, item, events).1,
        ),
{
    reveal(capture_reasoning_replay);
    let captured = capture_reasoning_replay(state, index, item);
    lemma_state(state, captured, history, events);
    let (after, all) = capture_reasoning_item(state, index, item, events);
    let authoritative = authoritative_text(item);
    let streamed = buffer_at(state.reasoning_buffers, index);
    let display_changed = authoritative.is_some() && authoritative != Some(streamed);
    let shown = match authoritative {
        Some(text) => text,
        None => streamed,
    };
    if state.finished_reasoning.contains(index) {
        lemma_state(captured, after, history, events);
        if all.len() > events.len() {
            lemma_event(after, after, history, events, all.last());
            assert(all =~= events.push(all.last()));
        }
    } else if display_changed && streamed.is_prefix_of(shown) {
        let id = match find(state.open_reasoning, index) {
            Some(id) => id,
            None => reasoning_id(index),
        };
        let is_open = find(state.open_reasoning, index).is_some();
        let start = GenerationEventModel::ReasoningStarted { content_index: index, id };
        let opened = if is_open {
            events
        } else {
            events.push(start)
        };
        let extended = ResponsesModel {
            open_reasoning: if is_open {
                state.open_reasoning
            } else {
                put(state.open_reasoning, index, id)
            },
            reasoning_buffers: put(state.reasoning_buffers, index, shown),
            ..captured
        };
        lemma_open(state.open_reasoning, state.finished_reasoning, index, id);
        lemma_event(captured, captured, history, events, start);
        let delta = GenerationEventModel::ReasoningDelta {
            content_index: index,
            id,
            delta: shown.skip(streamed.len() as int),
        };
        lemma_event(captured, extended, history, opened, delta);
        lemma_finish_reasoning(extended, index, history, opened.push(delta));
    } else {
        let (closed, reported) = finish_reasoning(captured, index, events);
        lemma_finish_reasoning(captured, index, history, events);
        lemma_state(closed, after, history, reported);
        if all.len() > reported.len() {
            lemma_event(after, after, history, reported, all.last());
            assert(all =~= reported.push(all.last()));
        }
    }
}

proof fn lemma_text(
    state: ResponsesModel,
    index: usize,
    text: Seq<char>,
    replay: Option<ProviderMetadataModel>,
    history: Seq<GenerationEventModel>,
    events: Seq<GenerationEventModel>,
)
    requires
        well_told(state, history, events),
    ensures
        well_told(
            capture_text(state, index, text, replay, events).state,
            history,
            capture_text(state, index, text, replay, events).events,
        ),
{
    let step = capture_text(state, index, text, replay, events);
    let streamed = buffer_at(state.text_buffers, index);
    let touched = ResponsesModel {
        text_buffers: put(state.text_buffers, index, streamed),
        ..state
    };
    lemma_state(state, touched, history, events);
    match without_prefix(text, streamed) {
        None => {},
        Some(suffix) => {
            let start = GenerationEventModel::TextStarted {
                content_index: index,
                id: text_id(index),
            };
            let opened = if streamed.len() == 0 && text.len() > 0 {
                events.push(start)
            } else {
                events
            };
            lemma_event(state, state, history, events, start);
            let delta = GenerationEventModel::TextDelta {
                content_index: index,
                id: text_id(index),
                delta: suffix,
            };
            let delivered = if suffix.len() > 0 {
                opened.push(delta)
            } else {
                opened
            };
            lemma_event(state, state, history, opened, delta);
            let buffered = ResponsesModel {
                text_buffers: put(touched.text_buffers, index, text),
                ..state
            };
            lemma_state(state, buffered, history, delivered);
            if !state.finished_text.contains(index) && (find(state.open_text, index).is_some()
                || text.len() > 0) {
                lemma_close(state.open_text, state.finished_text, index);
                lemma_event(buffered, step.state, history, delivered, step.events.last());
                assert(step.events =~= delivered.push(step.events.last()));
            }
        },
    }
}

proof fn lemma_message_item(
    state: ResponsesModel,
    index: usize,
    item: JsonModel,
    history: Seq<GenerationEventModel>,
    events: Seq<GenerationEventModel>,
)
    requires
        well_told(state, history, events),
    ensures
        well_told(
            capture_message_item(state, index, item, events).state,
            history,
            capture_message_item(state, index, item, events).events,
        ),
{
    match item.array_at("content"@) {
        None => {},
        Some(parts) => match message_text(parts, 0, Seq::empty()) {
            Err(_) => {},
            Ok(text) => {
                let step = capture_message_item(state, index, item, events);
                assert(exists|replay: Option<ProviderMetadataModel>|
                    step == #[trigger] capture_text(state, index, text, replay, events));
                let replay = choose|replay: Option<ProviderMetadataModel>|
                    step == #[trigger] capture_text(state, index, text, replay, events);
                lemma_text(state, index, text, replay, history, events);
            },
        },
    }
}

proof fn lemma_item_content(
    state: ResponsesModel,
    index: usize,
    item: JsonModel,
    kind: OutputKind,
    history: Seq<GenerationEventModel>,
    events: Seq<GenerationEventModel>,
)
    requires
        well_told(state, history, events),
    ensures
        well_told(
            item_content(state, index, item, kind, events).state,
            history,
            item_content(state, index, item, kind, events).events,
        ),
{
    let step = item_content(state, index, item, kind, events);
    match kind {
        OutputKind::FunctionCall => if state.finished_functions.contains(index) {
            lemma_state(state, step.state, history, events);
        } else {
            let function = completed_function(function_at(state, index), item);
            let (next, reported) = emit_function(state, index, function, events);
            lemma_emit_function(state, index, function, history, events);
            lemma_state(next, step.state, history, reported);
        },
        OutputKind::Reasoning => {
            let (next, reported) = capture_reasoning_item(state, index, item, events);
            lemma_reasoning_item(state, index, item, history, events);
            lemma_state(next, step.state, history, reported);
        },
        OutputKind::Message => {
            let inner = capture_message_item(state, index, item, events);
            lemma_message_item(state, index, item, history, events);
            if inner.error is None {
                lemma_state(inner.state, step.state, history, inner.events);
            }
        },
        OutputKind::Unsupported => {
            lemma_state(state, step.state, history, events);
        },
    }
}

proof fn lemma_item_finished(
    state: ResponsesModel,
    index: usize,
    item: Option<JsonModel>,
    history: Seq<GenerationEventModel>,
    events: Seq<GenerationEventModel>,
)
    requires
        well_told(state, history, events),
    ensures
        well_told(
            item_finished(state, index, item, events).state,
            history,
            item_finished(state, index, item, events).events,
        ),
{
    reveal(item_finished);
    if !state.finished_outputs.contains(index) {
        match item {
            None => {},
            Some(item) => {
                let kind = item_kind(item);
                match find(state.output_kinds, index) {
                    Some(added) => if added == kind {
                        lemma_item_content(state, index, item, kind, history, events);
                    },
                    None => {
                        let known = ResponsesModel {
                            output_kinds: put(state.output_kinds, index, kind),
                            ..state
                        };
                        lemma_state(state, known, history, events);
                        let (next, reported) = finish_other_reasoning(known, index, events);
                        lemma_finish_other(known, index, history, events);
                        lemma_item_content(next, index, item, kind, history, reported);
                    },
                }
            },
        }
    }
}

proof fn lemma_terminal_items(
    state: ResponsesModel,
    output: Seq<JsonModel>,
    start: int,
    history: Seq<GenerationEventModel>,
    events: Seq<GenerationEventModel>,
)
    requires
        well_told(state, history, events),
    ensures
        well_told(
            terminal_items(state, output, start, events).state,
            history,
            terminal_items(state, output, start, events).events,
        ),
    decreases output.len() - start,
{
    if 0 <= start < output.len() {
        let index = start as usize;
        let item = output[start];
        let step = terminal_item(state, index, item, events);
        match item_kind(item) {
            OutputKind::Reasoning => {
                lemma_reasoning_item(state, index, item, history, events);
            },
            OutputKind::Message => {
                lemma_message_item(state, index, item, history, events);
            },
            OutputKind::FunctionCall => {
                lemma_item_finished(state, index, Some(item), history, events);
            },
            OutputKind::Unsupported => {},
        }
        if step.error is None {
            lemma_terminal_items(step.state, output, start + 1, history, step.events);
        }
    }
}

/// Open blocks that end together, from the first up to `n`.
proof fn lemma_close_texts(
    state: ResponsesModel,
    history: Seq<GenerationEventModel>,
    events: Seq<GenerationEventModel>,
    n: int,
)
    requires
        well_told(state, history, events),
        0 <= n <= state.open_text.len(),
    ensures
        ({
            let texts = Seq::new(
                n as nat,
                |i: int|
                    GenerationEventModel::TextFinished {
                        content_index: state.open_text[i].0,
                        id: state.open_text[i].1,
                        replay: None,
                    },
            );
            let after = ResponsesModel {
                open_text: state.open_text.skip(n),
                finished_text: state.finished_text.union(keys(state.open_text.take(n))),
                ..state
            };
            well_told(after, history, events + texts)
        }),
    decreases n,
{
    let open = state.open_text;
    let texts = Seq::new(
        n as nat,
        |i: int|
            GenerationEventModel::TextFinished {
                content_index: open[i].0,
                id: open[i].1,
                replay: None,
            },
    );
    let after = ResponsesModel {
        open_text: open.skip(n),
        finished_text: state.finished_text.union(keys(open.take(n))),
        ..state
    };
    if n == 0 {
        assert(open.skip(0) =~= open);
        assert(Seq::new(open.take(0).len(), |i: int| open.take(0)[i].0).to_set()
            =~= Set::<usize>::empty());
        assert(after.finished_text =~= state.finished_text);
        assert(events + texts =~= events);
    } else {
        lemma_close_texts(state, history, events, n - 1);
        let fewer = Seq::new(
            (n - 1) as nat,
            |i: int|
                GenerationEventModel::TextFinished {
                    content_index: open[i].0,
                    id: open[i].1,
                    replay: None,
                },
        );
        let before = ResponsesModel {
            open_text: open.skip(n - 1),
            finished_text: state.finished_text.union(keys(open.take(n - 1))),
            ..state
        };
        lemma_keys(open, n - 1);
        lemma_keys(open, n);
        assert(!before.finished_text.contains(open[n - 1].0)) by {
            assert(before.open_text[0] == open[n - 1]);
        }
        assert(blocks_wf(after)) by {
            assert forall|k: int| 0 <= k < after.open_text.len() implies !after.finished_text.contains(
                (#[trigger] after.open_text[k]).0,
            ) by {
                assert(after.open_text[k] == open[k + n]);
                assert(!state.finished_text.contains(open[k + n].0));
            }
        }
        lemma_event(before, after, history, events + fewer, texts[n - 1]);
        assert(events + texts =~= (events + fewer).push(texts[n - 1]));
    }
}

/// The keys of the first entries.
proof fn lemma_keys(open: Seq<(usize, Seq<char>)>, n: int)
    requires
        0 <= n <= open.len(),
    ensures
        forall|x: usize| #[trigger]
            keys(open.take(n)).contains(x) <==> exists|i: int| 0 <= i < n && (#[trigger] open[i]).0
                == x,
{
    let firsts = Seq::new(open.take(n).len(), |i: int| open.take(n)[i].0);
    assert forall|x: usize| #[trigger] keys(open.take(n)).contains(x) <==> exists|i: int|
        0 <= i < n && (#[trigger] open[i]).0 == x by {
        if keys(open.take(n)).contains(x) {
            assert(firsts.contains(x));
            let i = choose|i: int| 0 <= i < firsts.len() && firsts[i] == x;
            assert(open[i].0 == x);
        }
        if exists|i: int| 0 <= i < n && (#[trigger] open[i]).0 == x {
            let i = choose|i: int| 0 <= i < n && (#[trigger] open[i]).0 == x;
            assert(firsts[i] == x);
            assert(firsts.contains(x));
        }
    }
}

proof fn lemma_close_reasonings(
    state: ResponsesModel,
    history: Seq<GenerationEventModel>,
    events: Seq<GenerationEventModel>,
    replays: Seq<Option<ProviderMetadataModel>>,
    n: int,
)
    requires
        well_told(state, history, events),
        0 <= n <= state.open_reasoning.len(),
    ensures
        ({
            let ends = Seq::new(
                n as nat,
                |i: int|
                    GenerationEventModel::ReasoningFinished {
                        content_index: state.open_reasoning[i].0,
                        id: state.open_reasoning[i].1,
                        replay: replays[i],
                    },
            );
            let after = ResponsesModel {
                open_reasoning: state.open_reasoning.skip(n),
                finished_reasoning: state.finished_reasoning.union(
                    keys(state.open_reasoning.take(n)),
                ),
                ..state
            };
            well_told(after, history, events + ends)
        }),
    decreases n,
{
    let open = state.open_reasoning;
    let ends = Seq::new(
        n as nat,
        |i: int|
            GenerationEventModel::ReasoningFinished {
                content_index: open[i].0,
                id: open[i].1,
                replay: replays[i],
            },
    );
    let after = ResponsesModel {
        open_reasoning: open.skip(n),
        finished_reasoning: state.finished_reasoning.union(keys(open.take(n))),
        ..state
    };
    if n == 0 {
        assert(open.skip(0) =~= open);
        assert(Seq::new(open.take(0).len(), |i: int| open.take(0)[i].0).to_set()
            =~= Set::<usize>::empty());
        assert(after.finished_reasoning =~= state.finished_reasoning);
        assert(events + ends =~= events);
    } else {
        lemma_close_reasonings(state, history, events, replays, n - 1);
        let fewer = Seq::new(
            (n - 1) as nat,
            |i: int|
                GenerationEventModel::ReasoningFinished {
                    content_index: open[i].0,
                    id: open[i].1,
                    replay: replays[i],
                },
        );
        let before = ResponsesModel {
            open_reasoning: open.skip(n - 1),
            finished_reasoning: state.finished_reasoning.union(keys(open.take(n - 1))),
            ..state
        };
        lemma_keys(open, n - 1);
        lemma_keys(open, n);
        assert(!before.finished_reasoning.contains(open[n - 1].0)) by {
            assert(before.open_reasoning[0] == open[n - 1]);
        }
        assert(blocks_wf(after)) by {
            assert forall|k: int| 0 <= k < after.open_reasoning.len() implies !after.finished_reasoning.contains(
                (#[trigger] after.open_reasoning[k]).0,
            ) by {
                assert(after.open_reasoning[k] == open[k + n]);
                assert(!state.finished_reasoning.contains(open[k + n].0));
            }
        }
        lemma_event(before, after, history, events + fewer, ends[n - 1]);
        assert(events + ends =~= (events + fewer).push(ends[n - 1]));
    }
}

proof fn lemma_close_open_parts(
    state: ResponsesModel,
    history: Seq<GenerationEventModel>,
    events: Seq<GenerationEventModel>,
)
    requires
        well_told(state, history, events),
    ensures
        well_told(
            close_open_parts(state, events).0,
            history,
            close_open_parts(state, events).1,
        ),
{
    reveal(close_open_parts);
    let open = state.open_text;
    let n = open.len() as int;
    let texts = Seq::new(
        open.len(),
        |i: int|
            GenerationEventModel::TextFinished {
                content_index: open[i].0,
                id: open[i].1,
                replay: None,
            },
    );
    lemma_close_texts(state, history, events, n);
    assert(open.take(n) =~= open);
    assert(open.skip(n) =~= Seq::<(usize, Seq<char>)>::empty());
    let half = ResponsesModel {
        open_text: Seq::empty(),
        finished_text: state.finished_text.union(keys(open)),
        ..state
    };
    assert(well_told(half, history, events + texts));
    let thinking = state.open_reasoning;
    let m = thinking.len() as int;
    let replays = Seq::new(thinking.len(), |i: int| reasoning_metadata(state, thinking[i].0));
    lemma_close_reasonings(half, history, events + texts, replays, m);
    assert(thinking.take(m) =~= thinking);
    assert(thinking.skip(m) =~= Seq::<(usize, Seq<char>)>::empty());
    let ends = Seq::new(
        thinking.len(),
        |i: int|
            GenerationEventModel::ReasoningFinished {
                content_index: thinking[i].0,
                id: thinking[i].1,
                replay: replays[i],
            },
    );
    assert(close_open_parts(state, events).1 =~= events + texts + ends);
}

proof fn lemma_ends(
    state: ResponsesModel,
    value: JsonModel,
    status: ProtocolTerminalStatus,
    reason: Option<FinishReasonModel>,
    error: Option<GatewayErrorModel>,
    history: Seq<GenerationEventModel>,
    events: Seq<GenerationEventModel>,
)
    requires
        well_told(state, history, events),
    ensures
        match ends(state, value, status, reason, error, events).result {
            Ok(update) => well_told(
                ends(state, value, status, reason, error, events).state,
                history,
                update.events,
            ),
            Err(_) => true,
        },
{
    reveal(ends);
    reveal(capture_response);
    reveal(capture_terminal_output);
    reveal(ended);
    let captured = capture_response(state, value);
    lemma_state(state, captured, history, events);
    let step = capture_terminal_output(captured, value, events);
    match value.get2("response"@, "output"@) {
        Some(output) => match output.as_array() {
            Some(items) => {
                lemma_terminal_items(captured, items, 0, history, events);
            },
            None => {},
        },
        None => {},
    }
    if step.error is None {
        let (closed, reported) = close_open_parts(step.state, step.events);
        lemma_close_open_parts(step.state, history, step.events);
        let (last, all) = ended(step.state, value, step.events);
        match terminal_usage(value) {
            Some(_) => {
                lemma_event(closed, last, history, reported, all.last());
                assert(all =~= reported.push(all.last()));
            },
            None => {
                lemma_state(closed, last, history, reported);
            },
        }
    }
}

proof fn lemma_dispatch(
    state: ResponsesModel,
    event: Seq<char>,
    kind: EventKind,
    value: JsonModel,
    data: Seq<char>,
    history: Seq<GenerationEventModel>,
    events: Seq<GenerationEventModel>,
)
    requires
        well_told(state, history, events),
    ensures
        match dispatch(state, event, kind, value, data, events).result {
            Ok(update) => well_told(
                dispatch(state, event, kind, value, data, events).state,
                history,
                update.events,
            ),
            Err(_) => true,
        },
{
    reveal(dispatch);
    reveal(capture_response);
    match kind {
        EventKind::Created => if !state.started {
            let begun = ResponsesModel { started: true, ..capture_response(state, value) };
            lemma_event(state, begun, history, events, started_event(begun));
        },
        EventKind::InProgress => {
            lemma_state(state, capture_response(state, value), history, events);
        },
        EventKind::ItemAdded => {
            lemma_item_added(state, value, history, events);
        },
        EventKind::TextDelta | EventKind::ReasoningDelta | EventKind::SummaryPartDone => {
            lemma_deltas(state, value, history, events);
        },
        EventKind::ArgumentsDelta | EventKind::ArgumentsDone => {
            lemma_functions(state, value, history, events);
        },
        EventKind::ItemDone => {
            lemma_item_finished(state, index_of(value), value.get("item"@), history, events);
        },
        EventKind::Completed => {
            lemma_ends(
                state,
                value,
                ProtocolTerminalStatus::Completed,
                None,
                None,
                history,
                events,
            );
        },
        EventKind::Incomplete => {
            lemma_any_end(state, value, history, events);
        },
        EventKind::Failed => {
            lemma_any_end(state, value, history, events);
        },
        _ => {},
    }
}

/// However a response ends, its blocks end once.
proof fn lemma_any_end(
    state: ResponsesModel,
    value: JsonModel,
    history: Seq<GenerationEventModel>,
    events: Seq<GenerationEventModel>,
)
    requires
        well_told(state, history, events),
    ensures
        forall|
            status: ProtocolTerminalStatus,
            reason: Option<FinishReasonModel>,
            error: Option<GatewayErrorModel>,
        |
            match (#[trigger] ends(state, value, status, reason, error, events)).result {
                Ok(update) => well_told(
                    ends(state, value, status, reason, error, events).state,
                    history,
                    update.events,
                ),
                Err(_) => true,
            },
{
    assert forall|
        status: ProtocolTerminalStatus,
        reason: Option<FinishReasonModel>,
        error: Option<GatewayErrorModel>,
    |
        match (#[trigger] ends(state, value, status, reason, error, events)).result {
            Ok(update) => well_told(
                ends(state, value, status, reason, error, events).state,
                history,
                update.events,
            ),
            Err(_) => true,
        } by {
        lemma_ends(state, value, status, reason, error, history, events);
    }
}

/// Nothing was told before the stream begins.
pub proof fn a_fresh_session_is_well_told(compatibility: CompatibilityProfile)
    ensures
        well_told(fresh(compatibility), Seq::empty(), Seq::empty()),
{
}

/// Frame by frame, no block ends twice: whatever comes late, the end of a text, of reasoning or of a
/// tool call is reported once. `history` is what the frames before have reported.
pub proof fn blocks_end_once(
    state: ResponsesModel,
    data: Seq<char>,
    history: Seq<GenerationEventModel>,
)
    requires
        well_told(state, history, Seq::empty()),
    ensures
        match ingest(state, data).result {
            Ok(update) => well_told(ingest(state, data).state, history, update.events),
            Err(_) => true,
        },
{
    match parsed_json(data) {
        None => {},
        Some(value) => match value.str_at("type"@) {
            None => {},
            Some(event) => {
                let kind = event_kind(event);
                reveal(capture_response);
                let begun = ResponsesModel { started: true, ..capture_response(state, value) };
                let none = Seq::<GenerationEventModel>::empty();
                let first = seq![started_event(begun)];
                lemma_event(state, begun, history, none, started_event(begun));
                assert(first =~= none.push(started_event(begun)));
                lemma_dispatch(begun, event, kind, value, data, history, first);
                lemma_dispatch(state, event, kind, value, data, history, none);
            },
        },
    }
}

/// When an output item begins, reasoning that was still open elsewhere ends: what follows is never
/// taken for a part of it.
pub proof fn a_new_item_ends_older_reasoning(
    state: ResponsesModel,
    value: JsonModel,
    events: Seq<GenerationEventModel>,
)
    requires
        blocks_wf(state),
        item_added(state, value, events).error is None,
    ensures
        forall|k: int|
            0 <= k < item_added(state, value, events).state.open_reasoning.len() ==> (
            #[trigger] item_added(state, value, events).state.open_reasoning[k]).0 == index_of(
                value,
            ),
{
    reveal(item_added);
    let index = index_of(value);
    match value.get("item"@) {
        None => {},
        Some(item) => {
            let known = ResponsesModel {
                output_kinds: put(state.output_kinds, index, item_kind(item)),
                ..state
            };
            lemma_others_close(known, index, events);
            reveal(capture_reasoning_replay);
        },
    }
}

proof fn lemma_others_close(
    state: ResponsesModel,
    index: usize,
    events: Seq<GenerationEventModel>,
)
    requires
        blocks_wf(state),
    ensures
        forall|k: int|
            0 <= k < finish_other_reasoning(state, index, events).0.open_reasoning.len() ==> (
            #[trigger] finish_other_reasoning(state, index, events).0.open_reasoning[k]).0 == index,
{
    let none = Seq::<GenerationEventModel>::empty();
    reveal(finish_other_reasoning);
    let indices = keys_except(state.open_reasoning, index, 0);
    lemma_events_do_not_matter(state, indices, 0, events, none);
    lemma_finish_other(state, index, none, none);
}

/// What is open after reasoning ended does not depend on what was reported before.
proof fn lemma_events_do_not_matter(
    state: ResponsesModel,
    indices: Seq<usize>,
    start: int,
    a: Seq<GenerationEventModel>,
    b: Seq<GenerationEventModel>,
)
    ensures
        finish_each(state, indices, start, a).0 == finish_each(state, indices, start, b).0,
    decreases indices.len() - start,
{
    if 0 <= start < indices.len() {
        reveal(finish_reasoning);
        let (next, more_a) = finish_reasoning(state, indices[start], a);
        let (_, more_b) = finish_reasoning(state, indices[start], b);
        lemma_events_do_not_matter(next, indices, start + 1, more_a, more_b);
    }
}

/// Output is refused until the response was created; only an end may come in its place.
pub proof fn output_waits_for_the_response(state: ResponsesModel, value: JsonModel, data: Seq<char>)
    requires
        !state.started,
        value.str_at("type"@) is Some,
        !may_come_first(event_kind(value.str_at("type"@)->0)),
    ensures
        ingest_value(state, value, data).result is Err,
        ingest_value(state, value, data).state == state,
{
}

/// An event that is not known is passed over where it says nothing of the output, and refused where
/// it does.
pub proof fn unknown_events_are_passed_over_unless_they_matter(
    state: ResponsesModel,
    value: JsonModel,
    data: Seq<char>,
)
    requires
        state.started,
        value.str_at("type"@) is Some,
    ensures
        event_kind(value.str_at("type"@)->0) == EventKind::Unknown ==> ingest_value(
            state,
            value,
            data,
        ).result is Err,
        event_kind(value.str_at("type"@)->0) == EventKind::Lifecycle && ingest_value(
            state,
            value,
            data,
        ).result is Ok ==> {
            &&& ingest_value(state, value, data).state == state
            &&& ingest_value(state, value, data).result->Ok_0.events.len() == 0
            &&& ingest_value(state, value, data).result->Ok_0.terminal is None
        },
{
    reveal(dispatch);
}

} // verus!
