//! How the blocks of a Chat Completions stream follow each other.

use vstd::prelude::*;

use crate::json::{parsed_json, JsonModel};
use crate::llm::event::GenerationEventModel;
use crate::llm::protocol::chat_completions::model::{
    accumulate_tool, accumulate_tools, apply_choice, apply_delta, argument_fragment, details_part,
    finish_open_content, finish_parts, finish_reason_of, finish_reasoning, finish_text,
    finish_tools, first_choice, frame_head, fresh, identified_tool, ingest, named_tool,
    reasoning_part, selected_reasoning, start_reasoning, start_text, start_tool, take_terminal,
    text_part, tool_arguments, tool_at, tool_finished, tool_index, tool_string, tools_part,
    with_tool, ChatModel, ChatStep, ToolModel,
};
use crate::llm::protocol::CompatibilityProfile;
use crate::ordered::{find, lemma_position_from, position, put};

verus! {

/// Whether a tool call was reported as started, with its index and its place in the message.
pub open spec fn was_started(
    events: Seq<GenerationEventModel>,
    index: usize,
    content_index: usize,
) -> bool {
    exists|k: int|
        0 <= k < events.len() && starts_tool(#[trigger] events[k], index, content_index)
}

pub open spec fn starts_tool(event: GenerationEventModel, index: usize, content_index: usize) -> bool {
    match event {
        GenerationEventModel::ToolCallStarted { content_index: c, index: i, .. } => i == index && c
            == content_index,
        _ => false,
    }
}

pub open spec fn is_tool_finish(event: GenerationEventModel) -> bool {
    event is ToolCallFinished
}

/// Whether every tool call that was reported as finished was reported as started before that.
pub open spec fn finished_after_started(events: Seq<GenerationEventModel>) -> bool {
    forall|k: int|
        0 <= k < events.len() ==> match #[trigger] events[k] {
            GenerationEventModel::ToolCallFinished { content_index, index, .. } => was_started(
                events.take(k),
                index,
                content_index,
            ),
            _ => true,
        }
}

/// Whether every tool call that has a place in the message was reported as started there.
pub open spec fn tools_announced(
    tools: Seq<(usize, ToolModel)>,
    events: Seq<GenerationEventModel>,
) -> bool {
    forall|k: int|
        0 <= k < tools.len() && (#[trigger] tools[k]).1.content_index is Some ==> was_started(
            events,
            tools[k].0,
            tools[k].1.content_index->0,
        )
}

/// What holds of a session and of everything that it has reported.
pub open spec fn well_told(
    state: ChatModel,
    history: Seq<GenerationEventModel>,
    events: Seq<GenerationEventModel>,
) -> bool {
    &&& tools_announced(state.tools, history + events)
    &&& finished_after_started(history + events)
    &&& state.text is None || state.reasoning is None
}

proof fn lemma_was_started_longer(
    events: Seq<GenerationEventModel>,
    event: GenerationEventModel,
    index: usize,
    content_index: usize,
)
    requires
        was_started(events, index, content_index),
    ensures
        was_started(events.push(event), index, content_index),
{
    let k = choose|k: int|
        0 <= k < events.len() && starts_tool(#[trigger] events[k], index, content_index);
    assert(events.push(event)[k] == events[k]);
}

/// An event that ends no tool call, or one that was started, keeps the order.
proof fn lemma_push_event(
    tools: Seq<(usize, ToolModel)>,
    all: Seq<GenerationEventModel>,
    event: GenerationEventModel,
)
    requires
        tools_announced(tools, all),
        finished_after_started(all),
        match event {
            GenerationEventModel::ToolCallFinished { content_index, index, .. } => was_started(
                all,
                index,
                content_index,
            ),
            _ => true,
        },
    ensures
        tools_announced(tools, all.push(event)),
        finished_after_started(all.push(event)),
{
    let longer = all.push(event);
    assert forall|k: int| 0 <= k < tools.len() && (#[trigger] tools[k]).1.content_index is Some implies was_started(
        longer,
        tools[k].0,
        tools[k].1.content_index->0,
    ) by {
        lemma_was_started_longer(all, event, tools[k].0, tools[k].1.content_index->0);
    }
    assert forall|k: int| 0 <= k < longer.len() implies match #[trigger] longer[k] {
        GenerationEventModel::ToolCallFinished { content_index, index, .. } => was_started(
            longer.take(k),
            index,
            content_index,
        ),
        _ => true,
    } by {
        if k < all.len() {
            assert(longer[k] == all[k]);
            assert(longer.take(k) =~= all.take(k));
        } else {
            assert(longer.take(k) =~= all);
        }
    }
}

/// A piece of a frame that reports one more event, about no tool call.
proof fn lemma_quiet_event(
    before: ChatModel,
    after: ChatModel,
    history: Seq<GenerationEventModel>,
    events: Seq<GenerationEventModel>,
    event: GenerationEventModel,
)
    requires
        well_told(before, history, events),
        after.tools == before.tools,
        after.text is None || after.reasoning is None,
        !is_tool_finish(event),
    ensures
        well_told(after, history, events.push(event)),
{
    lemma_push_event(before.tools, history + events, event);
    assert((history + events).push(event) =~= history + events.push(event));
}

proof fn lemma_finish_text(
    state: ChatModel,
    history: Seq<GenerationEventModel>,
    events: Seq<GenerationEventModel>,
)
    requires
        well_told(state, history, events),
    ensures
        well_told(finish_text(state, events).0, history, finish_text(state, events).1),
        finish_text(state, events).0.text is None,
        finish_text(state, events).0.tools == state.tools,
{
    reveal(finish_text);
    if state.text is Some {
        let (after, reported) = finish_text(state, events);
        lemma_quiet_event(state, after, history, events, reported.last());
        assert(reported =~= events.push(reported.last()));
    }
}

proof fn lemma_finish_reasoning(
    state: ChatModel,
    history: Seq<GenerationEventModel>,
    events: Seq<GenerationEventModel>,
)
    requires
        well_told(state, history, events),
    ensures
        well_told(finish_reasoning(state, events).0, history, finish_reasoning(state, events).1),
        finish_reasoning(state, events).0.reasoning is None,
        finish_reasoning(state, events).0.text == state.text,
        finish_reasoning(state, events).0.tools == state.tools,
{
    reveal(finish_reasoning);
    if state.reasoning is Some {
        let (after, reported) = finish_reasoning(state, events);
        lemma_quiet_event(state, after, history, events, reported.last());
        assert(reported =~= events.push(reported.last()));
    }
}

proof fn lemma_finish_open_content(
    state: ChatModel,
    history: Seq<GenerationEventModel>,
    events: Seq<GenerationEventModel>,
)
    requires
        well_told(state, history, events),
    ensures
        well_told(
            finish_open_content(state, events).0,
            history,
            finish_open_content(state, events).1,
        ),
        finish_open_content(state, events).0.tools == state.tools,
{
    reveal(finish_open_content);
    let (after_text, reported) = finish_text(state, events);
    lemma_finish_text(state, history, events);
    lemma_finish_reasoning(after_text, history, reported);
}

proof fn lemma_start_text(
    state: ChatModel,
    history: Seq<GenerationEventModel>,
    events: Seq<GenerationEventModel>,
)
    requires
        well_told(state, history, events),
    ensures
        well_told(start_text(state, events).0, history, start_text(state, events).1),
{
    reveal(start_text);
    let (closed, reported) = finish_reasoning(state, events);
    lemma_finish_reasoning(state, history, events);
    if closed.text is None {
        let (after, all, _) = start_text(state, events);
        lemma_quiet_event(closed, after, history, reported, all.last());
        assert(all =~= reported.push(all.last()));
    }
}

proof fn lemma_start_reasoning(
    state: ChatModel,
    history: Seq<GenerationEventModel>,
    events: Seq<GenerationEventModel>,
)
    requires
        well_told(state, history, events),
    ensures
        well_told(start_reasoning(state, events).0, history, start_reasoning(state, events).1),
{
    reveal(start_reasoning);
    let (closed, reported) = finish_text(state, events);
    lemma_finish_text(state, history, events);
    if closed.reasoning is None {
        let (after, all, _) = start_reasoning(state, events);
        lemma_quiet_event(closed, after, history, reported, all.last());
        assert(all =~= reported.push(all.last()));
    }
}

proof fn lemma_text_part(
    state: ChatModel,
    delta: JsonModel,
    history: Seq<GenerationEventModel>,
    events: Seq<GenerationEventModel>,
)
    requires
        well_told(state, history, events),
    ensures
        well_told(text_part(state, delta, events).0, history, text_part(state, delta, events).1),
{
    reveal(text_part);
    let (after, reported) = text_part(state, delta, events);
    match delta.str_at("content"@) {
        Some(text) => if text.len() > 0 {
            let (next, all, _) = start_text(state, events);
            lemma_start_text(state, history, events);
            lemma_quiet_event(next, after, history, all, reported.last());
            assert(reported =~= all.push(reported.last()));
        },
        None => {},
    }
}

proof fn lemma_reasoning_part(
    state: ChatModel,
    delta: JsonModel,
    history: Seq<GenerationEventModel>,
    events: Seq<GenerationEventModel>,
)
    requires
        well_told(state, history, events),
    ensures
        well_told(
            reasoning_part(state, delta, events).0,
            history,
            reasoning_part(state, delta, events).1,
        ),
{
    reveal(reasoning_part);
    let (after, reported) = reasoning_part(state, delta, events);
    match selected_reasoning(
        delta,
        state.compatibility.reasoning_field,
    ) {
        Some((field, _)) => {
            let known = ChatModel {
                reasoning_field: match state.reasoning_field {
                    Some(first) => Some(first),
                    None => Some(field),
                },
                ..state
            };
            let (next, all, _) = start_reasoning(known, events);
            lemma_start_reasoning(known, history, events);
            lemma_quiet_event(next, after, history, all, reported.last());
            assert(reported =~= all.push(reported.last()));
        },
        None => {},
    }
}

/// Setting a tool call whose place was announced.
proof fn lemma_with_tool(
    state: ChatModel,
    index: usize,
    tool: ToolModel,
    all: Seq<GenerationEventModel>,
)
    requires
        tools_announced(state.tools, all),
        tool.content_index is Some ==> was_started(all, index, tool.content_index->0),
    ensures
        tools_announced(with_tool(state, index, tool).tools, all),
{
    reveal(put);
    let tools = state.tools;
    let next = put(tools, index, tool);
    let at = position(tools, index);
    lemma_position_from(tools, index, 0);
    assert forall|k: int| 0 <= k < next.len() && (#[trigger] next[k]).1.content_index is Some implies was_started(
        all,
        next[k].0,
        next[k].1.content_index->0,
    ) by {
        if at < tools.len() && tools[at].0 == index {
            if k != at {
                assert(next[k] == tools[k]);
            }
        } else if k < at {
            assert(next[k] == tools[k]);
        } else if k > at {
            assert(next[k] == tools[k - 1]);
        }
    }
}

proof fn lemma_tool_at(state: ChatModel, index: usize, all: Seq<GenerationEventModel>)
    requires
        tools_announced(state.tools, all),
    ensures
        tool_at(state, index).content_index is Some ==> was_started(
            all,
            index,
            tool_at(state, index).content_index->0,
        ),
{
    reveal(find);
    lemma_position_from(state.tools, index, 0);
}

proof fn lemma_tool_arguments(
    state: ChatModel,
    index: usize,
    tool: ToolModel,
    function: JsonModel,
    history: Seq<GenerationEventModel>,
    events: Seq<GenerationEventModel>,
)
    requires
        well_told(state, history, events),
        tool.content_index is Some ==> was_started(
            history + events,
            index,
            tool.content_index->0,
        ),
    ensures
        well_told(
            tool_arguments(state, index, tool, function, events).state,
            history,
            tool_arguments(state, index, tool, function, events).events,
        ),
{
    reveal(tool_arguments);
    reveal(start_tool);
    let (next, running, reported) = start_tool(state, index, tool, events);
    if !tool.started {
        let event = reported.last();
        lemma_quiet_event(state, next, history, events, event);
        assert(reported =~= events.push(event));
        assert(history + reported =~= (history + events).push(event));
        assert(starts_tool(
            (history + reported)[(history + events).len() as int],
            index,
            running.content_index->0,
        ));
    }
    lemma_with_tool(next, index, running, history + reported);
    match function.get("arguments"@) {
        None => {},
        Some(arguments) => match argument_fragment(
            arguments,
            state.compatibility,
        ) {
            Err(_) => {},
            Ok(fragment) => {
                let extended = ToolModel { arguments: running.arguments + fragment, ..running };
                lemma_with_tool(next, index, extended, history + reported);
                let kept = with_tool(next, index, extended);
                if fragment.len() > 0 && extended.content_index is Some {
                    let step = tool_arguments(state, index, tool, function, events);
                    lemma_quiet_event(kept, kept, history, reported, step.events.last());
                    assert(step.events =~= reported.push(step.events.last()));
                }
            },
        },
    }
}

proof fn lemma_accumulate_tool(
    state: ChatModel,
    raw: JsonModel,
    at: usize,
    history: Seq<GenerationEventModel>,
    events: Seq<GenerationEventModel>,
)
    requires
        well_told(state, history, events),
    ensures
        well_told(
            accumulate_tool(state, raw, at, events).state,
            history,
            accumulate_tool(state, raw, at, events).events,
        ),
{
    reveal(accumulate_tool);
    let allow_null = state.compatibility.allow_nullable_tool_fields;
    let function = match raw.get("function"@) {
        Some(function) => function,
        None => JsonModel::Null,
    };
    match tool_string(raw, "id"@, allow_null) {
        Err(_) => {},
        Ok(id) => {
            reveal(identified_tool);
            reveal(tool_index);
            reveal(named_tool);
            let (next, index, tool) = identified_tool(state, raw, id, at);
            assert(next.tools == state.tools);
            assert(next.text == state.text && next.reasoning == state.reasoning);
            lemma_tool_at(next, index, history + events);
            assert(tool.content_index == tool_at(next, index).content_index);
            match tool_string(function, "name"@, allow_null) {
                Err(_) => {
                    lemma_with_tool(next, index, tool, history + events);
                },
                Ok(name) => {
                    lemma_tool_arguments(
                        next,
                        index,
                        named_tool(tool, name),
                        function,
                        history,
                        events,
                    );
                },
            }
        },
    }
}

proof fn lemma_accumulate_tools(
    state: ChatModel,
    calls: Seq<JsonModel>,
    start: int,
    history: Seq<GenerationEventModel>,
    events: Seq<GenerationEventModel>,
)
    requires
        well_told(state, history, events),
    ensures
        well_told(
            accumulate_tools(state, calls, start, events).state,
            history,
            accumulate_tools(state, calls, start, events).events,
        ),
    decreases calls.len() - start,
{
    if 0 <= start < calls.len() {
        lemma_accumulate_tool(state, calls[start], start as usize, history, events);
        let step = accumulate_tool(state, calls[start], start as usize, events);
        if step.error.is_none() {
            lemma_accumulate_tools(step.state, calls, start + 1, history, step.events);
        }
    }
}

proof fn lemma_apply_delta(
    state: ChatModel,
    delta: JsonModel,
    history: Seq<GenerationEventModel>,
    events: Seq<GenerationEventModel>,
)
    requires
        well_told(state, history, events),
    ensures
        well_told(
            apply_delta(state, delta, events).state,
            history,
            apply_delta(state, delta, events).events,
        ),
{
    reveal(apply_delta);
    reveal(tools_part);
    reveal(details_part);
    let (after_text, with_text) = text_part(state, delta, events);
    lemma_text_part(state, delta, history, events);
    let (after_reasoning, with_reasoning) = reasoning_part(after_text, delta, with_text);
    lemma_reasoning_part(after_text, delta, history, with_text);
    let detailed = details_part(after_reasoning, delta);
    assert(well_told(detailed, history, with_reasoning));
    match delta.array_at("tool_calls"@) {
        Some(calls) => {
            let (closed, reported) = finish_open_content(detailed, with_reasoning);
            lemma_finish_open_content(detailed, history, with_reasoning);
            lemma_accumulate_tools(closed, calls, 0, history, reported);
        },
        None => {},
    }
}

proof fn lemma_finish_tools(
    state: ChatModel,
    start: int,
    history: Seq<GenerationEventModel>,
    events: Seq<GenerationEventModel>,
)
    requires
        well_told(state, history, events),
    ensures
        well_told(state, history, finish_tools(state.tools, start, events).0),
    decreases state.tools.len() - start,
{
    let tools = state.tools;
    if 0 <= start < tools.len() {
        match tools[start].1.content_index {
            Some(content_index) => {
                let event = tool_finished(tools[start].0, tools[start].1, content_index);
                lemma_push_event(tools, history + events, event);
                assert((history + events).push(event) =~= history + events.push(event));
                lemma_finish_tools(state, start + 1, history, events.push(event));
            },
            None => {},
        }
    }
}

proof fn lemma_apply_choice(
    state: ChatModel,
    choice: JsonModel,
    history: Seq<GenerationEventModel>,
    events: Seq<GenerationEventModel>,
)
    requires
        well_told(state, history, events),
    ensures
        well_told(
            apply_choice(state, choice, events).state,
            history,
            apply_choice(state, choice, events).events,
        ),
{
    reveal(apply_choice);
    reveal(finish_parts);
    let step = match choice.get("delta"@) {
        Some(delta) => apply_delta(state, delta, events),
        None => ChatStep { state, events, error: None },
    };
    match choice.get("delta"@) {
        Some(delta) => {
            lemma_apply_delta(state, delta, history, events);
        },
        None => {},
    }
    match choice.str_at("finish_reason"@) {
        Some(reason) => {
            let named = ChatModel { finish_reason: Some(finish_reason_of(reason)), ..step.state };
            lemma_finish_open_content(named, history, step.events);
            let (closed, reported) = finish_open_content(named, step.events);
            lemma_finish_tools(closed, 0, history, reported);
        },
        None => {},
    }
}

/// Nothing was told before the stream begins.
pub proof fn a_fresh_session_is_well_told(compatibility: CompatibilityProfile)
    ensures
        well_told(fresh(compatibility), Seq::empty(), Seq::empty()),
{
}

/// Frame by frame, a stream is told in order: a tool call is reported as finished only after it was
/// reported as started, in the same place of the message; and text and reasoning are never open
/// together. `history` is what the frames before have reported.
pub proof fn frames_are_told_in_order(
    state: ChatModel,
    data: Seq<char>,
    history: Seq<GenerationEventModel>,
)
    requires
        well_told(state, history, Seq::empty()),
    ensures
        match ingest(state, data).result {
            Ok(update) => well_told(ingest(state, data).state, history, update.events),
            Err(_) => true,
        },
{
    reveal(take_terminal);
    assert(history + Seq::<GenerationEventModel>::empty() =~= history);
    match parsed_json(data) {
        None => {},
        Some(value) => {
            reveal(frame_head);
            let (head, events) = frame_head(state, value);
            assert(well_told(head, history, events)) by {
                lemma_head(state, value, history);
            }
            match first_choice(value) {
                Some(choice) => {
                    lemma_apply_choice(head, choice, history, events);
                },
                None => {},
            }
        },
    }
}

proof fn lemma_head(state: ChatModel, value: JsonModel, history: Seq<GenerationEventModel>)
    requires
        well_told(state, history, Seq::empty()),
    ensures
        well_told(frame_head(state, value).0, history, frame_head(state, value).1),
{
    reveal(frame_head);
    let (head, events) = frame_head(state, value);
    let none = Seq::<GenerationEventModel>::empty();
    if events.len() == 1 {
        lemma_quiet_event(state, head, history, none, events[0]);
        assert(events =~= none.push(events[0]));
    } else if events.len() == 2 {
        lemma_quiet_event(state, head, history, none, events[0]);
        lemma_quiet_event(head, head, history, none.push(events[0]), events[1]);
        assert(events =~= none.push(events[0]).push(events[1]));
    } else {
        assert(events =~= none);
    }
}

} // verus!
