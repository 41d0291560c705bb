//! What a Chat Completions stream reports always adds up to a message.

use vstd::prelude::*;

use crate::json::{parsed_json, JsonModel};
use crate::llm::event::GenerationEventModel;
use crate::llm::gateway::assembler::{observed, reasoning_at, text_at, AssembledModel, Blocks};
use crate::llm::protocol::chat_completions::model::{
    accumulate_tool, accumulate_tools, apply_choice, apply_delta, argument_fragment, details_part,
    finish_open_content, finish_parts, finish_reason_of, finish_reasoning, finish_text,
    finish_tools, first_choice, frame_head, fresh, identified_tool, ingest, named_tool,
    reasoning_part, selected_reasoning, start_reasoning, start_text, start_tool, take_terminal,
    text_part, tool_arguments, tool_at, tool_finished, tool_index, tool_string, tools_part,
    with_tool, ChatModel, ChatStep, OpenModel, ToolModel,
};
use crate::llm::protocol::CompatibilityProfile;
use crate::ordered::{
    find, find_after_put, lemma_position_from, position, put, put_keeps_order, sorted,
};

verus! {

/// The blocks after events from position `start` on, unless one of them does not fit.
pub open spec fn assembled(
    blocks: Blocks,
    events: Seq<GenerationEventModel>,
    start: int,
) -> Option<Blocks>
    decreases events.len() - start,
{
    if start < 0 || start >= events.len() {
        Some(blocks)
    } else {
        match observed(blocks, events[start]) {
            (_, Some(_)) => None,
            (next, None) => assembled(next, events, start + 1),
        }
    }
}

proof fn lemma_assembled_push(
    blocks: Blocks,
    events: Seq<GenerationEventModel>,
    event: GenerationEventModel,
    start: int,
)
    requires
        0 <= start <= events.len(),
    ensures
        assembled(blocks, events.push(event), start) == match assembled(blocks, events, start) {
            None => None,
            Some(so_far) => match observed(so_far, event) {
                (_, Some(_)) => None,
                (next, None) => Some(next),
            },
        },
    decreases events.len() - start,
{
    let longer = events.push(event);
    if start < events.len() {
        assert(longer[start] == events[start]);
        match observed(blocks, events[start]) {
            (_, Some(_)) => {},
            (next, None) => {
                lemma_assembled_push(next, events, event, start + 1);
            },
        }
    } else {
        assert(longer[start] == event);
        match observed(blocks, event) {
            (_, Some(_)) => {},
            (next, None) => {
                assert(assembled(next, longer, start + 1) == Some(next));
            },
        }
    }
}

/// Whether the blocks hold an open text where the session has one.
pub open spec fn holds_text(blocks: Blocks, open: Option<OpenModel>) -> bool {
    match open {
        Some(open) => match text_at(blocks, open.content_index, open.id) {
            Some(state) => !state.finished,
            None => false,
        },
        None => true,
    }
}

/// Whether the blocks hold open reasoning where the session has some.
pub open spec fn holds_reasoning(blocks: Blocks, open: Option<OpenModel>) -> bool {
    match open {
        Some(open) => match reasoning_at(blocks, open.content_index, open.id) {
            Some(state) => !state.finished,
            None => false,
        },
        None => true,
    }
}

/// Whether a block is that of a tool call.
pub open spec fn holds_tool(blocks: Blocks, index: usize, content_index: usize) -> bool {
    match find(blocks, content_index) {
        Some(AssembledModel::Tool { index: current, .. }) => current == index,
        _ => false,
    }
}

/// Whether the blocks hold every tool call that has a place in the message.
pub open spec fn holds_tools(blocks: Blocks, tools: Seq<(usize, ToolModel)>) -> bool {
    forall|k: int|
        0 <= k < tools.len() && (#[trigger] tools[k]).1.content_index is Some ==> holds_tool(
            blocks,
            tools[k].0,
            tools[k].1.content_index->0,
        )
}

/// Whether the blocks are those of the session: what is open there is open here, and the next
/// place of the message is free.
pub open spec fn agrees(state: ChatModel, blocks: Blocks) -> bool {
    &&& sorted(blocks)
    &&& forall|k: int| 0 <= k < blocks.len() ==> (#[trigger] blocks[k]).0 < state.next_content_index
    &&& holds_text(blocks, state.text)
    &&& holds_reasoning(blocks, state.reasoning)
    &&& holds_tools(blocks, state.tools)
}

/// Whether what a session has reported adds up, as long as there are places left in the message.
pub open spec fn adds_up(
    state: ChatModel,
    blocks: Blocks,
    events: Seq<GenerationEventModel>,
) -> bool {
    state.next_content_index < usize::MAX ==> match assembled(blocks, events, 0) {
        Some(so_far) => agrees(state, so_far),
        None => false,
    }
}

/// A key that is set is one of those that were there, or the new one.
proof fn lemma_put_keys(blocks: Blocks, key: usize, value: AssembledModel, limit: usize)
    requires
        forall|k: int| 0 <= k < blocks.len() ==> (#[trigger] blocks[k]).0 < limit,
        key < limit,
    ensures
        forall|k: int|
            0 <= k < put(blocks, key, value).len() ==> (#[trigger] put(blocks, key, value)[k]).0
                < limit,
{
    reveal(put);
    lemma_position_from(blocks, key, 0);
    let next = put(blocks, key, value);
    let at = position(blocks, key);
    assert forall|k: int| 0 <= k < next.len() implies (#[trigger] next[k]).0 < limit by {
        if at < blocks.len() && blocks[at].0 == key {
            if k != at {
                assert(next[k] == blocks[k]);
            }
        } else if k < at {
            assert(next[k] == blocks[k]);
        } else if k > at {
            assert(next[k] == blocks[k - 1]);
        }
    }
}

/// A place that no block has is free.
proof fn lemma_free(blocks: Blocks, key: usize)
    requires
        forall|k: int| 0 <= k < blocks.len() ==> (#[trigger] blocks[k]).0 < key,
    ensures
        find(blocks, key) is None,
{
    reveal(find);
    lemma_position_from(blocks, key, 0);
}

/// A place that a block has is below the next free one.
proof fn lemma_taken(blocks: Blocks, key: usize, limit: usize)
    requires
        forall|k: int| 0 <= k < blocks.len() ==> (#[trigger] blocks[k]).0 < limit,
        find(blocks, key) is Some,
    ensures
        key < limit,
{
    reveal(find);
    lemma_position_from(blocks, key, 0);
}

/// Tool calls stay where they are when another place is set.
proof fn lemma_tools_stay(
    blocks: Blocks,
    tools: Seq<(usize, ToolModel)>,
    key: usize,
    value: AssembledModel,
)
    requires
        sorted(blocks),
        holds_tools(blocks, tools),
        !(find(blocks, key) is Some && find(blocks, key)->0 is Tool),
    ensures
        holds_tools(put(blocks, key, value), tools),
{
    let next = put(blocks, key, value);
    assert forall|k: int|
        0 <= k < tools.len() && (#[trigger] tools[k]).1.content_index is Some implies holds_tool(
        next,
        tools[k].0,
        tools[k].1.content_index->0,
    ) by {
        let place = tools[k].1.content_index->0;
        assert(holds_tool(blocks, tools[k].0, place));
        find_after_put(blocks, key, value, place);
    }
}

/// An event that no block takes in.
proof fn lemma_passing_event(
    before: ChatModel,
    after: ChatModel,
    blocks: Blocks,
    events: Seq<GenerationEventModel>,
    event: GenerationEventModel,
)
    requires
        adds_up(before, blocks, events),
        event is Started || event is UsageUpdated || event is ToolCallDelta,
        after.next_content_index == before.next_content_index,
        after.text == before.text,
        after.reasoning == before.reasoning,
        after.tools == before.tools,
    ensures
        adds_up(after, blocks, events.push(event)),
{
    reveal(observed);
    lemma_assembled_push(blocks, events, event, 0);
}

proof fn lemma_finish_text(
    state: ChatModel,
    blocks: Blocks,
    events: Seq<GenerationEventModel>,
)
    requires
        adds_up(state, blocks, events),
    ensures
        adds_up(finish_text(state, events).0, blocks, finish_text(state, events).1),
        finish_text(state, events).0.next_content_index == state.next_content_index,
        finish_text(state, events).0.tools == state.tools,
        finish_text(state, events).0.reasoning == state.reasoning,
        finish_text(state, events).0.text is None,
{
    reveal(finish_text);
    reveal(observed);
    match state.text {
        Some(open) => {
            let event = GenerationEventModel::TextFinished {
                content_index: open.content_index,
                id: open.id,
                replay: None,
            };
            lemma_assembled_push(blocks, events, event, 0);
            if state.next_content_index < usize::MAX {
                let so_far = assembled(blocks, events, 0)->0;
                let at = open.content_index;
                let text = text_at(so_far, at, open.id)->0;
                let value = AssembledModel::Text {
                    id: open.id,
                    text: text.text,
                    replay: text.replay,
                    finished: true,
                };
                let next = put(so_far, at, value);
                put_keeps_order(so_far, at, value);
                lemma_taken(so_far, at, state.next_content_index);
                lemma_put_keys(so_far, at, value, state.next_content_index);
                lemma_tools_stay(so_far, state.tools, at, value);
                match state.reasoning {
                    Some(thinking) => {
                        find_after_put(so_far, at, value, thinking.content_index);
                    },
                    None => {},
                }
                assert(observed(so_far, event).0 == next);
            }
        },
        None => {},
    }
}

proof fn lemma_finish_reasoning(
    state: ChatModel,
    blocks: Blocks,
    events: Seq<GenerationEventModel>,
)
    requires
        adds_up(state, blocks, events),
    ensures
        adds_up(finish_reasoning(state, events).0, blocks, finish_reasoning(state, events).1),
        finish_reasoning(state, events).0.next_content_index == state.next_content_index,
        finish_reasoning(state, events).0.tools == state.tools,
        finish_reasoning(state, events).0.text == state.text,
        finish_reasoning(state, events).0.reasoning is None,
{
    reveal(finish_reasoning);
    reveal(observed);
    match state.reasoning {
        Some(open) => {
            let event = finish_reasoning(state, events).1.last();
            assert(finish_reasoning(state, events).1 =~= events.push(event));
            lemma_assembled_push(blocks, events, event, 0);
            if state.next_content_index < usize::MAX {
                let so_far = assembled(blocks, events, 0)->0;
                let at = open.content_index;
                let next = observed(so_far, event).0;
                let thinking = reasoning_at(so_far, at, open.id)->0;
                let ended = AssembledModel::Reasoning {
                    id: open.id,
                    display: thinking.text,
                    replay: match event {
                        GenerationEventModel::ReasoningFinished { replay, .. } => if replay.is_some() {
                            replay
                        } else {
                            thinking.replay
                        },
                        _ => None,
                    },
                    finished: true,
                };
                assert(next == put(so_far, at, ended));
                put_keeps_order(so_far, at, ended);
                lemma_taken(so_far, at, state.next_content_index);
                lemma_put_keys(so_far, at, ended, state.next_content_index);
                lemma_tools_stay(so_far, state.tools, at, ended);
                match state.text {
                    Some(text) => {
                        find_after_put(so_far, at, ended, text.content_index);
                    },
                    None => {},
                }
            }
        },
        None => {},
    }
}

proof fn lemma_finish_open_content(
    state: ChatModel,
    blocks: Blocks,
    events: Seq<GenerationEventModel>,
)
    requires
        adds_up(state, blocks, events),
    ensures
        adds_up(finish_open_content(state, events).0, blocks, finish_open_content(state, events).1),
{
    reveal(finish_open_content);
    let (after_text, reported) = finish_text(state, events);
    lemma_finish_text(state, blocks, events);
    lemma_finish_reasoning(after_text, blocks, reported);
}

/// A new block in the next place of the message.
proof fn lemma_new_block(
    before: ChatModel,
    after: ChatModel,
    so_far: Blocks,
    value: AssembledModel,
)
    requires
        agrees(before, so_far),
        before.next_content_index < after.next_content_index,
    ensures
        ({
            let next = put(so_far, before.next_content_index, value);
            &&& find(so_far, before.next_content_index) is None
            &&& find(next, before.next_content_index) == Some(value)
            &&& sorted(next)
            &&& forall|k: int|
                0 <= k < next.len() ==> (#[trigger] next[k]).0 < after.next_content_index
            &&& holds_text(next, before.text)
            &&& holds_reasoning(next, before.reasoning)
            &&& holds_tools(next, before.tools)
        }),
{
    let at = before.next_content_index;
    lemma_free(so_far, at);
    put_keeps_order(so_far, at, value);
    find_after_put(so_far, at, value, at);
    assert forall|k: int| 0 <= k < so_far.len() implies (#[trigger] so_far[k]).0
        < after.next_content_index by {}
    lemma_put_keys(so_far, at, value, after.next_content_index);
    lemma_tools_stay(so_far, before.tools, at, value);
    match before.text {
        Some(open) => {
            find_after_put(so_far, at, value, open.content_index);
        },
        None => {},
    }
    match before.reasoning {
        Some(open) => {
            find_after_put(so_far, at, value, open.content_index);
        },
        None => {},
    }
}

proof fn lemma_start_text(
    state: ChatModel,
    blocks: Blocks,
    events: Seq<GenerationEventModel>,
)
    requires
        adds_up(state, blocks, events),
    ensures
        ({
            let (after, reported, open) = start_text(state, events);
            &&& adds_up(after, blocks, reported)
            &&& after.text == Some(open)
            &&& after.reasoning is None
        }),
{
    reveal(start_text);
    reveal(observed);
    let (closed, reported) = finish_reasoning(state, events);
    lemma_finish_reasoning(state, blocks, events);
    if closed.text is None {
        let (after, all, open) = start_text(state, events);
        let event = all.last();
        assert(all =~= reported.push(event));
        lemma_assembled_push(blocks, reported, event, 0);
        if after.next_content_index < usize::MAX {
            let so_far = assembled(blocks, reported, 0)->0;
            let value = AssembledModel::Text {
                id: open.id,
                text: Seq::empty(),
                replay: None,
                finished: false,
            };
            lemma_new_block(closed, after, so_far, value);
        }
    }
}

proof fn lemma_start_reasoning(
    state: ChatModel,
    blocks: Blocks,
    events: Seq<GenerationEventModel>,
)
    requires
        adds_up(state, blocks, events),
    ensures
        ({
            let (after, reported, open) = start_reasoning(state, events);
            &&& adds_up(after, blocks, reported)
            &&& after.reasoning == Some(open)
            &&& after.text is None
        }),
{
    reveal(start_reasoning);
    reveal(observed);
    let (closed, reported) = finish_text(state, events);
    lemma_finish_text(state, blocks, events);
    if closed.reasoning is None {
        let (after, all, open) = start_reasoning(state, events);
        let event = all.last();
        assert(all =~= reported.push(event));
        lemma_assembled_push(blocks, reported, event, 0);
        if after.next_content_index < usize::MAX {
            let so_far = assembled(blocks, reported, 0)->0;
            let value = AssembledModel::Reasoning {
                id: open.id,
                display: Seq::empty(),
                replay: None,
                finished: false,
            };
            lemma_new_block(closed, after, so_far, value);
        }
    }
}

proof fn lemma_text_part(
    state: ChatModel,
    delta: JsonModel,
    blocks: Blocks,
    events: Seq<GenerationEventModel>,
)
    requires
        adds_up(state, blocks, events),
    ensures
        adds_up(text_part(state, delta, events).0, blocks, text_part(state, delta, events).1),
{
    reveal(text_part);
    reveal(observed);
    match delta.str_at("content"@) {
        Some(text) => if text.len() > 0 {
            let (next, reported, open) = start_text(state, events);
            lemma_start_text(state, blocks, events);
            let event = GenerationEventModel::TextDelta {
                content_index: open.content_index,
                id: open.id,
                delta: text,
            };
            lemma_assembled_push(blocks, reported, event, 0);
            if next.next_content_index < usize::MAX {
                let so_far = assembled(blocks, reported, 0)->0;
                let at = open.content_index;
                let was = text_at(so_far, at, open.id)->0;
                let value = AssembledModel::Text {
                    id: open.id,
                    text: was.text + text,
                    replay: was.replay,
                    finished: was.finished,
                };
                put_keeps_order(so_far, at, value);
                find_after_put(so_far, at, value, at);
                lemma_taken(so_far, at, next.next_content_index);
                lemma_put_keys(so_far, at, value, next.next_content_index);
                lemma_tools_stay(so_far, next.tools, at, value);
                assert(observed(so_far, event).0 == put(so_far, at, value));
            }
        },
        None => {},
    }
}

proof fn lemma_reasoning_part(
    state: ChatModel,
    delta: JsonModel,
    blocks: Blocks,
    events: Seq<GenerationEventModel>,
)
    requires
        adds_up(state, blocks, events),
    ensures
        adds_up(
            reasoning_part(state, delta, events).0,
            blocks,
            reasoning_part(state, delta, events).1,
        ),
{
    reveal(reasoning_part);
    reveal(observed);
    match selected_reasoning(delta, state.compatibility.reasoning_field) {
        Some((field, text)) => {
            let known = ChatModel {
                reasoning_field: match state.reasoning_field {
                    Some(first) => Some(first),
                    None => Some(field),
                },
                ..state
            };
            assert(adds_up(known, blocks, events));
            let (next, reported, open) = start_reasoning(known, events);
            lemma_start_reasoning(known, blocks, events);
            let event = GenerationEventModel::ReasoningDelta {
                content_index: open.content_index,
                id: open.id,
                delta: text,
            };
            lemma_assembled_push(blocks, reported, event, 0);
            if next.next_content_index < usize::MAX {
                let so_far = assembled(blocks, reported, 0)->0;
                let at = open.content_index;
                let was = reasoning_at(so_far, at, open.id)->0;
                let value = AssembledModel::Reasoning {
                    id: open.id,
                    display: was.text + text,
                    replay: was.replay,
                    finished: was.finished,
                };
                put_keeps_order(so_far, at, value);
                find_after_put(so_far, at, value, at);
                lemma_taken(so_far, at, next.next_content_index);
                lemma_put_keys(so_far, at, value, next.next_content_index);
                lemma_tools_stay(so_far, next.tools, at, value);
                assert(observed(so_far, event).0 == put(so_far, at, value));
            }
        },
        None => {},
    }
}

/// Setting a tool call whose place the blocks hold for it.
proof fn lemma_with_tool(
    state: ChatModel,
    index: usize,
    tool: ToolModel,
    blocks: Blocks,
    events: Seq<GenerationEventModel>,
)
    requires
        adds_up(state, blocks, events),
        state.next_content_index < usize::MAX && tool.content_index is Some ==> holds_tool(
            assembled(blocks, events, 0)->0,
            index,
            tool.content_index->0,
        ),
    ensures
        adds_up(with_tool(state, index, tool), blocks, events),
{
    if state.next_content_index < usize::MAX {
        let so_far = assembled(blocks, events, 0)->0;
        reveal(put);
        let tools = state.tools;
        let next = put(tools, index, tool);
        let at = position(tools, index);
        lemma_position_from(tools, index, 0);
        assert forall|k: int|
            0 <= k < next.len() && (#[trigger] next[k]).1.content_index is Some implies holds_tool(
            so_far,
            next[k].0,
            next[k].1.content_index->0,
        ) by {
            if at < tools.len() && tools[at].0 == index {
                if k != at {
                    assert(next[k] == tools[k]);
                }
            } else if k < at {
                assert(next[k] == tools[k]);
            } else if k > at {
                assert(next[k] == tools[k - 1]);
            }
        }
    }
}

proof fn lemma_tool_at(state: ChatModel, index: usize, blocks: Blocks)
    requires
        holds_tools(blocks, state.tools),
    ensures
        tool_at(state, index).content_index is Some ==> holds_tool(
            blocks,
            index,
            tool_at(state, index).content_index->0,
        ),
{
    reveal(find);
    lemma_position_from(state.tools, index, 0);
}

proof fn lemma_tool_arguments(
    state: ChatModel,
    index: usize,
    tool: ToolModel,
    function: JsonModel,
    blocks: Blocks,
    events: Seq<GenerationEventModel>,
)
    requires
        adds_up(state, blocks, events),
        state.next_content_index < usize::MAX && tool.content_index is Some ==> holds_tool(
            assembled(blocks, events, 0)->0,
            index,
            tool.content_index->0,
        ),
    ensures
        adds_up(
            tool_arguments(state, index, tool, function, events).state,
            blocks,
            tool_arguments(state, index, tool, function, events).events,
        ),
        state.next_content_index <= tool_arguments(
            state,
            index,
            tool,
            function,
            events,
        ).state.next_content_index,
{
    reveal(tool_arguments);
    reveal(start_tool);
    reveal(observed);
    let (next, running, reported) = start_tool(state, index, tool, events);
    if !tool.started {
        let event = reported.last();
        assert(reported =~= events.push(event));
        lemma_assembled_push(blocks, events, event, 0);
        if next.next_content_index < usize::MAX {
            let so_far = assembled(blocks, events, 0)->0;
            let value = AssembledModel::Tool { index, tool_call: None };
            lemma_new_block(state, next, so_far, value);
            assert(assembled(blocks, reported, 0) == Some(
                put(so_far, state.next_content_index, value),
            ));
        }
    }
    assert(adds_up(next, blocks, reported));
    assert(next.next_content_index < usize::MAX && running.content_index is Some ==> holds_tool(
        assembled(blocks, reported, 0)->0,
        index,
        running.content_index->0,
    ));
    lemma_with_tool(next, index, running, blocks, reported);
    match function.get("arguments"@) {
        None => {},
        Some(arguments) => match argument_fragment(arguments, state.compatibility) {
            Err(_) => {},
            Ok(fragment) => {
                let extended = ToolModel { arguments: running.arguments + fragment, ..running };
                lemma_with_tool(next, index, extended, blocks, reported);
                let kept = with_tool(next, index, extended);
                if fragment.len() > 0 && extended.content_index is Some {
                    let step = tool_arguments(state, index, tool, function, events);
                    lemma_passing_event(kept, kept, blocks, reported, step.events.last());
                    assert(step.events =~= reported.push(step.events.last()));
                }
            },
        },
    }
}

proof fn lemma_accumulate_tool(
    state: ChatModel,
    raw: JsonModel,
    at: usize,
    blocks: Blocks,
    events: Seq<GenerationEventModel>,
)
    requires
        adds_up(state, blocks, events),
    ensures
        adds_up(
            accumulate_tool(state, raw, at, events).state,
            blocks,
            accumulate_tool(state, raw, at, events).events,
        ),
{
    reveal(accumulate_tool);
    let allow_null = state.compatibility.allow_nullable_tool_fields;
    let function = match raw.get("function"@) {
        Some(function) => function,
        None => JsonModel::Null,
    };
    match tool_string(raw, "id"@, allow_null) {
        Err(_) => {},
        Ok(id) => {
            reveal(identified_tool);
            reveal(tool_index);
            reveal(named_tool);
            let (next, index, tool) = identified_tool(state, raw, id, at);
            assert(next.tools == state.tools);
            assert(next.text == state.text && next.reasoning == state.reasoning);
            assert(next.next_content_index == state.next_content_index);
            assert(adds_up(next, blocks, events));
            if next.next_content_index < usize::MAX {
                lemma_tool_at(next, index, assembled(blocks, events, 0)->0);
            }
            assert(tool.content_index == tool_at(next, index).content_index);
            match tool_string(function, "name"@, allow_null) {
                Err(_) => {
                    lemma_with_tool(next, index, tool, blocks, events);
                },
                Ok(name) => {
                    lemma_tool_arguments(
                        next,
                        index,
                        named_tool(tool, name),
                        function,
                        blocks,
                        events,
                    );
                },
            }
        },
    }
}

proof fn lemma_accumulate_tools(
    state: ChatModel,
    calls: Seq<JsonModel>,
    start: int,
    blocks: Blocks,
    events: Seq<GenerationEventModel>,
)
    requires
        adds_up(state, blocks, events),
    ensures
        adds_up(
            accumulate_tools(state, calls, start, events).state,
            blocks,
            accumulate_tools(state, calls, start, events).events,
        ),
    decreases calls.len() - start,
{
    if 0 <= start < calls.len() {
        lemma_accumulate_tool(state, calls[start], start as usize, blocks, events);
        let step = accumulate_tool(state, calls[start], start as usize, events);
        if step.error.is_none() {
            lemma_accumulate_tools(step.state, calls, start + 1, blocks, step.events);
        }
    }
}

proof fn lemma_apply_delta(
    state: ChatModel,
    delta: JsonModel,
    blocks: Blocks,
    events: Seq<GenerationEventModel>,
)
    requires
        adds_up(state, blocks, events),
    ensures
        adds_up(
            apply_delta(state, delta, events).state,
            blocks,
            apply_delta(state, delta, events).events,
        ),
{
    reveal(apply_delta);
    reveal(tools_part);
    reveal(details_part);
    let (after_text, with_text) = text_part(state, delta, events);
    lemma_text_part(state, delta, blocks, events);
    let (after_reasoning, with_reasoning) = reasoning_part(after_text, delta, with_text);
    lemma_reasoning_part(after_text, delta, blocks, with_text);
    let detailed = details_part(after_reasoning, delta);
    assert(adds_up(detailed, blocks, with_reasoning));
    match delta.array_at("tool_calls"@) {
        Some(calls) => {
            let (closed, reported) = finish_open_content(detailed, with_reasoning);
            lemma_finish_open_content(detailed, blocks, with_reasoning);
            lemma_accumulate_tools(closed, calls, 0, blocks, reported);
        },
        None => {},
    }
}

proof fn lemma_finish_tools(
    state: ChatModel,
    start: int,
    blocks: Blocks,
    events: Seq<GenerationEventModel>,
)
    requires
        adds_up(state, blocks, events),
    ensures
        adds_up(state, blocks, finish_tools(state.tools, start, events).0),
    decreases state.tools.len() - start,
{
    reveal(observed);
    let tools = state.tools;
    if 0 <= start < tools.len() {
        match tools[start].1.content_index {
            Some(at) => {
                let event = tool_finished(tools[start].0, tools[start].1, at);
                lemma_assembled_push(blocks, events, event, 0);
                if state.next_content_index < usize::MAX {
                    let so_far = assembled(blocks, events, 0)->0;
                    assert(holds_tool(so_far, tools[start].0, at));
                    let next = observed(so_far, event).0;
                    let value = AssembledModel::Tool {
                        index: tools[start].0,
                        tool_call: match event {
                            GenerationEventModel::ToolCallFinished { tool_call, .. } => Some(
                                tool_call,
                            ),
                            _ => None,
                        },
                    };
                    assert(next == put(so_far, at, value));
                    put_keeps_order(so_far, at, value);
                    lemma_taken(so_far, at, state.next_content_index);
                    lemma_put_keys(so_far, at, value, state.next_content_index);
                    lemma_same_tool_stays(so_far, tools, at, value, tools[start].0);
                    match state.text {
                        Some(open) => {
                            find_after_put(so_far, at, value, open.content_index);
                        },
                        None => {},
                    }
                    match state.reasoning {
                        Some(open) => {
                            find_after_put(so_far, at, value, open.content_index);
                        },
                        None => {},
                    }
                }
                lemma_finish_tools(state, start + 1, blocks, events.push(event));
            },
            None => {},
        }
    }
}

/// Tool calls stay where they are when one of them is completed.
proof fn lemma_same_tool_stays(
    blocks: Blocks,
    tools: Seq<(usize, ToolModel)>,
    key: usize,
    value: AssembledModel,
    index: usize,
)
    requires
        sorted(blocks),
        holds_tools(blocks, tools),
        holds_tool(blocks, index, key),
        value is Tool,
        value->Tool_index == index,
    ensures
        holds_tools(put(blocks, key, value), tools),
{
    let next = put(blocks, key, value);
    assert forall|k: int|
        0 <= k < tools.len() && (#[trigger] tools[k]).1.content_index is Some implies holds_tool(
        next,
        tools[k].0,
        tools[k].1.content_index->0,
    ) by {
        let place = tools[k].1.content_index->0;
        assert(holds_tool(blocks, tools[k].0, place));
        find_after_put(blocks, key, value, place);
    }
}

proof fn lemma_apply_choice(
    state: ChatModel,
    choice: JsonModel,
    blocks: Blocks,
    events: Seq<GenerationEventModel>,
)
    requires
        adds_up(state, blocks, events),
    ensures
        adds_up(
            apply_choice(state, choice, events).state,
            blocks,
            apply_choice(state, choice, events).events,
        ),
{
    reveal(apply_choice);
    reveal(finish_parts);
    let step = match choice.get("delta"@) {
        Some(delta) => apply_delta(state, delta, events),
        None => ChatStep { state, events, error: None },
    };
    match choice.get("delta"@) {
        Some(delta) => {
            lemma_apply_delta(state, delta, blocks, events);
        },
        None => {},
    }
    match choice.str_at("finish_reason"@) {
        Some(reason) => {
            let named = ChatModel { finish_reason: Some(finish_reason_of(reason)), ..step.state };
            assert(adds_up(named, blocks, step.events));
            lemma_finish_open_content(named, blocks, step.events);
            let (closed, reported) = finish_open_content(named, step.events);
            lemma_finish_tools(closed, 0, blocks, reported);
        },
        None => {},
    }
}

proof fn lemma_head(state: ChatModel, value: JsonModel, blocks: Blocks)
    requires
        agrees(state, blocks),
    ensures
        adds_up(frame_head(state, value).0, blocks, frame_head(state, value).1),
{
    reveal(frame_head);
    let (head, events) = frame_head(state, value);
    let none = Seq::<GenerationEventModel>::empty();
    assert(adds_up(state, blocks, none));
    if events.len() == 1 {
        lemma_passing_event(state, head, blocks, none, events[0]);
        assert(events =~= none.push(events[0]));
    } else if events.len() == 2 {
        lemma_passing_event(state, head, blocks, none, events[0]);
        lemma_passing_event(head, head, blocks, none.push(events[0]), events[1]);
        assert(events =~= none.push(events[0]).push(events[1]));
    } else {
        assert(events =~= none);
    }
}

/// A session and a message that have not begun agree.
pub proof fn a_fresh_session_agrees(compatibility: CompatibilityProfile)
    ensures
        agrees(fresh(compatibility), Seq::empty()),
{
}

/// Frame by frame, what a Chat Completions session reports fits the message that is assembled from
/// it: no event is refused, and the two agree on what is open. (The message has room for as many
/// blocks as there are indices.)
pub proof fn chat_frames_always_fit(state: ChatModel, data: Seq<char>, blocks: Blocks)
    requires
        agrees(state, blocks),
    ensures
        match ingest(state, data).result {
            Ok(update) => ingest(state, data).state.next_content_index < usize::MAX ==> {
                &&& assembled(blocks, update.events, 0) is Some
                &&& agrees(ingest(state, data).state, assembled(blocks, update.events, 0)->0)
            },
            Err(_) => true,
        },
{
    reveal(take_terminal);
    match parsed_json(data) {
        None => {},
        Some(value) => {
            let (head, events) = frame_head(state, value);
            lemma_head(state, value, blocks);
            match first_choice(value) {
                Some(choice) => {
                    lemma_apply_choice(head, choice, blocks, events);
                },
                None => {},
            }
        },
    }
}

} // verus!
