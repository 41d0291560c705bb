//! What a whole Chat Completions stream reports.

use vstd::prelude::*;

use crate::json::{json_text, parsed_json, JsonModel};
use crate::llm::event::GenerationEventModel;
use crate::llm::protocol::chat_completions::model::{
    accumulate_tool, accumulate_tools, apply_choice, apply_delta, argument_fragment, details_part,
    finish_open_content, finish_parts, finish_reason_of, finish_reasoning, finish_text,
    finish_tools, first_choice, frame_head, fresh, identified_tool, ingest, named_tool, next_index,
    reasoning_part, selected_reasoning, start_reasoning, start_text, start_tool, take_terminal,
    text_part, tool_arguments, tool_finished, tool_index, tool_string, tools_part, ChatModel,
    ChatStep, ToolModel,
};
use crate::llm::protocol::chat_completions::order::{
    a_fresh_session_is_well_told, finished_after_started, frames_are_told_in_order, is_tool_finish,
    well_told,
};
use crate::llm::protocol::CompatibilityProfile;
use crate::ordered::{
    an_absent_name_has_no_index, find, find_after_put, index_after_with_name, lemma_position_from, position, put_keeps_order,
    sorted,
};

verus! {

/// The frames of a stream from position `start` on: the session after them and what they report, or
/// nothing if one of them is refused.
pub open spec fn stream_run(state: ChatModel, frames: Seq<Seq<char>>, start: int) -> Option<
    (ChatModel, Seq<GenerationEventModel>),
>
    decreases frames.len() - start,
{
    if start < 0 || start >= frames.len() {
        Some((state, Seq::empty()))
    } else {
        let step = ingest(state, frames[start]);
        match step.result {
            Err(_) => None,
            Ok(update) => match stream_run(step.state, frames, start + 1) {
                None => None,
                Some((last, rest)) => Some((last, update.events + rest)),
            },
        }
    }
}

/// The place in the message of a block that an event starts.
pub open spec fn block_start(event: GenerationEventModel) -> Option<usize> {
    match event {
        GenerationEventModel::TextStarted { content_index, .. } => Some(content_index),
        GenerationEventModel::ReasoningStarted { content_index, .. } => Some(content_index),
        GenerationEventModel::ToolCallStarted { content_index, .. } => Some(content_index),
        _ => None,
    }
}

/// The places of the blocks that events start, in their order.
pub open spec fn block_starts(events: Seq<GenerationEventModel>) -> Seq<usize>
    decreases events.len(),
{
    if events.len() == 0 {
        Seq::empty()
    } else {
        match block_start(events.last()) {
            Some(content_index) => block_starts(events.drop_last()).push(content_index),
            None => block_starts(events.drop_last()),
        }
    }
}

/// A number as an index, as long as there is such an index.
pub open spec fn nth_index(n: int) -> usize {
    if n > usize::MAX {
        usize::MAX
    } else {
        n as usize
    }
}

pub open spec fn starts_call(event: GenerationEventModel, index: usize) -> bool {
    match event {
        GenerationEventModel::ToolCallStarted { index: i, .. } => i == index,
        _ => false,
    }
}

pub open spec fn finishes_call(event: GenerationEventModel, index: usize) -> bool {
    match event {
        GenerationEventModel::ToolCallFinished { index: i, .. } => i == index,
        _ => false,
    }
}

/// How often the tool call with an index is reported as started.
pub open spec fn call_starts(events: Seq<GenerationEventModel>, index: usize) -> nat
    decreases events.len(),
{
    if events.len() == 0 {
        0
    } else if starts_call(events.last(), index) {
        call_starts(events.drop_last(), index) + 1
    } else {
        call_starts(events.drop_last(), index)
    }
}

/// How often the tool call with an index is reported as finished.
pub open spec fn call_finishes(events: Seq<GenerationEventModel>, index: usize) -> nat
    decreases events.len(),
{
    if events.len() == 0 {
        0
    } else if finishes_call(events.last(), index) {
        call_finishes(events.drop_last(), index) + 1
    } else {
        call_finishes(events.drop_last(), index)
    }
}

/// The arguments that are reported of the tool call with an index while they arrive.
pub open spec fn call_deltas(events: Seq<GenerationEventModel>, index: usize) -> Seq<char>
    decreases events.len(),
{
    if events.len() == 0 {
        Seq::empty()
    } else {
        match events.last() {
            GenerationEventModel::ToolCallDelta { index: i, delta, .. } => if i == index {
                call_deltas(events.drop_last(), index) + delta
            } else {
                call_deltas(events.drop_last(), index)
            },
            _ => call_deltas(events.drop_last(), index),
        }
    }
}

/// What one fragment adds to its tool call. Either may be empty.
pub struct ToolFragment {
    pub name: Seq<char>,
    pub arguments: Seq<char>,
}

/// What a tool call of an accepted frame adds.
pub open spec fn fragment_of(raw: JsonModel, compatibility: CompatibilityProfile) -> ToolFragment {
    let function = match raw.get("function"@) {
        Some(function) => function,
        None => JsonModel::Null,
    };
    ToolFragment {
        name: match function.str_at("name"@) {
            Some(name) => name,
            None => Seq::empty(),
        },
        arguments: match function.get("arguments"@) {
            Some(JsonModel::Str(text)) => text,
            Some(JsonModel::Object(members)) => if compatibility.allow_object_tool_arguments {
                json_text(JsonModel::Object(members))
            } else {
                Seq::empty()
            },
            _ => Seq::empty(),
        },
    }
}

/// The first name that is not empty, if there is one.
pub open spec fn first_name(fragments: Seq<ToolFragment>) -> Seq<char>
    decreases fragments.len(),
{
    if fragments.len() == 0 {
        Seq::empty()
    } else {
        let before = first_name(fragments.drop_last());
        if before.len() > 0 {
            before
        } else {
            fragments.last().name
        }
    }
}

/// The arguments of fragments, one after the other.
pub open spec fn joined_arguments(fragments: Seq<ToolFragment>) -> Seq<char>
    decreases fragments.len(),
{
    if fragments.len() == 0 {
        Seq::empty()
    } else {
        joined_arguments(fragments.drop_last()) + fragments.last().arguments
    }
}

/// The index that a tool call at a position of a frame belongs to, and the session that knows so.
pub open spec fn routed(state: ChatModel, raw: JsonModel, at: usize) -> (ChatModel, usize) {
    let id = match tool_string(raw, "id"@, state.compatibility.allow_nullable_tool_fields) {
        Ok(id) => id,
        Err(_) => None,
    };
    let (next, index, _) = identified_tool(state, raw, id, at);
    (next, index)
}

/// The fragments that belong to an index, of the tool calls from position `start` on.
pub open spec fn call_fragments(
    state: ChatModel,
    calls: Seq<JsonModel>,
    start: int,
    index: usize,
) -> Seq<ToolFragment>
    decreases calls.len() - start,
{
    if start < 0 || start >= calls.len() {
        Seq::empty()
    } else {
        let (next, of) = routed(state, calls[start], start as usize);
        let rest = call_fragments(next, calls, start + 1, index);
        if of == index {
            seq![fragment_of(calls[start], state.compatibility)] + rest
        } else {
            rest
        }
    }
}

/// The choice that counts in a frame.
pub open spec fn frame_choice(data: Seq<char>) -> Option<JsonModel> {
    if data == "[DONE]"@ {
        None
    } else {
        match parsed_json(data) {
            Some(value) => first_choice(value),
            None => None,
        }
    }
}

/// The tool calls in a frame.
pub open spec fn frame_calls(data: Seq<char>) -> Seq<JsonModel> {
    match frame_choice(data) {
        Some(choice) => match choice.get("delta"@) {
            Some(delta) => match delta.array_at("tool_calls"@) {
                Some(calls) => calls,
                None => Seq::empty(),
            },
            None => Seq::empty(),
        },
        None => Seq::empty(),
    }
}

/// Whether a frame gives the finish reason.
pub open spec fn gives_finish_reason(data: Seq<char>) -> bool {
    match frame_choice(data) {
        Some(choice) => choice.str_at("finish_reason"@) is Some,
        None => false,
    }
}

/// The fragments of the tool call with an index, in the frames from position `start` on.
pub open spec fn run_fragments(
    state: ChatModel,
    frames: Seq<Seq<char>>,
    start: int,
    index: usize,
) -> Seq<ToolFragment>
    decreases frames.len() - start,
{
    if start < 0 || start >= frames.len() {
        Seq::empty()
    } else {
        call_fragments(state, frame_calls(frames[start]), 0, index) + run_fragments(
            ingest(state, frames[start]).state,
            frames,
            start + 1,
            index,
        )
    }
}

/// Whether the blocks that were started so far are numbered in their order.
spec fn numbered(next: usize, all: Seq<GenerationEventModel>) -> bool {
    let starts = block_starts(all);
    &&& next == nth_index(starts.len() as int)
    &&& forall|k: int| 0 <= k < starts.len() ==> #[trigger] starts[k] == nth_index(k)
}

/// Whether a tool call is what its fragments say, and was reported as started once it had one.
spec fn assembled(
    tools: Seq<(usize, ToolModel)>,
    all: Seq<GenerationEventModel>,
    index: usize,
    fragments: Seq<ToolFragment>,
) -> bool {
    &&& call_deltas(all, index) == joined_arguments(fragments)
    &&& match find(tools, index) {
        None => fragments.len() == 0 && call_starts(all, index) == 0,
        Some(tool) => {
            &&& fragments.len() > 0
            &&& tool.started
            &&& tool.content_index is Some
            &&& tool.name == first_name(fragments)
            &&& tool.arguments == joined_arguments(fragments)
            &&& call_starts(all, index) == 1
        },
    }
}

/// What holds in the midst of a frame. `history` is what the frames before have reported, and
/// `events` what this one has.
spec fn kept(
    state: ChatModel,
    history: Seq<GenerationEventModel>,
    events: Seq<GenerationEventModel>,
    index: usize,
    fragments: Seq<ToolFragment>,
) -> bool {
    &&& numbered(state.next_content_index, history + events)
    &&& sorted(state.tools)
    &&& assembled(state.tools, history + events, index, fragments)
    &&& forall|k: int| 0 <= k < events.len() ==> !is_tool_finish(#[trigger] events[k])
}

/// Whether two sessions assign fragments to the same tool calls.
spec fn same_routing(a: ChatModel, b: ChatModel) -> bool {
    &&& a.compatibility == b.compatibility
    &&& a.tool_indices_by_id == b.tool_indices_by_id
    &&& a.next_tool_index == b.next_tool_index
}

proof fn lemma_numbered(
    before: usize,
    after: usize,
    all: Seq<GenerationEventModel>,
    event: GenerationEventModel,
)
    requires
        numbered(before, all),
        match block_start(event) {
            None => after == before,
            Some(content_index) => content_index == before && after == next_index(before),
        },
    ensures
        numbered(after, all.push(event)),
{
    assert(all.push(event).drop_last() =~= all);
}

/// A piece of a frame that reports one more event, about no tool call.
proof fn lemma_quiet(
    before: ChatModel,
    after: ChatModel,
    history: Seq<GenerationEventModel>,
    events: Seq<GenerationEventModel>,
    event: GenerationEventModel,
    index: usize,
    fragments: Seq<ToolFragment>,
)
    requires
        kept(before, history, events, index, fragments),
        after.tools == before.tools,
        !is_tool_finish(event),
        !(event is ToolCallStarted),
        !(event is ToolCallDelta),
        match block_start(event) {
            None => after.next_content_index == before.next_content_index,
            Some(content_index) => content_index == before.next_content_index
                && after.next_content_index == next_index(before.next_content_index),
        },
    ensures
        kept(after, history, events.push(event), index, fragments),
{
    let all = history + events;
    lemma_numbered(before.next_content_index, after.next_content_index, all, event);
    assert(all.push(event) =~= history + events.push(event));
    assert(all.push(event).drop_last() =~= all);
}

proof fn lemma_finish_text(
    state: ChatModel,
    history: Seq<GenerationEventModel>,
    events: Seq<GenerationEventModel>,
    index: usize,
    fragments: Seq<ToolFragment>,
)
    requires
        kept(state, history, events, index, fragments),
    ensures
        ({
            let (after, reported) = finish_text(state, events);
            &&& kept(after, history, reported, index, fragments)
            &&& same_routing(state, after)
        }),
{
    reveal(finish_text);
    let (after, reported) = finish_text(state, events);
    if state.text is Some {
        lemma_quiet(state, after, history, events, reported.last(), index, fragments);
        assert(reported =~= events.push(reported.last()));
    }
}

proof fn lemma_finish_reasoning(
    state: ChatModel,
    history: Seq<GenerationEventModel>,
    events: Seq<GenerationEventModel>,
    index: usize,
    fragments: Seq<ToolFragment>,
)
    requires
        kept(state, history, events, index, fragments),
    ensures
        ({
            let (after, reported) = finish_reasoning(state, events);
            &&& kept(after, history, reported, index, fragments)
            &&& same_routing(state, after)
        }),
{
    reveal(finish_reasoning);
    let (after, reported) = finish_reasoning(state, events);
    if state.reasoning is Some {
        lemma_quiet(state, after, history, events, reported.last(), index, fragments);
        assert(reported =~= events.push(reported.last()));
    }
}

proof fn lemma_finish_open_content(
    state: ChatModel,
    history: Seq<GenerationEventModel>,
    events: Seq<GenerationEventModel>,
    index: usize,
    fragments: Seq<ToolFragment>,
)
    requires
        kept(state, history, events, index, fragments),
    ensures
        ({
            let (after, reported) = finish_open_content(state, events);
            &&& kept(after, history, reported, index, fragments)
            &&& same_routing(state, after)
        }),
{
    reveal(finish_open_content);
    let (after_text, reported) = finish_text(state, events);
    lemma_finish_text(state, history, events, index, fragments);
    lemma_finish_reasoning(after_text, history, reported, index, fragments);
}

proof fn lemma_start_text(
    state: ChatModel,
    history: Seq<GenerationEventModel>,
    events: Seq<GenerationEventModel>,
    index: usize,
    fragments: Seq<ToolFragment>,
)
    requires
        kept(state, history, events, index, fragments),
    ensures
        ({
            let (after, reported, _) = start_text(state, events);
            &&& kept(after, history, reported, index, fragments)
            &&& same_routing(state, after)
        }),
{
    reveal(start_text);
    let (closed, reported) = finish_reasoning(state, events);
    lemma_finish_reasoning(state, history, events, index, fragments);
    if closed.text is None {
        let (after, all, _) = start_text(state, events);
        lemma_quiet(closed, after, history, reported, all.last(), index, fragments);
        assert(all =~= reported.push(all.last()));
    }
}

proof fn lemma_start_reasoning(
    state: ChatModel,
    history: Seq<GenerationEventModel>,
    events: Seq<GenerationEventModel>,
    index: usize,
    fragments: Seq<ToolFragment>,
)
    requires
        kept(state, history, events, index, fragments),
    ensures
        ({
            let (after, reported, _) = start_reasoning(state, events);
            &&& kept(after, history, reported, index, fragments)
            &&& same_routing(state, after)
        }),
{
    reveal(start_reasoning);
    let (closed, reported) = finish_text(state, events);
    lemma_finish_text(state, history, events, index, fragments);
    if closed.reasoning is None {
        let (after, all, _) = start_reasoning(state, events);
        lemma_quiet(closed, after, history, reported, all.last(), index, fragments);
        assert(all =~= reported.push(all.last()));
    }
}

proof fn lemma_text_part(
    state: ChatModel,
    delta: JsonModel,
    history: Seq<GenerationEventModel>,
    events: Seq<GenerationEventModel>,
    index: usize,
    fragments: Seq<ToolFragment>,
)
    requires
        kept(state, history, events, index, fragments),
    ensures
        ({
            let (after, reported) = text_part(state, delta, events);
            &&& kept(after, history, reported, index, fragments)
            &&& same_routing(state, after)
        }),
{
    reveal(text_part);
    let (after, reported) = text_part(state, delta, events);
    match delta.str_at("content"@) {
        Some(text) => if text.len() > 0 {
            let (next, all, _) = start_text(state, events);
            lemma_start_text(state, history, events, index, fragments);
            lemma_quiet(next, after, history, all, reported.last(), index, fragments);
            assert(reported =~= all.push(reported.last()));
        },
        None => {},
    }
}

proof fn lemma_reasoning_part(
    state: ChatModel,
    delta: JsonModel,
    history: Seq<GenerationEventModel>,
    events: Seq<GenerationEventModel>,
    index: usize,
    fragments: Seq<ToolFragment>,
)
    requires
        kept(state, history, events, index, fragments),
    ensures
        ({
            let (after, reported) = reasoning_part(state, delta, events);
            &&& kept(after, history, reported, index, fragments)
            &&& same_routing(state, after)
        }),
{
    reveal(reasoning_part);
    let (after, reported) = reasoning_part(state, delta, events);
    match selected_reasoning(delta, state.compatibility.reasoning_field) {
        Some((field, _)) => {
            let known = ChatModel {
                reasoning_field: match state.reasoning_field {
                    Some(first) => Some(first),
                    None => Some(field),
                },
                ..state
            };
            let (next, all, _) = start_reasoning(known, events);
            lemma_start_reasoning(known, history, events, index, fragments);
            lemma_quiet(next, after, history, all, reported.last(), index, fragments);
            assert(reported =~= all.push(reported.last()));
        },
        None => {},
    }
}

/// The tool call of a fragment, started where it was not.
proof fn lemma_start_tool(
    state: ChatModel,
    of: usize,
    tool: ToolModel,
    history: Seq<GenerationEventModel>,
    events: Seq<GenerationEventModel>,
    index: usize,
)
    requires
        numbered(state.next_content_index, history + events),
        forall|k: int| 0 <= k < events.len() ==> !is_tool_finish(#[trigger] events[k]),
    ensures
        ({
            let (next, running, reported) = start_tool(state, of, tool, events);
            &&& numbered(next.next_content_index, history + reported)
            &&& forall|k: int| 0 <= k < reported.len() ==> !is_tool_finish(#[trigger] reported[k])
            &&& call_starts(history + reported, index) == call_starts(history + events, index)
                + if of == index && !tool.started {
                1nat
            } else {
                0
            }
            &&& call_deltas(history + reported, index) == call_deltas(history + events, index)
            &&& running.started
            &&& !tool.started || tool.content_index is Some ==> running.content_index is Some
            &&& running.name == tool.name && running.arguments == tool.arguments
            &&& next.tools == state.tools
            &&& same_routing(state, next)
        }),
{
    reveal(start_tool);
    let (next, running, reported) = start_tool(state, of, tool, events);
    if !tool.started {
        let all = history + events;
        let event = reported.last();
        assert(reported =~= events.push(event));
        assert(history + reported =~= all.push(event));
        lemma_numbered(state.next_content_index, next.next_content_index, all, event);
        assert(all.push(event).drop_last() =~= all);
    }
}

/// Sessions that assign fragments alike go on doing so.
proof fn lemma_routed(a: ChatModel, b: ChatModel, raw: JsonModel, at: usize)
    requires
        same_routing(a, b),
    ensures
        same_routing(routed(a, raw, at).0, routed(b, raw, at).0),
        routed(a, raw, at).1 == routed(b, raw, at).1,
{
    reveal(identified_tool);
    reveal(tool_index);
}

/// The arguments of an accepted fragment.
proof fn lemma_tool_arguments(
    state: ChatModel,
    of: usize,
    tool: ToolModel,
    function: JsonModel,
    history: Seq<GenerationEventModel>,
    events: Seq<GenerationEventModel>,
    index: usize,
)
    requires
        numbered(state.next_content_index, history + events),
        forall|k: int| 0 <= k < events.len() ==> !is_tool_finish(#[trigger] events[k]),
        sorted(state.tools),
        tool_arguments(state, of, tool, function, events).error is None,
    ensures
        ({
            let step = tool_arguments(state, of, tool, function, events);
            let added = match function.get("arguments"@) {
                Some(arguments) => match argument_fragment(arguments, state.compatibility) {
                    Ok(text) => text,
                    Err(_) => Seq::empty(),
                },
                None => Seq::empty(),
            };
            &&& numbered(step.state.next_content_index, history + step.events)
            &&& forall|k: int|
                0 <= k < step.events.len() ==> !is_tool_finish(#[trigger] step.events[k])
            &&& sorted(step.state.tools)
            &&& call_starts(history + step.events, index) == call_starts(history + events, index)
                + if of == index && !tool.started {
                1nat
            } else {
                0
            }
            &&& call_deltas(history + step.events, index) == if of == index {
                call_deltas(history + events, index) + added
            } else {
                call_deltas(history + events, index)
            }
            &&& of != index ==> find(step.state.tools, index) == find(state.tools, index)
            &&& of == index ==> match find(step.state.tools, index) {
                Some(extended) => {
                    &&& extended.started
                    &&& !tool.started || tool.content_index is Some
                        ==> extended.content_index is Some
                    &&& extended.name == tool.name
                    &&& extended.arguments == tool.arguments + added
                },
                None => false,
            }
            &&& same_routing(state, step.state)
        }),
{
    reveal(tool_arguments);
    let step = tool_arguments(state, of, tool, function, events);
    let (next, running, reported) = start_tool(state, of, tool, events);
    lemma_start_tool(state, of, tool, history, events, index);
    put_keeps_order(next.tools, of, running);
    find_after_put(next.tools, of, running, index);
    match function.get("arguments"@) {
        None => {
            assert(tool.arguments + Seq::<char>::empty() =~= tool.arguments);
            let told = call_deltas(history + events, index);
            assert(told + Seq::<char>::empty() =~= told);
        },
        Some(arguments) => match argument_fragment(arguments, state.compatibility) {
            Err(_) => {},
            Ok(text) => {
                let extended = ToolModel { arguments: running.arguments + text, ..running };
                put_keeps_order(next.tools, of, extended);
                find_after_put(next.tools, of, extended, index);
                if text.len() > 0 {
                    let all = history + reported;
                    let event = step.events.last();
                    assert(step.events =~= reported.push(event));
                    assert(history + step.events =~= all.push(event));
                    lemma_numbered(next.next_content_index, next.next_content_index, all, event);
                    assert(all.push(event).drop_last() =~= all);
                } else {
                    let told = call_deltas(history + events, index);
                    assert(told + text =~= told);
                }
            },
        },
    }
}

/// An accepted fragment adds to its tool call and to no other.
proof fn lemma_accumulate_tool(
    state: ChatModel,
    raw: JsonModel,
    at: usize,
    history: Seq<GenerationEventModel>,
    events: Seq<GenerationEventModel>,
    index: usize,
    fragments: Seq<ToolFragment>,
)
    requires
        kept(state, history, events, index, fragments),
        accumulate_tool(state, raw, at, events).error is None,
    ensures
        ({
            let step = accumulate_tool(state, raw, at, events);
            let (next, of) = routed(state, raw, at);
            &&& kept(
                step.state,
                history,
                step.events,
                index,
                if of == index {
                    fragments.push(fragment_of(raw, state.compatibility))
                } else {
                    fragments
                },
            )
            &&& same_routing(step.state, next)
        }),
{
    reveal(accumulate_tool);
    reveal(tool_string);
    reveal(named_tool);
    let allow_null = state.compatibility.allow_nullable_tool_fields;
    let function = match raw.get("function"@) {
        Some(function) => function,
        None => JsonModel::Null,
    };
    match (tool_string(raw, "id"@, allow_null), tool_string(function, "name"@, allow_null)) {
        (Ok(id), Ok(name)) => {
            let (next, of, tool) = identified_tool(state, raw, id, at);
            lemma_identified(state, raw, id, at);
            let called = named_tool(tool, name);
            lemma_tool_arguments(next, of, called, function, history, events, index);
            if of == index {
                let fragment = fragment_of(raw, state.compatibility);
                let longer = fragments.push(fragment);
                assert(longer.drop_last() =~= fragments);
                assert(longer.last() == fragment);
                assert(tool.name =~= first_name(fragments));
                assert(tool.arguments =~= joined_arguments(fragments));
                assert(called.name =~= first_name(longer));
                assert(tool.arguments + fragment.arguments =~= joined_arguments(longer));
            }
        },
        _ => {},
    }
}

/// Finding the tool call of a fragment changes no tool call.
proof fn lemma_identified(state: ChatModel, raw: JsonModel, id: Option<Seq<char>>, at: usize)
    ensures
        ({
            let (next, of, tool) = identified_tool(state, raw, id, at);
            &&& next.tools == state.tools
            &&& next.next_content_index == state.next_content_index
            &&& next.compatibility == state.compatibility
            &&& match find(state.tools, of) {
                Some(known) => {
                    &&& tool.started == known.started
                    &&& tool.content_index == known.content_index
                    &&& tool.name == known.name
                    &&& tool.arguments == known.arguments
                },
                None => !tool.started && tool.name.len() == 0 && tool.arguments.len() == 0,
            }
        }),
{
    reveal(identified_tool);
    reveal(tool_index);
}

/// The fragments of a frame that are accepted. `router` is a session that assigns them alike.
proof fn lemma_accumulate_tools(
    state: ChatModel,
    router: ChatModel,
    calls: Seq<JsonModel>,
    start: int,
    history: Seq<GenerationEventModel>,
    events: Seq<GenerationEventModel>,
    index: usize,
    fragments: Seq<ToolFragment>,
)
    requires
        kept(state, history, events, index, fragments),
        same_routing(state, router),
        accumulate_tools(state, calls, start, events).error is None,
    ensures
        ({
            let step = accumulate_tools(state, calls, start, events);
            kept(
                step.state,
                history,
                step.events,
                index,
                fragments + call_fragments(router, calls, start, index),
            )
        }),
    decreases calls.len() - start,
{
    let added = call_fragments(router, calls, start, index);
    if 0 <= start < calls.len() {
        let raw = calls[start];
        let step = accumulate_tool(state, raw, start as usize, events);
        lemma_accumulate_tool(state, raw, start as usize, history, events, index, fragments);
        lemma_routed(state, router, raw, start as usize);
        let (next, of) = routed(router, raw, start as usize);
        let rest = call_fragments(next, calls, start + 1, index);
        if of == index {
            let more = fragments.push(fragment_of(raw, state.compatibility));
            lemma_accumulate_tools(
                step.state,
                next,
                calls,
                start + 1,
                history,
                step.events,
                index,
                more,
            );
            assert(more + rest =~= fragments + added);
        } else {
            lemma_accumulate_tools(
                step.state,
                next,
                calls,
                start + 1,
                history,
                step.events,
                index,
                fragments,
            );
        }
    } else {
        assert(fragments + added =~= fragments);
    }
}

proof fn lemma_apply_delta(
    state: ChatModel,
    router: ChatModel,
    delta: JsonModel,
    history: Seq<GenerationEventModel>,
    events: Seq<GenerationEventModel>,
    index: usize,
    fragments: Seq<ToolFragment>,
)
    requires
        kept(state, history, events, index, fragments),
        same_routing(state, router),
        apply_delta(state, delta, events).error is None,
    ensures
        ({
            let step = apply_delta(state, delta, events);
            let calls = match delta.array_at("tool_calls"@) {
                Some(calls) => calls,
                None => Seq::empty(),
            };
            kept(
                step.state,
                history,
                step.events,
                index,
                fragments + call_fragments(router, calls, 0, index),
            )
        }),
{
    reveal(apply_delta);
    reveal(tools_part);
    reveal(details_part);
    let (after_text, with_text) = text_part(state, delta, events);
    lemma_text_part(state, delta, history, events, index, fragments);
    let (after_reasoning, with_reasoning) = reasoning_part(after_text, delta, with_text);
    lemma_reasoning_part(after_text, delta, history, with_text, index, fragments);
    let detailed = details_part(after_reasoning, delta);
    assert(kept(detailed, history, with_reasoning, index, fragments));
    assert(fragments + Seq::<ToolFragment>::empty() =~= fragments);
    match delta.array_at("tool_calls"@) {
        Some(calls) => if calls.len() > 0 {
            let (closed, reported) = finish_open_content(detailed, with_reasoning);
            lemma_finish_open_content(detailed, history, with_reasoning, index, fragments);
            lemma_accumulate_tools(closed, router, calls, 0, history, reported, index, fragments);
        },
        None => {},
    }
}

/// Where a tool call stands in the list of all.
proof fn lemma_found(tools: Seq<(usize, ToolModel)>, at: int)
    requires
        sorted(tools),
        0 <= at < tools.len(),
    ensures
        find(tools, tools[at].0) == Some(tools[at].1),
        position(tools, tools[at].0) == at,
{
    reveal(find);
    lemma_position_from(tools, tools[at].0, 0);
}

proof fn lemma_finish_tools(
    tools: Seq<(usize, ToolModel)>,
    start: int,
    next: usize,
    history: Seq<GenerationEventModel>,
    events: Seq<GenerationEventModel>,
    index: usize,
)
    requires
        sorted(tools),
        0 <= start <= tools.len(),
        numbered(next, history + events),
        finish_tools(tools, start, events).1 is None,
    ensures
        ({
            let all = finish_tools(tools, start, events).0;
            &&& numbered(next, history + all)
            &&& call_starts(history + all, index) == call_starts(history + events, index)
            &&& call_deltas(history + all, index) == call_deltas(history + events, index)
            &&& call_finishes(all, index) == call_finishes(events, index) + if find(
                tools,
                index,
            ) is Some && start <= position(tools, index) {
                1nat
            } else {
                0
            }
            &&& events.len() <= all.len()
            &&& forall|k: int| 0 <= k < events.len() ==> #[trigger] all[k] == events[k]
            &&& forall|k: int|
                events.len() <= k < all.len() && finishes_call(#[trigger] all[k], index)
                    ==> match find(tools, index) {
                    Some(tool) => all[k] == tool_finished(index, tool, tool.content_index->0),
                    None => false,
                }
        }),
    decreases tools.len() - start,
{
    if start < tools.len() {
        let (of, tool) = tools[start];
        match tool.content_index {
            Some(content_index) => {
                let event = tool_finished(of, tool, content_index);
                let more = events.push(event);
                let all = history + events;
                assert(history + more =~= all.push(event));
                lemma_numbered(next, next, all, event);
                assert(all.push(event).drop_last() =~= all);
                assert(more.drop_last() =~= events);
                lemma_found(tools, start);
                lemma_finish_tools(tools, start + 1, next, history, more, index);
                if find(tools, index) is Some {
                    reveal(find);
                    lemma_position_from(tools, index, 0);
                }
            },
            None => {},
        }
    } else {
        lemma_position_from(tools, index, 0);
        reveal(find);
    }
}

proof fn lemma_no_finish(events: Seq<GenerationEventModel>, index: usize)
    requires
        forall|k: int| 0 <= k < events.len() ==> !is_tool_finish(#[trigger] events[k]),
    ensures
        call_finishes(events, index) == 0,
    decreases events.len(),
{
    if events.len() > 0 {
        lemma_no_finish(events.drop_last(), index);
    }
}

/// Whether events report the tool call with an index as finished once, put together from its
/// fragments; or not at all, if it has none.
pub open spec fn finished_whole(
    events: Seq<GenerationEventModel>,
    index: usize,
    fragments: Seq<ToolFragment>,
) -> bool {
    &&& call_finishes(events, index) == if fragments.len() > 0 {
        1nat
    } else {
        0
    }
    &&& forall|k: int|
        0 <= k < events.len() ==> match #[trigger] events[k] {
            GenerationEventModel::ToolCallFinished { index: i, tool_call, .. } => i == index ==> {
                &&& tool_call.name == first_name(fragments)
                &&& tool_call.raw_arguments == joined_arguments(fragments)
            },
            _ => true,
        }
}

/// An accepted choice.
proof fn lemma_apply_choice(
    state: ChatModel,
    router: ChatModel,
    choice: JsonModel,
    history: Seq<GenerationEventModel>,
    events: Seq<GenerationEventModel>,
    index: usize,
    fragments: Seq<ToolFragment>,
)
    requires
        kept(state, history, events, index, fragments),
        same_routing(state, router),
        apply_choice(state, choice, events).error is None,
    ensures
        ({
            let step = apply_choice(state, choice, events);
            let calls = match choice.get("delta"@) {
                Some(delta) => match delta.array_at("tool_calls"@) {
                    Some(calls) => calls,
                    None => Seq::empty(),
                },
                None => Seq::empty(),
            };
            let all = fragments + call_fragments(router, calls, 0, index);
            &&& numbered(step.state.next_content_index, history + step.events)
            &&& sorted(step.state.tools)
            &&& assembled(step.state.tools, history + step.events, index, all)
            &&& choice.str_at("finish_reason"@) is None ==> call_finishes(step.events, index) == 0
            &&& choice.str_at("finish_reason"@) is Some ==> finished_whole(step.events, index, all)
        }),
{
    reveal(apply_choice);
    reveal(finish_parts);
    let calls = match choice.get("delta"@) {
        Some(delta) => match delta.array_at("tool_calls"@) {
            Some(calls) => calls,
            None => Seq::empty(),
        },
        None => Seq::empty(),
    };
    let all = fragments + call_fragments(router, calls, 0, index);
    let step = match choice.get("delta"@) {
        Some(delta) => apply_delta(state, delta, events),
        None => ChatStep { state, events, error: None },
    };
    match choice.get("delta"@) {
        Some(delta) => {
            lemma_apply_delta(state, router, delta, history, events, index, fragments);
        },
        None => {
            assert(all =~= fragments);
        },
    }
    assert(kept(step.state, history, step.events, index, all));
    match choice.str_at("finish_reason"@) {
        Some(reason) => {
            let named = ChatModel { finish_reason: Some(finish_reason_of(reason)), ..step.state };
            assert(kept(named, history, step.events, index, all));
            lemma_finish_open_content(named, history, step.events, index, all);
            let (closed, reported) = finish_open_content(named, step.events);
            lemma_finish_tools(
                closed.tools,
                0,
                closed.next_content_index,
                history,
                reported,
                index,
            );
            lemma_no_finish(reported, index);
            lemma_position_from(closed.tools, index, 0);
            let whole = finish_tools(closed.tools, 0, reported).0;
            assert forall|k: int| 0 <= k < whole.len() implies match #[trigger] whole[k] {
                GenerationEventModel::ToolCallFinished { index: i, tool_call, .. } => i == index
                    ==> {
                    &&& tool_call.name == first_name(all)
                    &&& tool_call.raw_arguments == joined_arguments(all)
                },
                _ => true,
            } by {
                if k < reported.len() {
                    assert(whole[k] == reported[k]);
                } else if finishes_call(whole[k], index) {
                }
            }
        },
        None => {
            lemma_no_finish(step.events, index);
        },
    }
}

/// What holds between frames.
spec fn kept_between(
    state: ChatModel,
    history: Seq<GenerationEventModel>,
    index: usize,
    fragments: Seq<ToolFragment>,
) -> bool {
    &&& numbered(state.next_content_index, history)
    &&& sorted(state.tools)
    &&& assembled(state.tools, history, index, fragments)
}

proof fn lemma_head(
    state: ChatModel,
    value: JsonModel,
    history: Seq<GenerationEventModel>,
    index: usize,
    fragments: Seq<ToolFragment>,
)
    requires
        kept_between(state, history, index, fragments),
    ensures
        ({
            let (head, events) = frame_head(state, value);
            &&& kept(head, history, events, index, fragments)
            &&& same_routing(head, state)
        }),
{
    reveal(frame_head);
    let (head, events) = frame_head(state, value);
    let none = Seq::<GenerationEventModel>::empty();
    assert(history + none =~= history);
    assert(kept(state, history, none, index, fragments));
    if events.len() == 1 {
        lemma_quiet(state, head, history, none, events[0], index, fragments);
        assert(events =~= none.push(events[0]));
    } else if events.len() == 2 {
        lemma_quiet(state, head, history, none, events[0], index, fragments);
        lemma_quiet(head, head, history, none.push(events[0]), events[1], index, fragments);
        assert(events =~= none.push(events[0]).push(events[1]));
    } else {
        assert(events =~= none);
    }
}

/// An accepted frame.
proof fn lemma_frame(
    state: ChatModel,
    data: Seq<char>,
    history: Seq<GenerationEventModel>,
    index: usize,
    fragments: Seq<ToolFragment>,
)
    requires
        kept_between(state, history, index, fragments),
    ensures
        ({
            let after = ingest(state, data);
            let all = fragments + call_fragments(state, frame_calls(data), 0, index);
            match after.result {
                Ok(update) => {
                    &&& kept_between(after.state, history + update.events, index, all)
                    &&& !gives_finish_reason(data) ==> call_finishes(update.events, index) == 0
                    &&& gives_finish_reason(data) ==> finished_whole(update.events, index, all)
                },
                Err(_) => true,
            }
        }),
{
    reveal(take_terminal);
    assert(history + Seq::<GenerationEventModel>::empty() =~= history);
    assert(fragments + Seq::<ToolFragment>::empty() =~= fragments);
    if data != "[DONE]"@ {
        match parsed_json(data) {
            None => {},
            Some(value) => {
                let (head, events) = frame_head(state, value);
                lemma_head(state, value, history, index, fragments);
                match first_choice(value) {
                    Some(choice) => {
                        if apply_choice(head, choice, events).error is None {
                            lemma_apply_choice(
                                head,
                                state,
                                choice,
                                history,
                                events,
                                index,
                                fragments,
                            );
                        }
                    },
                    None => {
                        lemma_no_finish(events, index);
                    },
                }
            },
        }
    }
}

proof fn lemma_finishes_joined(
    first: Seq<GenerationEventModel>,
    second: Seq<GenerationEventModel>,
    index: usize,
)
    ensures
        call_finishes(first + second, index) == call_finishes(first, index) + call_finishes(
            second,
            index,
        ),
    decreases second.len(),
{
    if second.len() > 0 {
        lemma_finishes_joined(first, second.drop_last(), index);
        assert((first + second).drop_last() =~= first + second.drop_last());
    } else {
        assert(first + second =~= first);
    }
}

/// Frames that are accepted, from position `start` on.
proof fn lemma_run(
    state: ChatModel,
    frames: Seq<Seq<char>>,
    start: int,
    history: Seq<GenerationEventModel>,
    index: usize,
    fragments: Seq<ToolFragment>,
)
    requires
        0 <= start,
        kept_between(state, history, index, fragments),
        well_told(state, history, Seq::empty()),
    ensures
        match stream_run(state, frames, start) {
            Some((last, events)) => {
                &&& kept_between(
                    last,
                    history + events,
                    index,
                    fragments + run_fragments(state, frames, start, index),
                )
                &&& well_told(last, history + events, Seq::empty())
                &&& (forall|k: int|
                    start <= k < frames.len() ==> !gives_finish_reason(#[trigger] frames[k]))
                    ==> call_finishes(events, index) == 0
            },
            None => true,
        },
    decreases frames.len() - start,
{
    let none = Seq::<GenerationEventModel>::empty();
    assert(fragments + Seq::<ToolFragment>::empty() =~= fragments);
    assert(history + none =~= history);
    if start < frames.len() {
        let data = frames[start];
        let step = ingest(state, data);
        let here = call_fragments(state, frame_calls(data), 0, index);
        match step.result {
            Err(_) => {},
            Ok(update) => {
                lemma_frame(state, data, history, index, fragments);
                frames_are_told_in_order(state, data, history);
                let told = history + update.events;
                assert(told + none =~= told);
                lemma_run(step.state, frames, start + 1, told, index, fragments + here);
                match stream_run(step.state, frames, start + 1) {
                    None => {},
                    Some((last, rest)) => {
                        let later = run_fragments(step.state, frames, start + 1, index);
                        assert(told + rest =~= history + (update.events + rest));
                        assert(fragments + here + later =~= fragments + (here + later));
                        lemma_finishes_joined(update.events, rest, index);
                    },
                }
            },
        }
    }
}

/// The blocks of a message are numbered in the order in which they start: over the frames of a
/// stream that are accepted, the first block that starts has the place 0 in the message, the next
/// one the place 1, and so on up to the largest index. Text, reasoning and tool calls are counted
/// together, so a block that starts never takes the place of another one.
pub proof fn blocks_are_numbered_in_order(
    compatibility: CompatibilityProfile,
    frames: Seq<Seq<char>>,
)
    ensures
        match stream_run(fresh(compatibility), frames, 0) {
            Some((last, events)) => {
                let starts = block_starts(events);
                &&& forall|k: int| 0 <= k < starts.len() ==> #[trigger] starts[k] == nth_index(k)
                &&& last.next_content_index == nth_index(starts.len() as int)
            },
            None => true,
        },
{
    lemma_fresh_run(compatibility, frames, 0);
}

/// Everything about the frames of a stream from its beginning.
proof fn lemma_fresh_run(
    compatibility: CompatibilityProfile,
    frames: Seq<Seq<char>>,
    index: usize,
)
    ensures
        match stream_run(fresh(compatibility), frames, 0) {
            Some((last, events)) => {
                &&& kept_between(
                    last,
                    events,
                    index,
                    run_fragments(fresh(compatibility), frames, 0, index),
                )
                &&& well_told(last, events, Seq::empty())
                &&& (forall|k: int|
                    0 <= k < frames.len() ==> !gives_finish_reason(#[trigger] frames[k]))
                    ==> call_finishes(events, index) == 0
            },
            None => true,
        },
{
    let state = fresh(compatibility);
    let none = Seq::<GenerationEventModel>::empty();
    let nothing = Seq::<ToolFragment>::empty();
    a_fresh_session_is_well_told(compatibility);
    reveal(find);
    assert(kept_between(state, none, index, nothing));
    lemma_run(state, frames, 0, none, index, nothing);
    match stream_run(state, frames, 0) {
        Some((last, events)) => {
            assert(none + events =~= events);
            let fragments = run_fragments(state, frames, 0, index);
            assert(nothing + fragments =~= fragments);
        },
        None => {},
    }
}

/// A tool call comes whole out of its fragments, however they are spread over the frames of a stream
/// and mixed with those of others. Over frames that are accepted, up to one that gives the finish
/// reason, a tool call with fragments is started exactly once, and finished after that, in the same
/// place of the message. That last frame finishes it exactly once: its name is the first name in its
/// fragments that is not empty, and its arguments are those of its fragments, joined in their order,
/// which are also what was reported of them on the way.
/// Where no frame before gave a finish reason, it is finished once in all.
pub proof fn tool_calls_come_whole(
    compatibility: CompatibilityProfile,
    frames: Seq<Seq<char>>,
    data: Seq<char>,
    index: usize,
)
    requires
        gives_finish_reason(data),
    ensures
        match stream_run(fresh(compatibility), frames, 0) {
            Some((state, events)) => match ingest(state, data).result {
                Ok(update) => {
                    let all = events + update.events;
                    let fragments = run_fragments(fresh(compatibility), frames, 0, index)
                        + call_fragments(state, frame_calls(data), 0, index);
                    &&& call_starts(all, index) == if fragments.len() > 0 {
                        1nat
                    } else {
                        0
                    }
                    &&& finished_after_started(all)
                    &&& finished_whole(update.events, index, fragments)
                    &&& call_deltas(all, index) == joined_arguments(fragments)
                    &&& (forall|k: int|
                        0 <= k < frames.len() ==> !gives_finish_reason(#[trigger] frames[k]))
                        ==> call_finishes(all, index) == call_finishes(update.events, index)
                },
                Err(_) => true,
            },
            None => true,
        },
{
    lemma_fresh_run(compatibility, frames, index);
    match stream_run(fresh(compatibility), frames, 0) {
        Some((state, events)) => {
            let before = run_fragments(fresh(compatibility), frames, 0, index);
            lemma_frame(state, data, events, index, before);
            frames_are_told_in_order(state, data, events);
            match ingest(state, data).result {
                Ok(update) => {
                    lemma_finishes_joined(events, update.events, index);
                },
                Err(_) => {},
            }
        },
        None => {},
    }
}

/// A fragment that carries an index belongs to the tool call with that index.
pub proof fn an_index_names_the_tool_call(state: ChatModel, raw: JsonModel, at: usize, n: u64)
    requires
        raw.u64_at("index"@) == Some(n),
    ensures
        routed(state, raw, at).1 == n as usize,
{
    reveal(identified_tool);
    reveal(tool_index);
}

/// A fragment with neither an index nor an identifier belongs where it stands in its frame.
pub proof fn a_place_names_the_tool_call(state: ChatModel, raw: JsonModel, at: usize)
    requires
        raw.u64_at("index"@) is None,
        raw.get("id"@) is None,
    ensures
        routed(state, raw, at).1 == at,
{
    reveal(identified_tool);
    reveal(tool_index);
    reveal(tool_string);
}

/// A fragment without an index, under an identifier that was never seen, belongs to a tool call of
/// its own: its index is above all that fragments carried before.
pub proof fn a_new_identifier_makes_a_tool_call(state: ChatModel, raw: JsonModel, at: usize)
    requires
        raw.u64_at("index"@) is None,
        raw.str_at("id"@) is Some,
        forall|k: int|
            0 <= k < state.tool_indices_by_id.len() ==> (#[trigger] state.tool_indices_by_id[k]).0
                != raw.str_at("id"@)->0,
    ensures
        routed(state, raw, at).1 == state.next_tool_index,
        state.next_tool_index < usize::MAX ==> routed(state, raw, at).0.next_tool_index
            > state.next_tool_index,
{
    reveal(identified_tool);
    reveal(tool_index);
    reveal(tool_string);
    an_absent_name_has_no_index(state.tool_indices_by_id, raw.str_at("id"@)->0);
}

/// After a fragment that carries an index, the next free one is above it.
pub proof fn free_indices_are_above(state: ChatModel, raw: JsonModel, at: usize)
    ensures
        routed(state, raw, at).0.next_tool_index >= state.next_tool_index,
        raw.u64_at("index"@) is Some && routed(state, raw, at).1 < usize::MAX ==> routed(
            state,
            raw,
            at,
        ).0.next_tool_index > routed(state, raw, at).1,
{
    reveal(identified_tool);
    reveal(tool_index);
    reveal(tool_string);
}

/// A fragment without an index belongs where the last one with its identifier went.
pub proof fn an_identifier_names_the_tool_call(
    state: ChatModel,
    first: JsonModel,
    at: usize,
    second: JsonModel,
    later: usize,
)
    requires
        first.str_at("id"@) is Some,
        second.str_at("id"@) == first.str_at("id"@),
        second.u64_at("index"@) is None,
    ensures
        ({
            let (next, index) = routed(state, first, at);
            routed(next, second, later).1 == index
        }),
{
    reveal(identified_tool);
    reveal(tool_index);
    reveal(tool_string);
    let id = first.str_at("id"@)->0;
    let (indexed, index) = tool_index(state, first, Some(id), at);
    index_after_with_name(indexed.tool_indices_by_id, id, index, id);
}

} // verus!
