//! Which frames of a Chat Completions stream are read, and what is kept for the next request.

use vstd::prelude::*;

use crate::json::{parsed_json, JsonModel};
use crate::llm::error::{allowed_code, ErrorKind};
use crate::llm::event::GenerationEventModel;
use crate::llm::model::{
    no_metadata, ChatReasoningField, ChatReplayMetadataModel, ProviderMetadataModel,
};
use crate::llm::protocol::chat_completions::content::{delta_in, text_at};
use crate::llm::protocol::chat_completions::model::{
    accumulate_tool, accumulate_tools, apply_choice, apply_delta, argument_fragment, details_part,
    finish_eof, finish_open_content, finish_parts, finish_reason_of, finish_reasoning, finish_text,
    finish_tools, first_choice, frame_head, fresh, identified_tool, ingest, named_tool,
    reasoning_part, start_reasoning, start_text, start_tool, take_terminal, text_part,
    tool_arguments, tool_at, tool_finished, tool_index, tool_string, tools_part, ChatModel,
    ChatStep, ToolModel,
};
use crate::llm::protocol::chat_completions::runs::stream_run;
use crate::llm::protocol::{CompatibilityProfile, ReasoningField};
use crate::ordered::{find, find_after_put, lemma_position_from, position, put, sorted};
use crate::text::decimal_digits;

verus! {

/// Whether a member is a text, is not there, or is null where that is accepted.
pub open spec fn is_text_or_nothing(value: JsonModel, key: Seq<char>, allow_null: bool) -> bool {
    match value.get(key) {
        None => true,
        Some(JsonModel::Str(_)) => true,
        Some(JsonModel::Null) => allow_null,
        Some(_) => false,
    }
}

/// Whether a piece of a tool call can be read: its identifier, its name and its arguments, where
/// they are there, are texts, or what a compatible provider sends in their place.
pub open spec fn is_readable_call(raw: JsonModel, compatibility: CompatibilityProfile) -> bool {
    let function = if raw.get("function"@) is Some {
        raw.get("function"@)->0
    } else {
        JsonModel::Null
    };
    &&& is_text_or_nothing(raw, "id"@, compatibility.allow_nullable_tool_fields)
    &&& is_text_or_nothing(function, "name"@, compatibility.allow_nullable_tool_fields)
    &&& is_text_or_nothing(function, "arguments"@, compatibility.allow_nullable_tool_fields)
        || (compatibility.allow_object_tool_arguments && function.get("arguments"@) is Some
        && function.get("arguments"@)->0 is Object)
}

/// Whether a frame can be read: it is JSON, it reports no error, and its pieces of tool calls can
/// be read.
pub open spec fn is_readable_frame(data: Seq<char>, compatibility: CompatibilityProfile) -> bool {
    &&& data != "[DONE]"@
    &&& parsed_json(data) is Some
    &&& parsed_json(data)->0.get("error"@) is None
    &&& match delta_in(parsed_json(data)->0).array_at("tool_calls"@) {
        Some(calls) => forall|k: int|
            0 <= k < calls.len() ==> is_readable_call(#[trigger] calls[k], compatibility),
        None => true,
    }
}

/// Whether every tool call of a session has its place in the content.
pub open spec fn all_placed(state: ChatModel) -> bool {
    forall|k: int|
        0 <= k < state.tools.len() ==> (#[trigger] state.tools[k]).1.started
            && state.tools[k].1.content_index is Some
}

/// Whether two sessions keep the same for the next request, and go on under the same rules.
spec fn keeps(before: ChatModel, after: ChatModel) -> bool {
    &&& after.compatibility == before.compatibility
    &&& after.terminal == before.terminal
    &&& after.done == before.done
    &&& after.reasoning_field == before.reasoning_field
    &&& after.reasoning_details == before.reasoning_details
    &&& all_placed(before) ==> all_placed(after)
}

/// What a session hands back with reasoning, with the field that it came in and its details.
pub open spec fn handed_over(
    field: Option<ChatReasoningField>,
    details: Option<JsonModel>,
) -> Option<ProviderMetadataModel> {
    if field is None && details is None {
        None
    } else {
        Some(
            ProviderMetadataModel {
                chat: Some(
                    ChatReplayMetadataModel { reasoning_field: field, reasoning_details: details },
                ),
                responses: None,
            },
        )
    }
}

/// Whether every reasoning that ends among events hands over what one of two sessions keeps.
spec fn hands_over(events: Seq<GenerationEventModel>, before: ChatModel, after: ChatModel) -> bool {
    forall|k: int|
        0 <= k < events.len() ==> match #[trigger] events[k] {
            GenerationEventModel::ReasoningFinished { replay, .. } => replay == handed_over(
                before.reasoning_field,
                before.reasoning_details,
            ) || replay == handed_over(after.reasoning_field, after.reasoning_details),
            _ => true,
        }
}

spec fn only_adds(
    events: Seq<GenerationEventModel>,
    more: Seq<GenerationEventModel>,
    before: ChatModel,
    after: ChatModel,
) -> bool {
    hands_over(events, before, after) ==> hands_over(more, before, after)
}

proof fn lemma_finish_open(
    state: ChatModel,
    events: Seq<GenerationEventModel>,
    before: ChatModel,
    after: ChatModel,
)
    requires
        state.reasoning_field == before.reasoning_field || state.reasoning_field
            == after.reasoning_field,
        handed_over(state.reasoning_field, state.reasoning_details) == handed_over(
            before.reasoning_field,
            before.reasoning_details,
        ) || handed_over(state.reasoning_field, state.reasoning_details) == handed_over(
            after.reasoning_field,
            after.reasoning_details,
        ),
    ensures
        keeps(state, finish_text(state, events).0),
        keeps(state, finish_reasoning(state, events).0),
        keeps(state, finish_open_content(state, events).0),
        finish_text(state, events).0.tools == state.tools,
        finish_reasoning(state, events).0.tools == state.tools,
        finish_open_content(state, events).0.tools == state.tools,
        only_adds(events, finish_text(state, events).1, before, after),
        only_adds(events, finish_reasoning(state, events).1, before, after),
        only_adds(events, finish_open_content(state, events).1, before, after),
{
    reveal(finish_text);
    reveal(finish_reasoning);
    reveal(finish_open_content);
}

proof fn lemma_put_placed(tools: Seq<(usize, ToolModel)>, index: usize, tool: ToolModel)
    requires
        forall|k: int|
            0 <= k < tools.len() ==> (#[trigger] tools[k]).1.started
                && tools[k].1.content_index is Some,
        tool.started,
        tool.content_index is Some,
    ensures
        forall|k: int|
            0 <= k < put(tools, index, tool).len() ==> (#[trigger] put(
                tools,
                index,
                tool,
            )[k]).1.started && put(tools, index, tool)[k].1.content_index is Some,
{
    reveal(put);
    lemma_position_from(tools, index, 0);
    let at = position(tools, index);
    let next = put(tools, index, tool);
    assert forall|k: int| 0 <= k < next.len() implies (#[trigger] next[k]).1.started
        && next[k].1.content_index is Some by {
        if next.len() == tools.len() {
            if k != at {
                assert(next[k] == tools[k]);
            }
        } else if k < at {
            assert(next[k] == tools[k]);
        } else if k > at {
            assert(next[k] == tools[k - 1]);
        }
    }
}

#[verifier::rlimit(40)]
proof fn lemma_tool(
    state: ChatModel,
    raw: JsonModel,
    at: usize,
    events: Seq<GenerationEventModel>,
    before: ChatModel,
    after: ChatModel,
)
    requires
        all_placed(state),
        is_readable_call(raw, state.compatibility),
    ensures
        ({
            let step = accumulate_tool(state, raw, at, events);
            &&& step.error is None
            &&& keeps(state, step.state)
            &&& only_adds(events, step.events, before, after)
        }),
{
    reveal(accumulate_tool);
    reveal(tool_string);
    reveal(identified_tool);
    reveal(tool_index);
    reveal(named_tool);
    reveal(start_tool);
    reveal(tool_arguments);
    reveal(find);
    let function = if raw.get("function"@) is Some {
        raw.get("function"@)->0
    } else {
        JsonModel::Null
    };
    let allow_null = state.compatibility.allow_nullable_tool_fields;
    let id = tool_string(raw, "id"@, allow_null)->Ok_0;
    let (next, index, tool) = identified_tool(state, raw, id, at);
    let indexed = tool_index(state, raw, id, at).0;
    assert(indexed.tools == state.tools && next.tools == state.tools);
    lemma_position_from(state.tools, index, 0);
    let known = tool_at(indexed, index);
    assert(known.started ==> known.content_index is Some);
    let name = tool_string(function, "name"@, allow_null)->Ok_0;
    let named = named_tool(tool, name);
    let (running, started, reported) = start_tool(next, index, named, events);
    lemma_put_placed(state.tools, index, started);
    match function.get("arguments"@) {
        None => {},
        Some(arguments) => {
            let fragment = argument_fragment(
                arguments,
                next.compatibility,
            );
            assert(fragment is Ok);
            let extended = ToolModel { arguments: started.arguments + fragment->Ok_0, ..started };
            lemma_put_placed(state.tools, index, extended);
        },
    }
}

proof fn lemma_tools(
    state: ChatModel,
    calls: Seq<JsonModel>,
    start: int,
    events: Seq<GenerationEventModel>,
    before: ChatModel,
    after: ChatModel,
)
    requires
        all_placed(state),
        0 <= start <= calls.len(),
        forall|k: int|
            0 <= k < calls.len() ==> is_readable_call(#[trigger] calls[k], state.compatibility),
    ensures
        ({
            let step = accumulate_tools(state, calls, start, events);
            &&& step.error is None
            &&& keeps(state, step.state)
            &&& only_adds(events, step.events, before, after)
        }),
    decreases calls.len() - start,
{
    if start < calls.len() {
        lemma_tool(state, calls[start], start as usize, events, before, after);
        let step = accumulate_tool(state, calls[start], start as usize, events);
        lemma_tools(step.state, calls, start + 1, step.events, before, after);
    }
}

proof fn lemma_finish_tools(
    tools: Seq<(usize, ToolModel)>,
    start: int,
    events: Seq<GenerationEventModel>,
    before: ChatModel,
    after: ChatModel,
)
    requires
        0 <= start <= tools.len(),
        forall|k: int|
            0 <= k < tools.len() ==> (#[trigger] tools[k]).1.started
                && tools[k].1.content_index is Some,
    ensures
        finish_tools(tools, start, events).1 is None,
        only_adds(events, finish_tools(tools, start, events).0, before, after),
    decreases tools.len() - start,
{
    if start < tools.len() {
        let event = tool_finished(
            tools[start].0,
            tools[start].1,
            tools[start].1.content_index->0,
        );
        lemma_finish_tools(tools, start + 1, events.push(event), before, after);
    }
}

/// The field in which a piece of an answer brings reasoning, if it brings any.
pub open spec fn field_in(delta: JsonModel, policy: ReasoningField) -> Option<ChatReasoningField> {
    let auto = policy == ReasoningField::Auto;
    if (auto || policy == ReasoningField::ReasoningContent) && text_at(
        delta,
        "reasoning_content"@,
    ).len() > 0 {
        Some(ChatReasoningField::ReasoningContent)
    } else if (auto || policy == ReasoningField::Reasoning) && text_at(delta, "reasoning"@).len()
        > 0 {
        Some(ChatReasoningField::Reasoning)
    } else if (auto || policy == ReasoningField::ReasoningText) && text_at(
        delta,
        "reasoning_text"@,
    ).len() > 0 {
        Some(ChatReasoningField::ReasoningText)
    } else {
        None
    }
}

/// The field after a piece of an answer: the first that brought reasoning stays.
pub open spec fn field_after(
    field: Option<ChatReasoningField>,
    delta: JsonModel,
    policy: ReasoningField,
) -> Option<ChatReasoningField> {
    if field is Some {
        field
    } else {
        field_in(delta, policy)
    }
}

/// The details after a piece of an answer: lists go behind each other, another value takes the
/// place of what there was, and null or nothing changes nothing.
pub open spec fn details_after(details: Option<JsonModel>, delta: JsonModel) -> Option<JsonModel> {
    match delta.get("reasoning_details"@) {
        None => details,
        Some(JsonModel::Null) => details,
        Some(JsonModel::Array(more)) => match details {
            Some(JsonModel::Array(known)) => Some(JsonModel::Array(known + more)),
            _ => Some(JsonModel::Array(more)),
        },
        Some(other) => Some(other),
    }
}

proof fn lemma_text_part(
    state: ChatModel,
    delta: JsonModel,
    events: Seq<GenerationEventModel>,
    before: ChatModel,
    after: ChatModel,
)
    requires
        state.reasoning_field == before.reasoning_field,
        state.reasoning_details == before.reasoning_details,
    ensures
        keeps(state, text_part(state, delta, events).0),
        text_part(state, delta, events).0.tools == state.tools,
        only_adds(events, text_part(state, delta, events).1, before, after),
{
    reveal(text_part);
    reveal(start_text);
    lemma_finish_open(state, events, before, after);
}

proof fn lemma_reasoning_part(
    state: ChatModel,
    delta: JsonModel,
    events: Seq<GenerationEventModel>,
    before: ChatModel,
    after: ChatModel,
)
    ensures
        ({
            let (next, more) = reasoning_part(state, delta, events);
            &&& next.compatibility == state.compatibility
            &&& next.terminal == state.terminal
            &&& next.done == state.done
            &&& next.tools == state.tools
            &&& next.reasoning_details == state.reasoning_details
            &&& next.reasoning_field == field_after(
                state.reasoning_field,
                delta,
                state.compatibility.reasoning_field,
            )
            &&& only_adds(events, more, before, after)
        }),
{
    reveal(reasoning_part);
    reveal(start_reasoning);
    reveal(finish_text);
}

proof fn lemma_details_part(state: ChatModel, delta: JsonModel)
    ensures
        details_part(state, delta) == (ChatModel {
            reasoning_details: details_after(state.reasoning_details, delta),
            ..state
        }),
{
    reveal(details_part);
}

proof fn lemma_tools_part(
    state: ChatModel,
    delta: JsonModel,
    events: Seq<GenerationEventModel>,
    before: ChatModel,
)
    requires
        all_placed(state),
        match delta.array_at("tool_calls"@) {
            Some(calls) => forall|k: int|
                0 <= k < calls.len() ==> is_readable_call(#[trigger] calls[k], state.compatibility),
            None => true,
        },
    ensures
        ({
            let step = tools_part(state, delta, events);
            &&& step.error is None
            &&& keeps(state, step.state)
            &&& only_adds(events, step.events, before, state)
        }),
{
    reveal(tools_part);
    lemma_finish_open(state, events, before, state);
    let (closed, reported) = finish_open_content(state, events);
    match delta.array_at("tool_calls"@) {
        Some(calls) => {
            lemma_tools(closed, calls, 0, reported, before, state);
        },
        None => {},
    }
}

proof fn lemma_same_end(
    events: Seq<GenerationEventModel>,
    before: ChatModel,
    after: ChatModel,
    other: ChatModel,
)
    requires
        after.reasoning_field == other.reasoning_field,
        after.reasoning_details == other.reasoning_details,
    ensures
        hands_over(events, before, after) == hands_over(events, before, other),
{
    if hands_over(events, before, after) {
        assert(hands_over(events, before, other));
    }
    if hands_over(events, before, other) {
        assert(hands_over(events, before, after));
    }
}

#[verifier::rlimit(40)]
proof fn lemma_delta(state: ChatModel, delta: JsonModel, events: Seq<GenerationEventModel>)
    requires
        all_placed(state),
        match delta.array_at("tool_calls"@) {
            Some(calls) => forall|k: int|
                0 <= k < calls.len() ==> is_readable_call(#[trigger] calls[k], state.compatibility),
            None => true,
        },
    ensures
        ({
            let step = apply_delta(state, delta, events);
            &&& step.error is None
            &&& all_placed(step.state)
            &&& step.state.compatibility == state.compatibility
            &&& step.state.terminal == state.terminal
            &&& step.state.done == state.done
            &&& step.state.reasoning_field == field_after(
                state.reasoning_field,
                delta,
                state.compatibility.reasoning_field,
            )
            &&& step.state.reasoning_details == details_after(state.reasoning_details, delta)
            &&& only_adds(events, step.events, state, step.state)
        }),
{
    reveal(apply_delta);
    let (after_text, with_text) = text_part(state, delta, events);
    let (after_reasoning, with_reasoning) = reasoning_part(after_text, delta, with_text);
    let end = details_part(after_reasoning, delta);
    let step = tools_part(end, delta, with_reasoning);
    lemma_text_part(state, delta, events, state, end);
    lemma_reasoning_part(after_text, delta, with_text, state, end);
    lemma_details_part(after_reasoning, delta);
    assert(all_placed(end));
    lemma_tools_part(end, delta, with_reasoning, state);
    lemma_same_end(events, state, end, step.state);
    lemma_same_end(step.events, state, end, step.state);
}

/// A frame that can be read is read. What is kept for the next request follows from the piece of
/// the answer in it, and reasoning that ends in it hands over what was kept before or after it.
#[verifier::rlimit(40)]
pub proof fn readable_frames_are_read(state: ChatModel, data: Seq<char>)
    requires
        all_placed(state),
        !state.terminal,
        is_readable_frame(data, state.compatibility),
    ensures
        ({
            let step = ingest(state, data);
            let delta = delta_in(parsed_json(data)->0);
            let policy = state.compatibility.reasoning_field;
            &&& step.result is Ok
            &&& all_placed(step.state)
            &&& step.state.compatibility == state.compatibility
            &&& !state.done ==> !step.state.terminal && !step.state.done
            &&& step.state.reasoning_field == field_after(state.reasoning_field, delta, policy)
            &&& step.state.reasoning_details == details_after(state.reasoning_details, delta)
            &&& forall|k: int|
                0 <= k < step.result->Ok_0.events.len() ==> match #[trigger] step.result->Ok_0.events[k] {
                    GenerationEventModel::ReasoningFinished { replay, .. } => replay
                        == handed_over(state.reasoning_field, state.reasoning_details) || replay
                        == handed_over(step.state.reasoning_field, step.state.reasoning_details),
                    _ => true,
                }
        }),
{
    reveal(take_terminal);
    reveal(frame_head);
    reveal(apply_choice);
    reveal(finish_parts);
    let value = parsed_json(data)->0;
    let delta = delta_in(value);
    let policy = state.compatibility.reasoning_field;
    let (head, events) = frame_head(state, value);
    assert(all_placed(head));
    assert(hands_over(events, state, head));
    assert(hands_over(events, head, head));
    match first_choice(value) {
        Some(choice) => {
            let step = match choice.get("delta"@) {
                Some(delta) => apply_delta(head, delta, events),
                None => ChatStep {
                    state: head,
                    events,
                    error: None,
                },
            };
            match choice.get("delta"@) {
                Some(found) => {
                    assert(found == delta);
                    lemma_delta(head, delta, events);
                    assert(hands_over(events, head, step.state));
                },
                None => {
                    lemma_nothing(state, policy);
                },
            }
            assert(hands_over(step.events, head, step.state));
            match choice.str_at("finish_reason"@) {
                Some(reason) => {
                    let ending = ChatModel {
                        finish_reason: Some(
                            finish_reason_of(reason),
                        ),
                        ..step.state
                    };
                    lemma_finish_open(ending, step.events, head, step.state);
                    let (closed, reported) = finish_open_content(ending, step.events);
                    lemma_finish_tools(closed.tools, 0, reported, head, step.state);
                },
                None => {},
            }
        },
        None => {
            lemma_nothing(state, policy);
        },
    }
}

proof fn lemma_nothing(state: ChatModel, policy: ReasoningField)
    ensures
        field_after(state.reasoning_field, JsonModel::Null, policy) == state.reasoning_field,
        details_after(state.reasoning_details, JsonModel::Null) == state.reasoning_details,
{
}

/// The field that the first reasoning of a stream came in.
pub open spec fn first_field(
    frames: Seq<Seq<char>>,
    policy: ReasoningField,
    end: int,
) -> Option<ChatReasoningField>
    decreases end,
{
    if end <= 0 || end > frames.len() {
        None
    } else {
        field_after(
            first_field(frames, policy, end - 1),
            delta_in(parsed_json(frames[end - 1])->0),
            policy,
        )
    }
}

/// The details of the reasoning of a stream, all of them.
pub open spec fn all_details(frames: Seq<Seq<char>>, end: int) -> Option<JsonModel>
    decreases end,
{
    if end <= 0 || end > frames.len() {
        None
    } else {
        details_after(
            all_details(frames, end - 1),
            delta_in(parsed_json(frames[end - 1])->0),
        )
    }
}

/// A stream whose frames can be read is read to its end, and what its end hands over for the next
/// request is the field that its reasoning came in and the details of it.
pub proof fn readable_streams_are_read(
    compatibility: CompatibilityProfile,
    frames: Seq<Seq<char>>,
)
    requires
        forall|k: int|
            0 <= k < frames.len() ==> is_readable_frame(#[trigger] frames[k], compatibility),
    ensures
        match stream_run(fresh(compatibility), frames, 0) {
            Some((last, _)) => {
                let n = frames.len() as int;
                let kept = handed_over(
                    first_field(frames, compatibility.reasoning_field, n),
                    all_details(frames, n),
                );
                let metadata = if kept is Some {
                    kept->0
                } else {
                    no_metadata()
                };
                &&& match finish_eof(last).1 {
                    Ok(Some(terminal)) => terminal.provider_metadata == metadata,
                    Ok(None) => false,
                    Err(_) => last.finish_reason is None,
                }
                &&& match ingest(last, "[DONE]"@).result {
                    Ok(update) => match update.terminal {
                        Some(terminal) => terminal.provider_metadata == metadata,
                        None => last.finish_reason is None,
                    },
                    Err(_) => false,
                }
            },
            None => false,
        },
{
    reveal(take_terminal);
    lemma_readable_run(fresh(compatibility), frames, 0);
}

proof fn lemma_readable_run(state: ChatModel, frames: Seq<Seq<char>>, start: int)
    requires
        0 <= start <= frames.len(),
        all_placed(state),
        !state.terminal,
        !state.done,
        state.reasoning_field == first_field(frames, state.compatibility.reasoning_field, start),
        state.reasoning_details == all_details(frames, start),
        forall|k: int|
            0 <= k < frames.len() ==> is_readable_frame(#[trigger] frames[k], state.compatibility),
    ensures
        match stream_run(state, frames, start) {
            Some((last, _)) => {
                let n = frames.len() as int;
                &&& !last.terminal && !last.done
                &&& last.reasoning_field == first_field(
                    frames,
                    state.compatibility.reasoning_field,
                    n,
                )
                &&& last.reasoning_details == all_details(frames, n)
            },
            None => false,
        },
    decreases frames.len() - start,
{
    if start < frames.len() {
        readable_frames_are_read(state, frames[start]);
        lemma_readable_run(ingest(state, frames[start]).state, frames, start + 1);
    }
}

/// A frame that reports an error is refused as the error of the provider, with its code where that
/// is a plain word.
pub proof fn reported_errors_name_their_code(state: ChatModel, data: Seq<char>)
    requires
        !state.terminal,
        data != "[DONE]"@,
        parsed_json(data) is Some,
        parsed_json(data)->0.get("error"@) is Some,
    ensures
        match ingest(state, data).result {
            Ok(_) => false,
            Err(error) => {
                &&& error.kind == ErrorKind::Provider
                &&& error.provider_code == allowed_code(
                    parsed_json(data)->0.get("error"@)->0.get("code"@),
                )
                &&& !error.retryable && error.status is None
            },
        },
{
}

/// A frame that is no JSON is refused, and so is one that follows the end.
pub proof fn other_frames_are_refused(state: ChatModel, data: Seq<char>)
    requires
        data != "[DONE]"@,
    ensures
        parsed_json(data) is None ==> ingest(state, data).result is Err,
        state.terminal ==> ingest(state, data).result is Err,
        ingest(state, data).result is Err && (parsed_json(data) is None || state.terminal)
            ==> ingest(state, data).result->Err_0.kind == ErrorKind::Protocol,
{
}

/// What a tool call is called: its identifier, or one made of its index where it has none.
pub open spec fn called_as(id: Seq<char>, index: usize) -> Seq<char> {
    if id.len() > 0 {
        id
    } else {
        "call-"@ + decimal_digits(index as nat)
    }
}

/// A piece of a tool call gives the call the identifier in it and, where it has none yet, the name
/// in it. The first piece starts the call, under both, at the next place in the content.
#[verifier::rlimit(40)]
pub proof fn pieces_name_their_call(
    state: ChatModel,
    raw: JsonModel,
    at: usize,
    n: u64,
    events: Seq<GenerationEventModel>,
)
    requires
        all_placed(state),
        sorted(state.tools),
        is_readable_call(raw, state.compatibility),
        raw.u64_at("index"@) == Some(n),
        n <= usize::MAX,
    ensures
        ({
            let index = n as usize;
            let step = accumulate_tool(state, raw, at, events);
            let known = find(state.tools, index);
            let after = find(step.state.tools, index);
            let id = raw.str_at("id"@);
            let name = raw.get2("function"@, "name"@);
            &&& after is Some
            &&& id is Some ==> after->0.id == id->0
            &&& id is None ==> after->0.id == if known is Some {
                known->0.id
            } else {
                Seq::empty()
            }
            &&& known is Some && known->0.name.len() > 0 ==> after->0.name == known->0.name
            &&& !(known is Some && known->0.name.len() > 0) && name is Some && name->0 is Str
                ==> after->0.name == name->0->Str_0
            &&& known is None ==> {
                &&& step.events.len() > events.len()
                &&& step.events[events.len() as int] == GenerationEventModel::ToolCallStarted {
                    content_index: state.next_content_index,
                    index,
                    id: called_as(after->0.id, index),
                    name: after->0.name,
                }
                &&& after->0.content_index == Some(state.next_content_index)
            }
            &&& known is Some ==> after->0.content_index == known->0.content_index
        }),
{
    reveal(accumulate_tool);
    reveal(tool_string);
    reveal(identified_tool);
    reveal(tool_index);
    reveal(named_tool);
    reveal(start_tool);
    reveal(tool_arguments);
    let index = n as usize;
    lemma_known_started(state.tools, index);
    let function = if raw.get("function"@) is Some {
        raw.get("function"@)->0
    } else {
        JsonModel::Null
    };
    let allow_null = state.compatibility.allow_nullable_tool_fields;
    let id = tool_string(raw, "id"@, allow_null)->Ok_0;
    let (next, i, tool) = identified_tool(state, raw, id, at);
    assert(i == index && next.tools == state.tools);
    let name = tool_string(function, "name"@, allow_null)->Ok_0;
    let (_, started, reported) = start_tool(next, index, named_tool(tool, name), events);
    find_after_put(state.tools, index, started, index);
    match function.get("arguments"@) {
        None => {},
        Some(arguments) => {
            let fragment = argument_fragment(arguments, next.compatibility);
            let extended = ToolModel { arguments: started.arguments + fragment->Ok_0, ..started };
            find_after_put(state.tools, index, extended, index);
        },
    }
}

proof fn lemma_known_started(tools: Seq<(usize, ToolModel)>, index: usize)
    requires
        forall|k: int|
            0 <= k < tools.len() ==> (#[trigger] tools[k]).1.started
                && tools[k].1.content_index is Some,
    ensures
        find(tools, index) is Some ==> find(tools, index)->0.started && find(
            tools,
            index,
        )->0.content_index is Some,
{
    reveal(find);
    lemma_position_from(tools, index, 0);
}

/// The tool calls of an answer finish one by one in the order of their indices, each under its
/// identifier and its name, at its place in the content.
pub proof fn calls_finish_as_they_are_known(
    tools: Seq<(usize, ToolModel)>,
    start: int,
    events: Seq<GenerationEventModel>,
)
    requires
        0 <= start <= tools.len(),
        forall|k: int|
            0 <= k < tools.len() ==> (#[trigger] tools[k]).1.started
                && tools[k].1.content_index is Some,
    ensures
        ({
            let (told, error) = finish_tools(tools, start, events);
            &&& error is None
            &&& told.len() == events.len() + tools.len() - start
            &&& told.take(events.len() as int) == events
            &&& forall|k: int|
                start <= k < tools.len() ==> match #[trigger] told[events.len() + k - start] {
                    GenerationEventModel::ToolCallFinished { content_index, index, tool_call } => {
                        &&& content_index == tools[k].1.content_index->0
                        &&& index == tools[k].0
                        &&& tool_call.id == called_as(tools[k].1.id, tools[k].0)
                        &&& tool_call.name == tools[k].1.name
                        &&& tool_call.raw_arguments == tools[k].1.arguments
                        &&& tool_call.provider_metadata == no_metadata()
                    },
                    _ => false,
                }
        }),
    decreases tools.len() - start,
{
    if start < tools.len() {
        let event = tool_finished(
            tools[start].0,
            tools[start].1,
            tools[start].1.content_index->0,
        );
        calls_finish_as_they_are_known(tools, start + 1, events.push(event));
        let told = finish_tools(tools, start, events).0;
        let more = events.push(event);
        assert(told.take(more.len() as int) == more);
        assert(told[events.len() as int] == told.take(more.len() as int)[events.len() as int]);
        assert(told.take(events.len() as int) =~= more.take(events.len() as int));
        assert(more.take(events.len() as int) =~= events);
        assert forall|k: int| start <= k < tools.len() implies match #[trigger] told[events.len() + k
            - start] {
            GenerationEventModel::ToolCallFinished { content_index, index, tool_call } => {
                &&& content_index == tools[k].1.content_index->0
                &&& index == tools[k].0
                &&& tool_call.id == called_as(tools[k].1.id, tools[k].0)
                &&& tool_call.name == tools[k].1.name
                &&& tool_call.raw_arguments == tools[k].1.arguments
                &&& tool_call.provider_metadata == no_metadata()
            },
            _ => false,
        } by {
            if k > start {
                assert(told[more.len() + k - (start + 1)] == told[events.len() + k - start]);
            }
        }
    } else {
        assert(finish_tools(tools, start, events).0.take(events.len() as int) =~= events);
    }
}

} // verus!
