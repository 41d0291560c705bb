//! What is said in a Chat Completions stream, and what is reported of it.

use vstd::prelude::*;

use crate::json::{parsed_json, JsonModel};
use crate::llm::event::{FinishReasonModel, GenerationEventModel, StreamMetadataModel};
use crate::llm::model::{no_usage, Usage, UsageProvenance};
use crate::llm::protocol::chat_completions::model::{
    accumulate_tool, accumulate_tools, apply_choice, apply_delta, chat_usage, details_part,
    finish_eof, finish_open_content, finish_parts, finish_reason_of, finish_reasoning, finish_text,
    finish_tools, first_choice, frame_head, fresh, identified_tool, ingest, named_tool,
    reasoning_part, selected_reasoning, start_reasoning, start_text, start_tool, take_terminal,
    text_part, tool_arguments, tool_finished, tool_index, tool_string, tools_part, ChatModel,
    ChatStep, ToolModel,
};
use crate::llm::protocol::chat_completions::runs::stream_run;
use crate::llm::protocol::{
    CompatibilityProfile, ProtocolTerminalModel, ProtocolTerminalStatus, ReasoningField,
};

verus! {

/// The text that events report.
pub open spec fn text_told(events: Seq<GenerationEventModel>) -> Seq<char>
    decreases events.len(),
{
    if events.len() == 0 {
        Seq::empty()
    } else {
        match events.last() {
            GenerationEventModel::TextDelta { delta, .. } => text_told(events.drop_last()) + delta,
            _ => text_told(events.drop_last()),
        }
    }
}

/// The reasoning that events report.
pub open spec fn reasoning_told(events: Seq<GenerationEventModel>) -> Seq<char>
    decreases events.len(),
{
    if events.len() == 0 {
        Seq::empty()
    } else {
        match events.last() {
            GenerationEventModel::ReasoningDelta { delta, .. } => reasoning_told(
                events.drop_last(),
            ) + delta,
            _ => reasoning_told(events.drop_last()),
        }
    }
}

/// Whether the arguments of a finished tool call are read as the JSON that they are, and kept as
/// text only where they are none.
pub open spec fn reads_its_arguments(event: GenerationEventModel) -> bool {
    match event {
        GenerationEventModel::ToolCallFinished { tool_call, .. } => match parsed_json(
            tool_call.raw_arguments,
        ) {
            Some(value) => tool_call.arguments == value,
            None => tool_call.arguments == JsonModel::Str(tool_call.raw_arguments),
        },
        _ => true,
    }
}

pub open spec fn read_their_arguments(events: Seq<GenerationEventModel>) -> bool {
    forall|k: int| 0 <= k < events.len() ==> reads_its_arguments(#[trigger] events[k])
}

/// The usage that events report last.
pub open spec fn usage_told(events: Seq<GenerationEventModel>) -> Option<Usage>
    decreases events.len(),
{
    if events.len() == 0 {
        None
    } else {
        match events.last() {
            GenerationEventModel::UsageUpdated(usage) => Some(usage),
            _ => usage_told(events.drop_last()),
        }
    }
}

/// Whether none of the events tells what a stream is.
pub open spec fn starts_nothing(events: Seq<GenerationEventModel>) -> bool {
    forall|k: int| 0 <= k < events.len() ==> !(#[trigger] events[k] is Started)
}

/// Whether events go on from others with nothing said, and with no usage.
spec fn silent(before: Seq<GenerationEventModel>, after: Seq<GenerationEventModel>) -> bool {
    &&& text_told(after) == text_told(before)
    &&& reasoning_told(after) == reasoning_told(before)
    &&& usage_told(after) == usage_told(before)
    &&& read_their_arguments(before) ==> read_their_arguments(after)
    &&& before.len() <= after.len()
    &&& forall|k: int| 0 <= k < before.len() ==> #[trigger] after[k] == before[k]
    &&& forall|k: int| before.len() <= k < after.len() ==> !(#[trigger] after[k] is Started)
}

/// What does not change while content arrives.
spec fn same_frame(before: ChatModel, after: ChatModel) -> bool {
    &&& after.compatibility == before.compatibility
    &&& after.usage == before.usage
    &&& after.response_id == before.response_id
    &&& after.upstream_model == before.upstream_model
    &&& after.finish_reason == before.finish_reason
    &&& after.done == before.done
    &&& after.terminal == before.terminal
    &&& after.started == before.started
}

proof fn lemma_push(events: Seq<GenerationEventModel>, event: GenerationEventModel)
    ensures
        text_told(events.push(event)) == match event {
            GenerationEventModel::TextDelta { delta, .. } => text_told(events) + delta,
            _ => text_told(events),
        },
        reasoning_told(events.push(event)) == match event {
            GenerationEventModel::ReasoningDelta { delta, .. } => reasoning_told(events) + delta,
            _ => reasoning_told(events),
        },
        usage_told(events.push(event)) == match event {
            GenerationEventModel::UsageUpdated(usage) => Some(usage),
            _ => usage_told(events),
        },
        read_their_arguments(events) && reads_its_arguments(event) ==> read_their_arguments(
            events.push(event),
        ),
{
    assert(events.push(event).drop_last() =~= events);
}

proof fn lemma_finish_open(state: ChatModel, events: Seq<GenerationEventModel>)
    ensures
        silent(events, finish_text(state, events).1),
        same_frame(state, finish_text(state, events).0),
        silent(events, finish_reasoning(state, events).1),
        same_frame(state, finish_reasoning(state, events).0),
{
    reveal(finish_text);
    reveal(finish_reasoning);
    let texts = finish_text(state, events).1;
    let reasonings = finish_reasoning(state, events).1;
    if state.text is Some {
        lemma_push(events, texts.last());
        assert(texts =~= events.push(texts.last()));
    }
    if state.reasoning is Some {
        lemma_push(events, reasonings.last());
        assert(reasonings =~= events.push(reasonings.last()));
    }
}

proof fn lemma_finish_open_content(state: ChatModel, events: Seq<GenerationEventModel>)
    ensures
        silent(events, finish_open_content(state, events).1),
        same_frame(state, finish_open_content(state, events).0),
{
    reveal(finish_open_content);
    let (after_text, reported) = finish_text(state, events);
    lemma_finish_open(state, events);
    lemma_finish_open(after_text, reported);
}

proof fn lemma_start_blocks(state: ChatModel, events: Seq<GenerationEventModel>)
    ensures
        silent(events, start_text(state, events).1),
        same_frame(state, start_text(state, events).0),
        silent(events, start_reasoning(state, events).1),
        same_frame(state, start_reasoning(state, events).0),
{
    reveal(start_text);
    reveal(start_reasoning);
    lemma_finish_open(state, events);
    let (no_reasoning, reported) = finish_reasoning(state, events);
    let texts = start_text(state, events).1;
    if no_reasoning.text is None {
        lemma_push(reported, texts.last());
        assert(texts =~= reported.push(texts.last()));
    }
    let (no_text, reported) = finish_text(state, events);
    let reasonings = start_reasoning(state, events).1;
    if no_text.reasoning is None {
        lemma_push(reported, reasonings.last());
        assert(reasonings =~= reported.push(reasonings.last()));
    }
}

/// The text of a delta.
pub open spec fn text_in(delta: JsonModel) -> Seq<char> {
    match delta.str_at("content"@) {
        Some(text) => text,
        None => Seq::empty(),
    }
}

pub open spec fn text_at(delta: JsonModel, key: Seq<char>) -> Seq<char> {
    match delta.str_at(key) {
        Some(text) => text,
        None => Seq::empty(),
    }
}

/// The reasoning of a delta: that of the member that is asked for, or that of the first of the three
/// that has any.
pub open spec fn reasoning_said(delta: JsonModel, policy: ReasoningField) -> Seq<char> {
    match policy {
        ReasoningField::ReasoningContent => text_at(delta, "reasoning_content"@),
        ReasoningField::Reasoning => text_at(delta, "reasoning"@),
        ReasoningField::ReasoningText => text_at(delta, "reasoning_text"@),
        ReasoningField::Auto => if text_at(delta, "reasoning_content"@).len() > 0 {
            text_at(delta, "reasoning_content"@)
        } else if text_at(delta, "reasoning"@).len() > 0 {
            text_at(delta, "reasoning"@)
        } else {
            text_at(delta, "reasoning_text"@)
        },
    }
}

proof fn lemma_text_part(state: ChatModel, delta: JsonModel, events: Seq<GenerationEventModel>)
    ensures
        ({
            let (after, reported) = text_part(state, delta, events);
            &&& text_told(reported) == text_told(events) + text_in(delta)
            &&& reasoning_told(reported) == reasoning_told(events)
            &&& usage_told(reported) == usage_told(events)
            &&& read_their_arguments(events) ==> read_their_arguments(reported)
            &&& same_frame(state, after)
            &&& events.len() <= reported.len()
            &&& forall|k: int| 0 <= k < events.len() ==> #[trigger] reported[k] == events[k]
            &&& forall|k: int|
                events.len() <= k < reported.len() ==> !(#[trigger] reported[k] is Started)
        }),
{
    reveal(text_part);
    let (after, reported) = text_part(state, delta, events);
    match delta.str_at("content"@) {
        Some(text) => if text.len() > 0 {
            let (next, all, _) = start_text(state, events);
            lemma_start_blocks(state, events);
            lemma_push(all, reported.last());
            assert(reported =~= all.push(reported.last()));
        } else {
            assert(text_told(events) + text =~= text_told(events));
        },
        None => {
            assert(text_told(events) + Seq::<char>::empty() =~= text_told(events));
        },
    }
}

proof fn lemma_reasoning_part(state: ChatModel, delta: JsonModel, events: Seq<GenerationEventModel>)
    ensures
        ({
            let (after, reported) = reasoning_part(state, delta, events);
            &&& text_told(reported) == text_told(events)
            &&& reasoning_told(reported) == reasoning_told(events) + reasoning_said(
                delta,
                state.compatibility.reasoning_field,
            )
            &&& usage_told(reported) == usage_told(events)
            &&& read_their_arguments(events) ==> read_their_arguments(reported)
            &&& same_frame(state, after)
            &&& events.len() <= reported.len()
            &&& forall|k: int| 0 <= k < events.len() ==> #[trigger] reported[k] == events[k]
            &&& forall|k: int|
                events.len() <= k < reported.len() ==> !(#[trigger] reported[k] is Started)
        }),
{
    reveal(reasoning_part);
    let (after, reported) = reasoning_part(state, delta, events);
    let policy = state.compatibility.reasoning_field;
    match selected_reasoning(delta, policy) {
        Some((field, text)) => {
            assert(text == reasoning_said(delta, policy));
            let known = ChatModel {
                reasoning_field: match state.reasoning_field {
                    Some(first) => Some(first),
                    None => Some(field),
                },
                ..state
            };
            let (next, all, _) = start_reasoning(known, events);
            lemma_start_blocks(known, events);
            lemma_push(all, reported.last());
            assert(reported =~= all.push(reported.last()));
        },
        None => {
            assert(reasoning_said(delta, policy).len() == 0);
            assert(reasoning_told(events) + reasoning_said(delta, policy) =~= reasoning_told(
                events,
            ));
        },
    }
}

proof fn lemma_accumulate_tool(
    state: ChatModel,
    raw: JsonModel,
    at: usize,
    events: Seq<GenerationEventModel>,
)
    ensures
        silent(events, accumulate_tool(state, raw, at, events).events),
        same_frame(state, accumulate_tool(state, raw, at, events).state),
{
    reveal(accumulate_tool);
    reveal(identified_tool);
    reveal(tool_index);
    reveal(named_tool);
    reveal(tool_arguments);
    reveal(start_tool);
    let allow_null = state.compatibility.allow_nullable_tool_fields;
    let function = match raw.get("function"@) {
        Some(function) => function,
        None => JsonModel::Null,
    };
    match tool_string(raw, "id"@, allow_null) {
        Err(_) => {},
        Ok(id) => {
            let (next, index, tool) = identified_tool(state, raw, id, at);
            match tool_string(function, "name"@, allow_null) {
                Err(_) => {},
                Ok(name) => {
                    let called = named_tool(tool, name);
                    let (_, _, reported) = start_tool(next, index, called, events);
                    if !called.started {
                        lemma_push(events, reported.last());
                        assert(reported =~= events.push(reported.last()));
                    }
                    assert(silent(events, reported));
                    let step = tool_arguments(next, index, called, function, events);
                    if step.events.len() > reported.len() {
                        lemma_push(reported, step.events.last());
                        assert(step.events =~= reported.push(step.events.last()));
                    }
                },
            }
        },
    }
}

proof fn lemma_accumulate_tools(
    state: ChatModel,
    calls: Seq<JsonModel>,
    start: int,
    events: Seq<GenerationEventModel>,
)
    ensures
        silent(events, accumulate_tools(state, calls, start, events).events),
        same_frame(state, accumulate_tools(state, calls, start, events).state),
    decreases calls.len() - start,
{
    if 0 <= start < calls.len() {
        let step = accumulate_tool(state, calls[start], start as usize, events);
        lemma_accumulate_tool(state, calls[start], start as usize, events);
        if step.error.is_none() {
            lemma_accumulate_tools(step.state, calls, start + 1, step.events);
        }
    }
}

#[verifier::rlimit(40)]
proof fn lemma_apply_delta(state: ChatModel, delta: JsonModel, events: Seq<GenerationEventModel>)
    ensures
        ({
            let step = apply_delta(state, delta, events);
            &&& text_told(step.events) == text_told(events) + text_in(delta)
            &&& reasoning_told(step.events) == reasoning_told(events) + reasoning_said(
                delta,
                state.compatibility.reasoning_field,
            )
            &&& usage_told(step.events) == usage_told(events)
            &&& read_their_arguments(events) ==> read_their_arguments(step.events)
            &&& same_frame(state, step.state)
            &&& events.len() <= step.events.len()
            &&& forall|k: int| 0 <= k < events.len() ==> #[trigger] step.events[k] == events[k]
            &&& forall|k: int|
                events.len() <= k < step.events.len() ==> !(#[trigger] step.events[k] is Started)
        }),
{
    reveal(apply_delta);
    reveal(tools_part);
    reveal(details_part);
    let (after_text, with_text) = text_part(state, delta, events);
    lemma_text_part(state, delta, events);
    let (after_reasoning, with_reasoning) = reasoning_part(after_text, delta, with_text);
    lemma_reasoning_part(after_text, delta, with_text);
    let detailed = details_part(after_reasoning, delta);
    assert forall|k: int| 0 <= k < events.len() implies #[trigger] with_reasoning[k] == events[k] by {
        assert(with_text[k] == events[k]);
    }
    assert forall|k: int| events.len() <= k < with_reasoning.len() implies !(
    #[trigger] with_reasoning[k] is Started) by {
        if k < with_text.len() {
            assert(with_reasoning[k] == with_text[k]);
        }
    }
    match delta.array_at("tool_calls"@) {
        Some(calls) => if calls.len() > 0 {
            let (closed, reported) = finish_open_content(detailed, with_reasoning);
            lemma_finish_open_content(detailed, with_reasoning);
            lemma_accumulate_tools(closed, calls, 0, reported);
            let all = accumulate_tools(closed, calls, 0, reported).events;
            assert forall|k: int| 0 <= k < events.len() implies #[trigger] all[k] == events[k] by {
                assert(reported[k] == with_reasoning[k]);
            }
            assert forall|k: int| events.len() <= k < all.len() implies !(
            #[trigger] all[k] is Started) by {
                if k < with_reasoning.len() {
                    assert(all[k] == reported[k]);
                    assert(reported[k] == with_reasoning[k]);
                } else if k < reported.len() {
                    assert(all[k] == reported[k]);
                }
            }
        },
        None => {},
    }
}

proof fn lemma_finish_tools(
    tools: Seq<(usize, ToolModel)>,
    start: int,
    events: Seq<GenerationEventModel>,
)
    ensures
        silent(events, finish_tools(tools, start, events).0),
    decreases tools.len() - start,
{
    if 0 <= start < tools.len() {
        match tools[start].1.content_index {
            Some(content_index) => {
                let event = tool_finished(tools[start].0, tools[start].1, content_index);
                lemma_push(events, event);
                lemma_finish_tools(tools, start + 1, events.push(event));
                let all = finish_tools(tools, start + 1, events.push(event)).0;
                assert forall|k: int| 0 <= k < events.len() implies #[trigger] all[k] == events[k] by {
                    assert(all[k] == events.push(event)[k]);
                }
                assert forall|k: int| events.len() <= k < all.len() implies !(
                #[trigger] all[k] is Started) by {
                    if k == events.len() {
                        assert(all[k] == events.push(event)[k]);
                    }
                }
            },
            None => {},
        }
    }
}

/// The choice of a frame that counts.
pub open spec fn choice_in(value: JsonModel) -> Option<JsonModel> {
    match value.get("choices"@) {
        Some(JsonModel::Array(choices)) => if choices.len() > 0 {
            Some(choices[0])
        } else {
            None
        },
        _ => None,
    }
}

/// The delta of a frame that counts.
pub open spec fn delta_in(value: JsonModel) -> JsonModel {
    match choice_in(value) {
        Some(choice) => match choice.get("delta"@) {
            Some(delta) => delta,
            None => JsonModel::Null,
        },
        None => JsonModel::Null,
    }
}

/// What a provider calls the end.
pub open spec fn reason_in(value: JsonModel) -> Option<Seq<char>> {
    match choice_in(value) {
        Some(choice) => choice.str_at("finish_reason"@),
        None => None,
    }
}

/// The usage object of a frame.
pub open spec fn usage_in(value: JsonModel) -> Option<JsonModel> {
    match value.get("usage"@) {
        Some(JsonModel::Object(members)) => Some(JsonModel::Object(members)),
        _ => None,
    }
}

pub open spec fn or_zero(count: Option<u64>) -> int {
    match count {
        Some(n) => n as int,
        None => 0,
    }
}

pub open spec fn at_most_u64(n: int) -> int {
    if n > u64::MAX {
        u64::MAX as int
    } else {
        n
    }
}

/// Whether usage is what a usage object counts: what was read from a cache, or written to it, is
/// counted apart from the rest of the input, and the total is that of the object, or else input and
/// output together.
pub open spec fn counts(usage: Usage, object: JsonModel) -> bool {
    let input = or_zero(object.u64_at("prompt_tokens"@));
    let output = or_zero(object.u64_at("completion_tokens"@));
    let read = match object.u64_at2("prompt_tokens_details"@, "cached_tokens"@) {
        Some(n) => n as int,
        None => or_zero(object.u64_at("prompt_cache_hit_tokens"@)),
    };
    let written = or_zero(object.u64_at2("prompt_tokens_details"@, "cache_write_tokens"@));
    &&& usage.provenance == UsageProvenance::Reported
    &&& usage.cache_read_tokens == read
    &&& usage.cache_write_tokens == written
    &&& usage.input_tokens == if input >= read + written {
        input - read - written
    } else {
        0
    }
    &&& usage.output_tokens == output
    &&& usage.reasoning_tokens == or_zero(
        object.u64_at2("completion_tokens_details"@, "reasoning_tokens"@),
    )
    &&& usage.total_tokens == match object.u64_at("total_tokens"@) {
        Some(n) => n as int,
        None => at_most_u64(input + output),
    }
}

/// Whether a finish reason is what a provider calls it.
pub open spec fn means(reason: FinishReasonModel, name: Seq<char>) -> bool {
    match reason {
        FinishReasonModel::Stop => name == "stop"@,
        FinishReasonModel::Length => name == "length"@,
        FinishReasonModel::ToolCalls => name == "tool_calls"@ || name == "function_call"@,
        FinishReasonModel::ContentFilter => name == "content_filter"@,
        FinishReasonModel::Other(other) => {
            &&& other == name
            &&& name != "stop"@ && name != "length"@ && name != "tool_calls"@ && name
                != "function_call"@ && name != "content_filter"@
        },
        FinishReasonModel::Incomplete(_) => false,
    }
}

/// What an accepted frame tells, in the words of the frame: the text of its delta, its reasoning,
/// and its usage. The arguments of the tool calls that it finishes are read. The first frame tells
/// what the stream is, and no other does.
pub proof fn frames_tell_what_they_say(state: ChatModel, data: Seq<char>, value: JsonModel)
    requires
        data != "[DONE]"@,
        parsed_json(data) == Some(value),
    ensures
        match ingest(state, data).result {
            Err(_) => true,
            Ok(update) => {
                let delta = delta_in(value);
                &&& text_told(update.events) == text_in(delta)
                &&& reasoning_told(update.events) == reasoning_said(
                    delta,
                    state.compatibility.reasoning_field,
                )
                &&& read_their_arguments(update.events)
                &&& match usage_in(value) {
                    Some(object) => usage_told(update.events) is Some && counts(
                        usage_told(update.events)->0,
                        object,
                    ),
                    None => usage_told(update.events) is None,
                }
                &&& state.started ==> starts_nothing(update.events)
                &&& !state.started ==> {
                    &&& update.events.len() > 0
                    &&& update.events[0] == GenerationEventModel::Started(
                        StreamMetadataModel {
                            response_id: match value.str_at("id"@) {
                                Some(id) => Some(id),
                                None => state.response_id,
                            },
                            upstream_model: match value.str_at("model"@) {
                                Some(model) => Some(model),
                                None => state.upstream_model,
                            },
                        },
                    )
                    &&& starts_nothing(update.events.drop_first())
                }
            },
        },
{
    lemma_frame(state, data, value);
}

/// What an accepted frame leaves behind for the end of the stream.
spec fn keeps_for_the_end(before: ChatModel, after: ChatModel, value: JsonModel) -> bool {
    &&& after.compatibility == before.compatibility
    &&& after.started
    &&& match usage_in(value) {
        Some(object) => counts(after.usage, object),
        None => after.usage == before.usage,
    }
    &&& after.response_id == match value.str_at("id"@) {
        Some(id) => Some(id),
        None => before.response_id,
    }
    &&& after.upstream_model == match value.str_at("model"@) {
        Some(model) => Some(model),
        None => before.upstream_model,
    }
    &&& match reason_in(value) {
        Some(name) => after.finish_reason is Some && means(after.finish_reason->0, name),
        None => after.finish_reason == before.finish_reason,
    }
    &&& after.done == before.done
    &&& !before.done ==> after.terminal == before.terminal
}

proof fn lemma_usage(object: JsonModel)
    ensures
        counts(chat_usage(object), object),
{
    reveal(chat_usage);
}

proof fn lemma_reason(name: Seq<char>)
    ensures
        means(finish_reason_of(name), name),
{
    reveal_strlit("stop");
    reveal_strlit("length");
    reveal_strlit("tool_calls");
    reveal_strlit("function_call");
    reveal_strlit("content_filter");
    assert("stop"@.len() == 4 && "length"@.len() == 6 && "tool_calls"@.len() == 10
        && "function_call"@.len() == 13 && "content_filter"@.len() == 14);
}

#[verifier::rlimit(40)]
proof fn lemma_frame(state: ChatModel, data: Seq<char>, value: JsonModel)
    requires
        data != "[DONE]"@,
        parsed_json(data) == Some(value),
    ensures
        match ingest(state, data).result {
            Err(_) => true,
            Ok(update) => {
                let delta = delta_in(value);
                &&& text_told(update.events) == text_in(delta)
                &&& reasoning_told(update.events) == reasoning_said(
                    delta,
                    state.compatibility.reasoning_field,
                )
                &&& read_their_arguments(update.events)
                &&& match usage_in(value) {
                    Some(object) => usage_told(update.events) is Some && counts(
                        usage_told(update.events)->0,
                        object,
                    ),
                    None => usage_told(update.events) is None,
                }
                &&& state.started ==> starts_nothing(update.events)
                &&& !state.started ==> {
                    &&& update.events.len() > 0
                    &&& update.events[0] == GenerationEventModel::Started(
                        StreamMetadataModel {
                            response_id: match value.str_at("id"@) {
                                Some(id) => Some(id),
                                None => state.response_id,
                            },
                            upstream_model: match value.str_at("model"@) {
                                Some(model) => Some(model),
                                None => state.upstream_model,
                            },
                        },
                    )
                    &&& starts_nothing(update.events.drop_first())
                }
                &&& keeps_for_the_end(state, ingest(state, data).state, value)
            },
        },
{
    reveal(take_terminal);
    let (head, events) = frame_head(state, value);
    lemma_head(state, value);
    let delta = delta_in(value);
    let policy = state.compatibility.reasoning_field;
    let none = Seq::<char>::empty();
    match first_choice(value) {
        Some(choice) => {
            let step = apply_choice(head, choice, events);
            if step.error is None {
                lemma_choice(head, choice, events);
                assert(none + text_in(delta) =~= text_in(delta));
                assert(none + reasoning_said(delta, policy) =~= reasoning_said(delta, policy));
                let all = step.events;
                let first: int = if state.started {
                    0
                } else {
                    1
                };
                assert forall|k: int| first <= k < all.len() implies !(#[trigger] all[k] is Started) by {
                    if k < events.len() {
                        assert(all[k] == events[k]);
                    }
                }
                if !state.started {
                    assert(all[0] == events[0]);
                    assert(starts_nothing(all.drop_first()));
                }
            }
        },
        None => {
            assert(text_in(delta) =~= none);
            assert(reasoning_said(delta, policy) =~= none);
            if !state.started {
                assert(starts_nothing(events.drop_first()));
            }
        },
    }
}

#[verifier::rlimit(40)]
proof fn lemma_head(state: ChatModel, value: JsonModel)
    ensures
        ({
            let (head, events) = frame_head(state, value);
            let first: int = if state.started {
                0
            } else {
                1
            };
            &&& text_told(events) == Seq::<char>::empty()
            &&& reasoning_told(events) == Seq::<char>::empty()
            &&& read_their_arguments(events)
            &&& first <= events.len()
            &&& forall|k: int| first <= k < events.len() ==> !(#[trigger] events[k] is Started)
            &&& match usage_in(value) {
                Some(object) => usage_told(events) is Some && counts(usage_told(events)->0, object)
                    && counts(head.usage, object),
                None => usage_told(events) is None && head.usage == state.usage,
            }
            &&& !state.started ==> events[0] == GenerationEventModel::Started(
                StreamMetadataModel {
                    response_id: head.response_id,
                    upstream_model: head.upstream_model,
                },
            )
            &&& head.response_id == match value.str_at("id"@) {
                Some(id) => Some(id),
                None => state.response_id,
            }
            &&& head.upstream_model == match value.str_at("model"@) {
                Some(model) => Some(model),
                None => state.upstream_model,
            }
            &&& head.compatibility == state.compatibility
            &&& head.finish_reason == state.finish_reason
            &&& head.done == state.done
            &&& head.terminal == state.terminal
            &&& head.started
        }),
{
    reveal(frame_head);
    let (head, events) = frame_head(state, value);
    let none = Seq::<GenerationEventModel>::empty();
    match usage_in(value) {
        Some(object) => {
            lemma_usage(object);
        },
        None => {},
    }
    let first = if state.started {
        none
    } else {
        events.take(1)
    };
    if !state.started {
        lemma_push(none, events[0]);
        assert(first =~= none.push(events[0]));
    }
    if events.len() > first.len() {
        lemma_push(first, events.last());
        assert(events =~= first.push(events.last()));
    } else {
        assert(events =~= first);
    }
}

#[verifier::rlimit(40)]
proof fn lemma_choice(state: ChatModel, choice: JsonModel, events: Seq<GenerationEventModel>)
    requires
        apply_choice(state, choice, events).error is None,
    ensures
        ({
            let step = apply_choice(state, choice, events);
            let delta = match choice.get("delta"@) {
                Some(delta) => delta,
                None => JsonModel::Null,
            };
            &&& text_told(step.events) == text_told(events) + text_in(delta)
            &&& reasoning_told(step.events) == reasoning_told(events) + reasoning_said(
                delta,
                state.compatibility.reasoning_field,
            )
            &&& usage_told(step.events) == usage_told(events)
            &&& read_their_arguments(events) ==> read_their_arguments(step.events)
            &&& events.len() <= step.events.len()
            &&& forall|k: int| 0 <= k < events.len() ==> #[trigger] step.events[k] == events[k]
            &&& forall|k: int|
                events.len() <= k < step.events.len() ==> !(#[trigger] step.events[k] is Started)
            &&& match choice.str_at("finish_reason"@) {
                Some(name) => step.state.finish_reason is Some && means(
                    step.state.finish_reason->0,
                    name,
                ) && same_frame(
                    ChatModel { finish_reason: step.state.finish_reason, ..state },
                    step.state,
                ),
                None => same_frame(state, step.state),
            }
        }),
{
    reveal(apply_choice);
    reveal(finish_parts);
    let none = Seq::<char>::empty();
    let policy = state.compatibility.reasoning_field;
    let step = match choice.get("delta"@) {
        Some(delta) => apply_delta(state, delta, events),
        None => ChatStep { state, events, error: None },
    };
    match choice.get("delta"@) {
        Some(delta) => {
            lemma_apply_delta(state, delta, events);
        },
        None => {
            assert(text_told(events) + none =~= text_told(events));
            assert(reasoning_told(events) + none =~= reasoning_told(events));
            assert(text_in(JsonModel::Null) =~= none);
            assert(reasoning_said(JsonModel::Null, policy) =~= none);
        },
    }
    match choice.str_at("finish_reason"@) {
        Some(reason) => {
            lemma_reason(reason);
            let named = ChatModel { finish_reason: Some(finish_reason_of(reason)), ..step.state };
            lemma_finish_open_content(named, step.events);
            let (closed, reported) = finish_open_content(named, step.events);
            lemma_finish_tools(closed.tools, 0, reported);
            let all = finish_tools(closed.tools, 0, reported).0;
            assert forall|k: int| 0 <= k < events.len() implies #[trigger] all[k] == events[k] by {
                assert(all[k] == reported[k]);
                assert(reported[k] == step.events[k]);
            }
            assert forall|k: int| events.len() <= k < all.len() implies !(
            #[trigger] all[k] is Started) by {
                if k < step.events.len() {
                    assert(all[k] == reported[k]);
                    assert(reported[k] == step.events[k]);
                } else if k < reported.len() {
                    assert(all[k] == reported[k]);
                }
            }
        },
        None => {},
    }
}

/// The text of the frames from the first up to `end`, one after the other.
pub open spec fn frames_text(frames: Seq<Seq<char>>, end: int) -> Seq<char>
    decreases end,
{
    if end <= 0 || end > frames.len() {
        Seq::empty()
    } else {
        let before = frames_text(frames, end - 1);
        match parsed_json(frames[end - 1]) {
            Some(value) => if frames[end - 1] == "[DONE]"@ {
                before
            } else {
                before + text_in(delta_in(value))
            },
            None => before,
        }
    }
}

/// The reasoning of the frames from the first up to `end`, one after the other.
pub open spec fn frames_reasoning(
    frames: Seq<Seq<char>>,
    policy: ReasoningField,
    end: int,
) -> Seq<char>
    decreases end,
{
    if end <= 0 || end > frames.len() {
        Seq::empty()
    } else {
        let before = frames_reasoning(frames, policy, end - 1);
        match parsed_json(frames[end - 1]) {
            Some(value) => if frames[end - 1] == "[DONE]"@ {
                before
            } else {
                before + reasoning_said(delta_in(value), policy)
            },
            None => before,
        }
    }
}

proof fn lemma_told_joined(a: Seq<GenerationEventModel>, b: Seq<GenerationEventModel>)
    ensures
        text_told(a + b) == text_told(a) + text_told(b),
        reasoning_told(a + b) == reasoning_told(a) + reasoning_told(b),
    decreases b.len(),
{
    if b.len() > 0 {
        lemma_told_joined(a, b.drop_last());
        assert((a + b).drop_last() =~= a + b.drop_last());
        match b.last() {
            GenerationEventModel::TextDelta { delta, .. } => {
                assert((text_told(a) + text_told(b.drop_last())) + delta =~= text_told(a) + (
                text_told(b.drop_last()) + delta));
            },
            GenerationEventModel::ReasoningDelta { delta, .. } => {
                assert((reasoning_told(a) + reasoning_told(b.drop_last())) + delta
                    =~= reasoning_told(a) + (reasoning_told(b.drop_last()) + delta));
            },
            _ => {},
        }
    } else {
        assert(a + b =~= a);
        assert(text_told(a) + Seq::<char>::empty() =~= text_told(a));
        assert(reasoning_told(a) + Seq::<char>::empty() =~= reasoning_told(a));
    }
}

proof fn lemma_run_told(
    state: ChatModel,
    frames: Seq<Seq<char>>,
    start: int,
    history: Seq<GenerationEventModel>,
)
    requires
        0 <= start <= frames.len(),
        text_told(history) == frames_text(frames, start),
        reasoning_told(history) == frames_reasoning(
            frames,
            state.compatibility.reasoning_field,
            start,
        ),
        read_their_arguments(history),
    ensures
        match stream_run(state, frames, start) {
            Some((_, events)) => {
                let n = frames.len() as int;
                &&& text_told(history + events) == frames_text(frames, n)
                &&& reasoning_told(history + events) == frames_reasoning(
                    frames,
                    state.compatibility.reasoning_field,
                    n,
                )
                &&& read_their_arguments(history + events)
            },
            None => true,
        },
    decreases frames.len() - start,
{
    assert(history + Seq::<GenerationEventModel>::empty() =~= history);
    if start < frames.len() {
        let data = frames[start];
        let step = ingest(state, data);
        match step.result {
            Err(_) => {},
            Ok(update) => {
                reveal(take_terminal);
                lemma_told_joined(history, update.events);
                let policy = state.compatibility.reasoning_field;
                if data == "[DONE]"@ {
                    assert(text_told(history) + Seq::<char>::empty() =~= text_told(history));
                    assert(reasoning_told(history) + Seq::<char>::empty() =~= reasoning_told(
                        history,
                    ));
                } else {
                    match parsed_json(data) {
                        Some(value) => {
                            lemma_frame(state, data, value);
                        },
                        None => {},
                    }
                }
                let told = history + update.events;
                assert(read_their_arguments(told)) by {
                    assert forall|k: int| 0 <= k < told.len() implies reads_its_arguments(
                        #[trigger] told[k],
                    ) by {
                        if k < history.len() {
                            assert(told[k] == history[k]);
                        } else {
                            assert(told[k] == update.events[k - history.len()]);
                        }
                    }
                }
                assert(text_told(told) == frames_text(frames, start + 1));
                assert(reasoning_told(told) == frames_reasoning(frames, policy, start + 1));
                lemma_run_told(step.state, frames, start + 1, told);
                match stream_run(step.state, frames, start + 1) {
                    None => {},
                    Some((_, rest)) => {
                        assert(told + rest =~= history + (update.events + rest));
                    },
                }
            },
        }
    }
}

/// Over the frames of a stream that are accepted, nothing that was said is lost, added or moved: the
/// text that is reported is the content of the frames, one after the other, and so is the
/// reasoning. The arguments of every tool call are read as the JSON that they are.
pub proof fn streams_tell_what_was_said(
    compatibility: CompatibilityProfile,
    frames: Seq<Seq<char>>,
)
    ensures
        match stream_run(fresh(compatibility), frames, 0) {
            Some((_, events)) => {
                &&& text_told(events) == frames_text(frames, frames.len() as int)
                &&& reasoning_told(events) == frames_reasoning(
                    frames,
                    compatibility.reasoning_field,
                    frames.len() as int,
                )
                &&& read_their_arguments(events)
            },
            None => true,
        },
{
    let none = Seq::<GenerationEventModel>::empty();
    lemma_run_told(fresh(compatibility), frames, 0, none);
    match stream_run(fresh(compatibility), frames, 0) {
        Some((_, events)) => {
            assert(none + events =~= events);
        },
        None => {},
    }
}

/// What the frames from the first up to `end` say last of a stream: why it ended, what it used, and
/// what it is called.
pub open spec fn last_reason(frames: Seq<Seq<char>>, end: int) -> Option<Seq<char>>
    decreases end,
{
    if end <= 0 || end > frames.len() {
        None
    } else {
        match parsed_json(frames[end - 1]) {
            Some(value) => match reason_in(value) {
                Some(name) => Some(name),
                None => last_reason(frames, end - 1),
            },
            None => last_reason(frames, end - 1),
        }
    }
}

pub open spec fn last_usage(frames: Seq<Seq<char>>, end: int) -> Option<JsonModel>
    decreases end,
{
    if end <= 0 || end > frames.len() {
        None
    } else {
        match parsed_json(frames[end - 1]) {
            Some(value) => match usage_in(value) {
                Some(object) => Some(object),
                None => last_usage(frames, end - 1),
            },
            None => last_usage(frames, end - 1),
        }
    }
}

pub open spec fn last_named(frames: Seq<Seq<char>>, key: Seq<char>, end: int) -> Option<Seq<char>>
    decreases end,
{
    if end <= 0 || end > frames.len() {
        None
    } else {
        match parsed_json(frames[end - 1]) {
            Some(value) => match value.str_at(key) {
                Some(name) => Some(name),
                None => last_named(frames, key, end - 1),
            },
            None => last_named(frames, key, end - 1),
        }
    }
}

/// Whether a session knows what its frames have said of the stream.
spec fn knows(state: ChatModel, frames: Seq<Seq<char>>, end: int) -> bool {
    &&& !state.done && !state.terminal
    &&& match last_reason(frames, end) {
        Some(name) => state.finish_reason is Some && means(state.finish_reason->0, name),
        None => state.finish_reason is None,
    }
    &&& match last_usage(frames, end) {
        Some(object) => counts(state.usage, object),
        None => state.usage == no_usage(),
    }
    &&& state.response_id == last_named(frames, "id"@, end)
    &&& state.upstream_model == last_named(frames, "model"@, end)
}

proof fn lemma_run_known(state: ChatModel, frames: Seq<Seq<char>>, start: int)
    requires
        0 <= start <= frames.len(),
        knows(state, frames, start),
        forall|k: int| 0 <= k < frames.len() ==> #[trigger] frames[k] != "[DONE]"@,
    ensures
        match stream_run(state, frames, start) {
            Some((last, _)) => knows(last, frames, frames.len() as int),
            None => true,
        },
    decreases frames.len() - start,
{
    if start < frames.len() {
        let data = frames[start];
        let step = ingest(state, data);
        match step.result {
            Err(_) => {},
            Ok(_) => {
                match parsed_json(data) {
                    Some(value) => {
                        lemma_frame(state, data, value);
                    },
                    None => {},
                }
                lemma_run_known(step.state, frames, start + 1);
            },
        }
    }
}

/// Whether a terminal says what the frames have said of the stream.
pub open spec fn sums_up(terminal: ProtocolTerminalModel, frames: Seq<Seq<char>>) -> bool {
    let n = frames.len() as int;
    &&& terminal.status == ProtocolTerminalStatus::Completed
    &&& terminal.error is None
    &&& last_reason(frames, n) is Some
    &&& means(terminal.finish_reason, last_reason(frames, n)->0)
    &&& match last_usage(frames, n) {
        Some(object) => counts(terminal.usage, object),
        None => terminal.usage == no_usage(),
    }
    &&& terminal.response_id == last_named(frames, "id"@, n)
    &&& terminal.upstream_model == last_named(frames, "model"@, n)
}

/// The end of a stream sums it up: with the last finish reason that a frame gave, under the name
/// that it has here, and with the last usage, identifier and model. Without a finish reason there is
/// no success, neither with `[DONE]` nor with the end of the data.
pub proof fn the_end_sums_up_the_stream(
    compatibility: CompatibilityProfile,
    frames: Seq<Seq<char>>,
)
    requires
        forall|k: int| 0 <= k < frames.len() ==> #[trigger] frames[k] != "[DONE]"@,
    ensures
        match stream_run(fresh(compatibility), frames, 0) {
            Some((state, _)) => {
                let done = ingest(state, "[DONE]"@).result;
                let over = finish_eof(state).1;
                &&& done is Ok
                &&& done->Ok_0.events.len() == 0
                &&& match last_reason(frames, frames.len() as int) {
                    Some(_) => {
                        &&& done->Ok_0.terminal is Some
                        &&& sums_up(done->Ok_0.terminal->0, frames)
                        &&& over is Ok
                        &&& over->Ok_0 is Some
                        &&& sums_up(over->Ok_0->0, frames)
                    },
                    None => done->Ok_0.terminal is None && over is Err,
                }
            },
            None => true,
        },
{
    reveal(take_terminal);
    lemma_run_known(fresh(compatibility), frames, 0);
}

} // verus!
