//! What a Chat Completions stream does to the state of its session, and what it reports.

use vstd::prelude::*;

use crate::json::{json_text, parsed_json, JsonModel};
use crate::llm::error::{
    allowed_code, protocol_error, provider_failure, with_body, GatewayErrorModel,
};
use crate::llm::event::{FinishReasonModel, GenerationEventModel, StreamMetadataModel};
use crate::llm::model::{
    no_metadata, no_usage, reasoning_field_name, saturating_sum, ChatReasoningField,
    ChatReplayMetadataModel, ProviderMetadataModel, ToolCallModel, Usage, UsageProvenance,
};
use crate::llm::protocol::responses::model::arguments_of;
use crate::llm::protocol::responses::wire::{call_name, count_or_zero, saturating_difference};
use crate::llm::protocol::{
    CompatibilityProfile, ProtocolTerminalModel, ProtocolTerminalStatus, ProtocolUpdateModel,
    ReasoningField,
};
use crate::ordered::{find, index_named, put, with_name};
use crate::text::decimal_digits;

verus! {

/// A tool call while its fragments arrive.
pub struct ToolModel {
    pub content_index: Option<usize>,
    pub id: Seq<char>,
    pub name: Seq<char>,
    pub arguments: Seq<char>,
    pub started: bool,
}

/// A text or reasoning block that is open.
pub struct OpenModel {
    pub content_index: usize,
    pub id: Seq<char>,
}

/// The state of a session.
pub struct ChatModel {
    pub compatibility: CompatibilityProfile,
    pub started: bool,
    pub terminal: bool,
    pub done: bool,
    pub finish_reason: Option<FinishReasonModel>,
    pub response_id: Option<Seq<char>>,
    pub upstream_model: Option<Seq<char>>,
    pub usage: Usage,
    pub text: Option<OpenModel>,
    pub reasoning: Option<OpenModel>,
    pub next_text_index: usize,
    pub next_reasoning_index: usize,
    pub next_content_index: usize,
    pub reasoning_field: Option<ChatReasoningField>,
    pub reasoning_details: Option<JsonModel>,
    pub tools: Seq<(usize, ToolModel)>,
    pub tool_indices_by_id: Seq<(Seq<char>, usize)>,
    pub next_tool_index: usize,
}

/// The session before its stream begins.
pub open spec fn fresh(compatibility: CompatibilityProfile) -> ChatModel {
    ChatModel {
        compatibility,
        started: false,
        terminal: false,
        done: false,
        finish_reason: None,
        response_id: None,
        upstream_model: None,
        usage: no_usage(),
        text: None,
        reasoning: None,
        next_text_index: 0,
        next_reasoning_index: 0,
        next_content_index: 0,
        reasoning_field: None,
        reasoning_details: None,
        tools: Seq::empty(),
        tool_indices_by_id: Seq::empty(),
        next_tool_index: 0,
    }
}

/// The state after a piece of a frame, the events reported so far, and the error that cut the
/// piece short.
pub struct ChatStep {
    pub state: ChatModel,
    pub events: Seq<GenerationEventModel>,
    pub error: Option<GatewayErrorModel>,
}

/// The state after a frame, and what the frame amounts to.
pub struct ChatIngested {
    pub state: ChatModel,
    pub result: Result<ProtocolUpdateModel, GatewayErrorModel>,
}

/// The index after `n`, as long as there is one.
pub open spec fn next_index(n: usize) -> usize {
    if n == usize::MAX {
        usize::MAX
    } else {
        (n + 1) as usize
    }
}

/// What a later request needs of the reasoning.
pub open spec fn replay_metadata(state: ChatModel) -> Option<ProviderMetadataModel> {
    if state.reasoning_field.is_some() || state.reasoning_details.is_some() {
        Some(
            ProviderMetadataModel {
                chat: Some(
                    ChatReplayMetadataModel {
                        reasoning_field: state.reasoning_field,
                        reasoning_details: state.reasoning_details,
                    },
                ),
                responses: None,
            },
        )
    } else {
        None
    }
}

/// Ends the open text block.
#[verifier::opaque]
pub open spec fn finish_text(state: ChatModel, events: Seq<GenerationEventModel>) -> (
    ChatModel,
    Seq<GenerationEventModel>,
) {
    match state.text {
        Some(open) => (
            ChatModel { text: None, ..state },
            events.push(
                GenerationEventModel::TextFinished {
                    content_index: open.content_index,
                    id: open.id,
                    replay: None,
                },
            ),
        ),
        None => (state, events),
    }
}

/// Ends the open reasoning block.
#[verifier::opaque]
pub open spec fn finish_reasoning(state: ChatModel, events: Seq<GenerationEventModel>) -> (
    ChatModel,
    Seq<GenerationEventModel>,
) {
    match state.reasoning {
        Some(open) => (
            ChatModel { reasoning: None, ..state },
            events.push(
                GenerationEventModel::ReasoningFinished {
                    content_index: open.content_index,
                    id: open.id,
                    replay: replay_metadata(state),
                },
            ),
        ),
        None => (state, events),
    }
}

#[verifier::opaque]
pub open spec fn finish_open_content(state: ChatModel, events: Seq<GenerationEventModel>) -> (
    ChatModel,
    Seq<GenerationEventModel>,
) {
    let (after_text, reported) = finish_text(state, events);
    finish_reasoning(after_text, reported)
}

/// Text goes on in the open text block, or in a new one. Open reasoning ends.
#[verifier::opaque]
pub open spec fn start_text(state: ChatModel, events: Seq<GenerationEventModel>) -> (
    ChatModel,
    Seq<GenerationEventModel>,
    OpenModel,
) {
    let (closed, reported) = finish_reasoning(state, events);
    match closed.text {
        Some(open) => (closed, reported, open),
        None => {
            let open = OpenModel {
                content_index: closed.next_content_index,
                id: "text-"@ + decimal_digits(closed.next_text_index as nat),
            };
            (
                ChatModel {
                    next_text_index: next_index(closed.next_text_index),
                    next_content_index: next_index(closed.next_content_index),
                    text: Some(open),
                    ..closed
                },
                reported.push(
                    GenerationEventModel::TextStarted {
                        content_index: open.content_index,
                        id: open.id,
                    },
                ),
                open,
            )
        },
    }
}

/// Reasoning goes on in the open reasoning block, or in a new one. Open text ends.
#[verifier::opaque]
pub open spec fn start_reasoning(state: ChatModel, events: Seq<GenerationEventModel>) -> (
    ChatModel,
    Seq<GenerationEventModel>,
    OpenModel,
) {
    let (closed, reported) = finish_text(state, events);
    match closed.reasoning {
        Some(open) => (closed, reported, open),
        None => {
            let open = OpenModel {
                content_index: closed.next_content_index,
                id: "reasoning-"@ + decimal_digits(closed.next_reasoning_index as nat),
            };
            (
                ChatModel {
                    next_reasoning_index: next_index(closed.next_reasoning_index),
                    next_content_index: next_index(closed.next_content_index),
                    reasoning: Some(open),
                    ..closed
                },
                reported.push(
                    GenerationEventModel::ReasoningStarted {
                        content_index: open.content_index,
                        id: open.id,
                    },
                ),
                open,
            )
        },
    }
}

/// The text of a delta, where it has any.
#[verifier::opaque]
pub open spec fn text_part(
    state: ChatModel,
    delta: JsonModel,
    events: Seq<GenerationEventModel>,
) -> (ChatModel, Seq<GenerationEventModel>) {
    match delta.str_at("content"@) {
        Some(text) => if text.len() == 0 {
            (state, events)
        } else {
            let (next, reported, open) = start_text(state, events);
            (
                next,
                reported.push(
                    GenerationEventModel::TextDelta {
                        content_index: open.content_index,
                        id: open.id,
                        delta: text,
                    },
                ),
            )
        },
        None => (state, events),
    }
}

/// The reasoning in one member of a delta, where there is any.
pub open spec fn reasoning_in(delta: JsonModel, field: ChatReasoningField) -> Option<
    (ChatReasoningField, Seq<char>),
> {
    match delta.str_at(reasoning_field_name(field)) {
        Some(text) => if text.len() == 0 {
            None
        } else {
            Some((field, text))
        },
        None => None,
    }
}

/// The reasoning of a delta: that of the configured member, or that of the first one that has
/// any.
pub open spec fn selected_reasoning(delta: JsonModel, policy: ReasoningField) -> Option<
    (ChatReasoningField, Seq<char>),
> {
    match policy {
        ReasoningField::Auto => match reasoning_in(delta, ChatReasoningField::ReasoningContent) {
            Some(found) => Some(found),
            None => match reasoning_in(delta, ChatReasoningField::Reasoning) {
                Some(found) => Some(found),
                None => reasoning_in(delta, ChatReasoningField::ReasoningText),
            },
        },
        ReasoningField::ReasoningContent => reasoning_in(
            delta,
            ChatReasoningField::ReasoningContent,
        ),
        ReasoningField::Reasoning => reasoning_in(delta, ChatReasoningField::Reasoning),
        ReasoningField::ReasoningText => reasoning_in(delta, ChatReasoningField::ReasoningText),
    }
}

/// The reasoning of a delta, where it has any. The first member that carried some is remembered.
#[verifier::opaque]
pub open spec fn reasoning_part(
    state: ChatModel,
    delta: JsonModel,
    events: Seq<GenerationEventModel>,
) -> (ChatModel, Seq<GenerationEventModel>) {
    match selected_reasoning(delta, state.compatibility.reasoning_field) {
        Some((field, text)) => {
            let known = ChatModel {
                reasoning_field: match state.reasoning_field {
                    Some(first) => Some(first),
                    None => Some(field),
                },
                ..state
            };
            let (next, reported, open) = start_reasoning(known, events);
            (
                next,
                reported.push(
                    GenerationEventModel::ReasoningDelta {
                        content_index: open.content_index,
                        id: open.id,
                        delta: text,
                    },
                ),
            )
        },
        None => (state, events),
    }
}

/// Arrays of details are put together; anything else replaces what was there.
pub open spec fn merged_details(current: Option<JsonModel>, next: JsonModel) -> JsonModel {
    match (current, next) {
        (Some(JsonModel::Array(before)), JsonModel::Array(more)) => JsonModel::Array(before + more),
        _ => next,
    }
}

#[verifier::opaque]
pub open spec fn details_part(state: ChatModel, delta: JsonModel) -> ChatModel {
    match delta.get("reasoning_details"@) {
        Some(details) => if details is Null {
            state
        } else {
            ChatModel {
                reasoning_details: Some(merged_details(state.reasoning_details, details)),
                ..state
            }
        },
        None => state,
    }
}

/// A string member of a tool call that may be left out, and may be null where that is allowed.
#[verifier::opaque]
pub open spec fn tool_string(value: JsonModel, field: Seq<char>, allow_null: bool) -> Result<
    Option<Seq<char>>,
    GatewayErrorModel,
> {
    match value.get(field) {
        None => Ok(None),
        Some(JsonModel::Str(text)) => Ok(Some(text)),
        Some(JsonModel::Null) => if allow_null {
            Ok(None)
        } else {
            Err(protocol_error("tool "@ + field + " must not be null"@))
        },
        Some(_) => Err(protocol_error("tool "@ + field + " must be a string"@)),
    }
}

pub open spec fn no_tool() -> ToolModel {
    ToolModel {
        content_index: None,
        id: Seq::empty(),
        name: Seq::empty(),
        arguments: Seq::empty(),
        started: false,
    }
}

pub open spec fn tool_at(state: ChatModel, index: usize) -> ToolModel {
    match find(state.tools, index) {
        Some(tool) => tool,
        None => no_tool(),
    }
}

/// The tool call that a fragment belongs to: by its index, or by its identifier, or by its
/// position in the frame. An identifier that is new gets the next free index.
#[verifier::opaque]
pub open spec fn tool_index(
    state: ChatModel,
    raw: JsonModel,
    id: Option<Seq<char>>,
    position: usize,
) -> (ChatModel, usize) {
    match raw.u64_at("index"@) {
        Some(n) => {
            let index = n as usize;
            (
                ChatModel {
                    next_tool_index: if next_index(index) > state.next_tool_index {
                        next_index(index)
                    } else {
                        state.next_tool_index
                    },
                    ..state
                },
                index,
            )
        },
        None => match id {
            Some(id) => match index_named(state.tool_indices_by_id, id) {
                Some(index) => (state, index),
                None => (
                    ChatModel {
                        next_tool_index: next_index(state.next_tool_index),
                        tool_indices_by_id: with_name(
                            state.tool_indices_by_id,
                            id,
                            state.next_tool_index,
                        ),
                        ..state
                    },
                    state.next_tool_index,
                ),
            },
            None => (state, position),
        },
    }
}

/// The arguments in a fragment: a string, or an object where that is allowed, or null where that
/// is allowed.
pub open spec fn argument_fragment(
    arguments: JsonModel,
    compatibility: CompatibilityProfile,
) -> Result<Seq<char>, GatewayErrorModel> {
    match arguments {
        JsonModel::Str(text) => Ok(text),
        JsonModel::Object(_) => if compatibility.allow_object_tool_arguments {
            Ok(json_text(arguments))
        } else {
            Err(protocol_error("tool arguments must be a string or configured object"@))
        },
        JsonModel::Null => if compatibility.allow_nullable_tool_fields {
            Ok(Seq::empty())
        } else {
            Err(protocol_error("tool arguments must be a string or configured object"@))
        },
        _ => Err(protocol_error("tool arguments must be a string or configured object"@)),
    }
}

pub open spec fn with_tool(state: ChatModel, index: usize, tool: ToolModel) -> ChatModel {
    ChatModel { tools: put(state.tools, index, tool), ..state }
}

/// The tool call that a fragment belongs to, with the identifier of the fragment.
#[verifier::opaque]
pub open spec fn identified_tool(
    state: ChatModel,
    raw: JsonModel,
    id: Option<Seq<char>>,
    position: usize,
) -> (ChatModel, usize, ToolModel) {
    let (indexed, index) = tool_index(state, raw, id, position);
    let tool = tool_at(indexed, index);
    match id {
        Some(id) => (
            ChatModel {
                tool_indices_by_id: with_name(indexed.tool_indices_by_id, id, index),
                ..indexed
            },
            index,
            ToolModel { id, ..tool },
        ),
        None => (indexed, index, tool),
    }
}

/// The tool call with a name, where it had none.
#[verifier::opaque]
pub open spec fn named_tool(tool: ToolModel, name: Option<Seq<char>>) -> ToolModel {
    match name {
        Some(name) => if tool.name.len() == 0 {
            ToolModel { name, ..tool }
        } else {
            tool
        },
        None => tool,
    }
}

/// One fragment of a tool call.
#[verifier::opaque]
pub open spec fn accumulate_tool(
    state: ChatModel,
    raw: JsonModel,
    position: usize,
    events: Seq<GenerationEventModel>,
) -> ChatStep {
    let allow_null = state.compatibility.allow_nullable_tool_fields;
    let function = match raw.get("function"@) {
        Some(function) => function,
        None => JsonModel::Null,
    };
    match tool_string(raw, "id"@, allow_null) {
        Err(error) => ChatStep { state, events, error: Some(error) },
        Ok(id) => {
            let (next, index, tool) = identified_tool(state, raw, id, position);
            match tool_string(function, "name"@, allow_null) {
                Err(error) => ChatStep {
                    state: with_tool(next, index, tool),
                    events,
                    error: Some(error),
                },
                Ok(name) => tool_arguments(next, index, named_tool(tool, name), function, events),
            }
        },
    }
}

/// Starts a tool call that has not started.
#[verifier::opaque]
pub open spec fn start_tool(
    state: ChatModel,
    index: usize,
    tool: ToolModel,
    events: Seq<GenerationEventModel>,
) -> (ChatModel, ToolModel, Seq<GenerationEventModel>) {
    if tool.started {
        (state, tool, events)
    } else {
        (
            ChatModel { next_content_index: next_index(state.next_content_index), ..state },
            ToolModel { started: true, content_index: Some(state.next_content_index), ..tool },
            events.push(
                GenerationEventModel::ToolCallStarted {
                    content_index: state.next_content_index,
                    index,
                    id: call_name(tool.id, index),
                    name: tool.name,
                },
            ),
        )
    }
}

/// Adds the arguments of a fragment to its tool call.
#[verifier::opaque]
pub open spec fn tool_arguments(
    state: ChatModel,
    index: usize,
    tool: ToolModel,
    function: JsonModel,
    events: Seq<GenerationEventModel>,
) -> ChatStep {
    let (next, running, reported) = start_tool(state, index, tool, events);
    match function.get("arguments"@) {
        None => ChatStep {
            state: with_tool(next, index, running),
            events: reported,
            error: None,
        },
        Some(arguments) => match argument_fragment(arguments, state.compatibility) {
            Err(error) => ChatStep {
                state: with_tool(next, index, running),
                events: reported,
                error: Some(error),
            },
            Ok(fragment) => {
                let extended = ToolModel { arguments: running.arguments + fragment, ..running };
                let kept = with_tool(next, index, extended);
                if fragment.len() == 0 {
                    ChatStep { state: kept, events: reported, error: None }
                } else {
                    match extended.content_index {
                        Some(content_index) => ChatStep {
                            state: kept,
                            events: reported.push(
                                GenerationEventModel::ToolCallDelta {
                                    content_index,
                                    index,
                                    delta: fragment,
                                },
                            ),
                            error: None,
                        },
                        None => ChatStep {
                            state: kept,
                            events: reported,
                            error: Some(
                                protocol_error("started tool call is missing its content index"@),
                            ),
                        },
                    }
                }
            },
        },
    }
}

/// The fragments of tool calls from position `start` on.
pub open spec fn accumulate_tools(
    state: ChatModel,
    calls: Seq<JsonModel>,
    start: int,
    events: Seq<GenerationEventModel>,
) -> ChatStep
    decreases calls.len() - start,
{
    if start < 0 || start >= calls.len() {
        ChatStep { state, events, error: None }
    } else {
        let step = accumulate_tool(state, calls[start], start as usize, events);
        if step.error.is_some() {
            step
        } else {
            accumulate_tools(step.state, calls, start + 1, step.events)
        }
    }
}

/// The tool calls of a delta. They end what is open.
#[verifier::opaque]
pub open spec fn tools_part(
    state: ChatModel,
    delta: JsonModel,
    events: Seq<GenerationEventModel>,
) -> ChatStep {
    match delta.array_at("tool_calls"@) {
        Some(calls) => if calls.len() == 0 {
            ChatStep { state, events, error: None }
        } else {
            let (closed, reported) = finish_open_content(state, events);
            accumulate_tools(closed, calls, 0, reported)
        },
        None => ChatStep { state, events, error: None },
    }
}

pub open spec fn tool_finished(index: usize, tool: ToolModel, content_index: usize) -> GenerationEventModel {
    GenerationEventModel::ToolCallFinished {
        content_index,
        index,
        tool_call: ToolCallModel {
            id: call_name(tool.id, index),
            name: tool.name,
            arguments: arguments_of(tool.arguments),
            raw_arguments: tool.arguments,
            provider_metadata: no_metadata(),
        },
    }
}

/// Reports the tool calls from position `start` on as finished.
pub open spec fn finish_tools(
    tools: Seq<(usize, ToolModel)>,
    start: int,
    events: Seq<GenerationEventModel>,
) -> (Seq<GenerationEventModel>, Option<GatewayErrorModel>)
    decreases tools.len() - start,
{
    if start < 0 || start >= tools.len() {
        (events, None)
    } else {
        match tools[start].1.content_index {
            Some(content_index) => finish_tools(
                tools,
                start + 1,
                events.push(tool_finished(tools[start].0, tools[start].1, content_index)),
            ),
            None => (
                events,
                Some(protocol_error("finished tool call is missing its content index"@)),
            ),
        }
    }
}

#[verifier::opaque]
pub open spec fn finish_parts(state: ChatModel, events: Seq<GenerationEventModel>) -> ChatStep {
    let (closed, reported) = finish_open_content(state, events);
    let (all, error) = finish_tools(closed.tools, 0, reported);
    ChatStep { state: closed, events: all, error }
}

pub open spec fn finish_reason_of(reason: Seq<char>) -> FinishReasonModel {
    if reason == "stop"@ {
        FinishReasonModel::Stop
    } else if reason == "length"@ {
        FinishReasonModel::Length
    } else if reason == "tool_calls"@ || reason == "function_call"@ {
        FinishReasonModel::ToolCalls
    } else if reason == "content_filter"@ {
        FinishReasonModel::ContentFilter
    } else {
        FinishReasonModel::Other(reason)
    }
}

/// The usage in a Chat Completions object. Input that was served from or written to a cache is
/// counted apart from the rest of the input.
#[verifier::opaque]
pub open spec fn chat_usage(value: JsonModel) -> Usage {
    let total_input = count_or_zero(value.u64_at("prompt_tokens"@));
    let output = count_or_zero(value.u64_at("completion_tokens"@));
    let cache_read = match value.u64_at2("prompt_tokens_details"@, "cached_tokens"@) {
        Some(n) => n,
        None => count_or_zero(value.u64_at("prompt_cache_hit_tokens"@)),
    };
    let cache_write = count_or_zero(
        value.u64_at2("prompt_tokens_details"@, "cache_write_tokens"@),
    );
    Usage {
        provenance: UsageProvenance::Reported,
        input_tokens: saturating_difference(total_input, saturating_sum(cache_read, cache_write)),
        cache_read_tokens: cache_read,
        cache_write_tokens: cache_write,
        output_tokens: output,
        reasoning_tokens: count_or_zero(
            value.u64_at2("completion_tokens_details"@, "reasoning_tokens"@),
        ),
        total_tokens: match value.u64_at("total_tokens"@) {
            Some(n) => n,
            None => saturating_sum(total_input, output),
        },
    }
}

pub open spec fn provider_error_of(error: JsonModel) -> GatewayErrorModel {
    provider_failure("provider rejected the request"@, allowed_code(error.get("code"@)))
}

/// The identity of the response and its usage, as far as the frame tells them. The first frame
/// starts the stream.
#[verifier::opaque]
pub open spec fn frame_head(state: ChatModel, value: JsonModel) -> (
    ChatModel,
    Seq<GenerationEventModel>,
) {
    let identified = ChatModel {
        response_id: match value.str_at("id"@) {
            Some(id) => Some(id),
            None => state.response_id,
        },
        upstream_model: match value.str_at("model"@) {
            Some(model) => Some(model),
            None => state.upstream_model,
        },
        started: true,
        ..state
    };
    let reported = if state.started {
        Seq::empty()
    } else {
        seq![
            GenerationEventModel::Started(
                StreamMetadataModel {
                    response_id: identified.response_id,
                    upstream_model: identified.upstream_model,
                },
            ),
        ]
    };
    match value.get("usage"@) {
        Some(usage) => if usage is Object {
            (
                ChatModel { usage: chat_usage(usage), ..identified },
                reported.push(GenerationEventModel::UsageUpdated(chat_usage(usage))),
            )
        } else {
            (identified, reported)
        },
        None => (identified, reported),
    }
}

/// What a delta does.
#[verifier::opaque]
pub open spec fn apply_delta(
    state: ChatModel,
    delta: JsonModel,
    events: Seq<GenerationEventModel>,
) -> ChatStep {
    let (after_text, with_text) = text_part(state, delta, events);
    let (after_reasoning, with_reasoning) = reasoning_part(after_text, delta, with_text);
    tools_part(details_part(after_reasoning, delta), delta, with_reasoning)
}

/// What a choice does: its delta, and then its finish reason.
#[verifier::opaque]
pub open spec fn apply_choice(
    state: ChatModel,
    choice: JsonModel,
    events: Seq<GenerationEventModel>,
) -> ChatStep {
    let step = match choice.get("delta"@) {
        Some(delta) => apply_delta(state, delta, events),
        None => ChatStep { state, events, error: None },
    };
    if step.error.is_some() {
        step
    } else {
        match choice.str_at("finish_reason"@) {
            Some(reason) => finish_parts(
                ChatModel { finish_reason: Some(finish_reason_of(reason)), ..step.state },
                step.events,
            ),
            None => step,
        }
    }
}

/// The first choice of a frame; the others do not count.
pub open spec fn first_choice(value: JsonModel) -> Option<JsonModel> {
    match value.array_at("choices"@) {
        Some(choices) => if choices.len() > 0 {
            Some(choices[0])
        } else {
            None
        },
        None => None,
    }
}

/// Ends the session with its finish reason, unless it has ended or has none.
#[verifier::opaque]
pub open spec fn take_terminal(state: ChatModel) -> (ChatModel, Option<ProtocolTerminalModel>) {
    match state.finish_reason {
        Some(finish_reason) => if state.terminal {
            (state, None)
        } else {
            (
                ChatModel { terminal: true, ..state },
                Some(
                    ProtocolTerminalModel {
                        status: ProtocolTerminalStatus::Completed,
                        finish_reason,
                        usage: state.usage,
                        response_id: state.response_id,
                        upstream_model: state.upstream_model,
                        provider_metadata: match replay_metadata(state) {
                            Some(metadata) => metadata,
                            None => no_metadata(),
                        },
                        error: None,
                    },
                ),
            )
        },
        None => (state, None),
    }
}

/// A frame that holds JSON.
pub open spec fn ingest_value(state: ChatModel, value: JsonModel, data: Seq<char>) -> ChatIngested {
    match value.get("error"@) {
        Some(error) => ChatIngested {
            state,
            result: Err(with_body(provider_error_of(error), data)),
        },
        None => {
            let (head, events) = frame_head(state, value);
            let step = match first_choice(value) {
                Some(choice) => apply_choice(head, choice, events),
                None => ChatStep { state: head, events, error: None },
            };
            match step.error {
                Some(error) => ChatIngested { state: step.state, result: Err(error) },
                None => if step.state.done {
                    let (last, terminal) = take_terminal(step.state);
                    ChatIngested {
                        state: last,
                        result: Ok(ProtocolUpdateModel { events: step.events, terminal }),
                    }
                } else {
                    ChatIngested {
                        state: step.state,
                        result: Ok(ProtocolUpdateModel { events: step.events, terminal: None }),
                    }
                },
            }
        },
    }
}

/// One frame of a stream. The frame `[DONE]` ends a stream whose finish reason is known.
pub open spec fn ingest(state: ChatModel, data: Seq<char>) -> ChatIngested {
    if data == "[DONE]"@ {
        let (last, terminal) = take_terminal(ChatModel { done: true, ..state });
        ChatIngested {
            state: last,
            result: Ok(ProtocolUpdateModel { events: Seq::empty(), terminal }),
        }
    } else if state.terminal {
        ChatIngested {
            state,
            result: Err(protocol_error("chat stream emitted data after terminal event"@)),
        }
    } else {
        match parsed_json(data) {
            None => ChatIngested {
                state,
                result: Err(protocol_error("invalid Chat Completions stream JSON"@)),
            },
            Some(value) => ingest_value(state, value, data),
        }
    }
}

/// The end of a stream: the terminal that is due, or the error that none is.
pub open spec fn finish_eof(state: ChatModel) -> (
    ChatModel,
    Result<Option<ProtocolTerminalModel>, GatewayErrorModel>,
) {
    if state.terminal {
        (state, Ok(None))
    } else if state.finish_reason.is_some() {
        let (last, terminal) = take_terminal(state);
        (last, Ok(terminal))
    } else {
        (
            state,
            Err(
                protocol_error("Chat Completions stream ended without a valid finish reason"@),
            ),
        )
    }
}

} // verus!
