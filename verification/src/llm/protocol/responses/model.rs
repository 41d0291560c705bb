//! What a Responses stream does to the state of its session, and what it reports.

use vstd::prelude::*;

use crate::json::{parsed_json, JsonModel};
use crate::llm::error::{
    allowed_token, protocol_error, provider_failure, with_body, GatewayErrorModel,
};
use crate::llm::event::{FinishReasonModel, GenerationEventModel, StreamMetadataModel};
use crate::llm::model::{
    no_responses_replay, no_usage, ProviderMetadataModel, ReasoningContentModel,
    ResponsesReplayMetadataModel, ToolCallModel, Usage,
};
use crate::llm::protocol::responses::wire::{
    call_name, event_kind, failure_of, index_of, item_kind, needs_output_index, responses_usage,
    string_or_empty, text_fields, unless_empty, EventKind, OutputKind,
};
use crate::llm::protocol::{
    CompatibilityProfile, ProtocolTerminalModel, ProtocolTerminalStatus, ProtocolUpdateModel,
};
use crate::ordered::{find, put, without};
use crate::text::{decimal_digits, join_texts, without_prefix};

verus! {

/// A function call while its arguments arrive.
pub struct FunctionModel {
    pub item_id: Seq<char>,
    pub call_id: Seq<char>,
    pub name: Seq<char>,
    pub arguments: Seq<char>,
    pub started: bool,
}

/// The state of a session. Everything about an output item is found by its index.
pub struct ResponsesModel {
    pub compatibility: CompatibilityProfile,
    pub started: bool,
    pub terminal: bool,
    pub response_id: Option<Seq<char>>,
    pub upstream_model: Option<Seq<char>>,
    pub usage: Usage,
    pub functions: Seq<(usize, FunctionModel)>,
    pub finished_function_arguments: Set<usize>,
    pub finished_functions: Set<usize>,
    pub output_kinds: Seq<(usize, OutputKind)>,
    pub finished_outputs: Set<usize>,
    pub open_text: Seq<(usize, Seq<char>)>,
    pub text_buffers: Seq<(usize, Seq<char>)>,
    pub finished_text: Set<usize>,
    pub open_reasoning: Seq<(usize, Seq<char>)>,
    pub reasoning_buffers: Seq<(usize, Seq<char>)>,
    pub finished_reasoning: Set<usize>,
    pub reasoning_replay: Seq<(usize, ResponsesReplayMetadataModel)>,
}

/// The session before its stream begins.
pub open spec fn fresh(compatibility: CompatibilityProfile) -> ResponsesModel {
    ResponsesModel {
        compatibility,
        started: false,
        terminal: false,
        response_id: None,
        upstream_model: None,
        usage: no_usage(),
        functions: Seq::empty(),
        finished_function_arguments: Set::empty(),
        finished_functions: Set::empty(),
        output_kinds: Seq::empty(),
        finished_outputs: Set::empty(),
        open_text: Seq::empty(),
        text_buffers: Seq::empty(),
        finished_text: Set::empty(),
        open_reasoning: Seq::empty(),
        reasoning_buffers: Seq::empty(),
        finished_reasoning: Set::empty(),
        reasoning_replay: Seq::empty(),
    }
}

/// The state after a piece of an event, the events reported so far, and the error that cut the
/// piece short.
pub struct Step {
    pub state: ResponsesModel,
    pub events: Seq<GenerationEventModel>,
    pub error: Option<GatewayErrorModel>,
}

pub open spec fn done(state: ResponsesModel, events: Seq<GenerationEventModel>) -> Step {
    Step { state, events, error: None }
}

pub open spec fn refused(
    state: ResponsesModel,
    events: Seq<GenerationEventModel>,
    message: Seq<char>,
) -> Step {
    Step { state, events, error: Some(protocol_error(message)) }
}

/// The identifier of the text block of an output item.
pub open spec fn text_id(index: usize) -> Seq<char> {
    "text-"@ + decimal_digits(index as nat) + "-0"@
}

/// The identifier of the reasoning block of an output item.
pub open spec fn reasoning_id(index: usize) -> Seq<char> {
    "reasoning-"@ + decimal_digits(index as nat) + "-0"@
}

pub open spec fn no_function() -> FunctionModel {
    FunctionModel {
        item_id: Seq::empty(),
        call_id: Seq::empty(),
        name: Seq::empty(),
        arguments: Seq::empty(),
        started: false,
    }
}

/// The call collected for an output item so far.
pub open spec fn function_at(state: ResponsesModel, index: usize) -> FunctionModel {
    match find(state.functions, index) {
        Some(function) => function,
        None => no_function(),
    }
}

/// The text of a buffer, which is empty until something is put there.
pub open spec fn buffer_at(buffers: Seq<(usize, Seq<char>)>, index: usize) -> Seq<char> {
    match find(buffers, index) {
        Some(text) => text,
        None => Seq::empty(),
    }
}

/// The identity of the response, as far as the event tells it.
#[verifier::opaque]
pub open spec fn capture_response(state: ResponsesModel, value: JsonModel) -> ResponsesModel {
    let response = match value.get("response"@) {
        Some(response) => response,
        None => value,
    };
    ResponsesModel {
        response_id: match response.str_at("id"@) {
            Some(id) => Some(id),
            None => state.response_id,
        },
        upstream_model: match response.str_at("model"@) {
            Some(model) => Some(model),
            None => state.upstream_model,
        },
        ..state
    }
}

pub open spec fn responses_metadata(
    responses: ResponsesReplayMetadataModel,
) -> ProviderMetadataModel {
    ProviderMetadataModel { chat: None, responses: Some(responses) }
}

/// What a later request needs of the reasoning of an output item.
pub open spec fn reasoning_metadata(state: ResponsesModel, index: usize) -> Option<
    ProviderMetadataModel,
> {
    match find(state.reasoning_replay, index) {
        Some(metadata) => Some(responses_metadata(metadata)),
        None => None,
    }
}

/// Ends the reasoning of an output item, unless it has ended. Reasoning that was only ever
/// delivered encrypted starts and ends at once.
#[verifier::opaque]
pub open spec fn finish_reasoning(
    state: ResponsesModel,
    index: usize,
    events: Seq<GenerationEventModel>,
) -> (ResponsesModel, Seq<GenerationEventModel>) {
    let replay = reasoning_metadata(state, index);
    let encrypted = match find(state.reasoning_replay, index) {
        Some(metadata) => metadata.encrypted_reasoning.is_some(),
        None => false,
    };
    if state.finished_reasoning.contains(index) {
        (state, events)
    } else {
        match find(state.open_reasoning, index) {
            Some(id) => (
                ResponsesModel {
                    open_reasoning: without(state.open_reasoning, index),
                    finished_reasoning: state.finished_reasoning.insert(index),
                    ..state
                },
                events.push(
                    GenerationEventModel::ReasoningFinished { content_index: index, id, replay },
                ),
            ),
            None => if encrypted {
                (
                    ResponsesModel {
                        finished_reasoning: state.finished_reasoning.insert(index),
                        ..state
                    },
                    events.push(
                        GenerationEventModel::ReasoningStarted {
                            content_index: index,
                            id: reasoning_id(index),
                        },
                    ).push(
                        GenerationEventModel::ReasoningFinished {
                            content_index: index,
                            id: reasoning_id(index),
                            replay,
                        },
                    ),
                )
            } else {
                (state, events)
            },
        }
    }
}

/// The keys from position `start` on, but for `except`.
pub open spec fn keys_except(
    entries: Seq<(usize, Seq<char>)>,
    except: usize,
    start: int,
) -> Seq<usize>
    decreases entries.len() - start,
{
    if start < 0 || start >= entries.len() {
        Seq::empty()
    } else if entries[start].0 == except {
        keys_except(entries, except, start + 1)
    } else {
        seq![entries[start].0] + keys_except(entries, except, start + 1)
    }
}

/// Ends the reasoning of each of the output items, in order.
pub open spec fn finish_each(
    state: ResponsesModel,
    indices: Seq<usize>,
    start: int,
    events: Seq<GenerationEventModel>,
) -> (ResponsesModel, Seq<GenerationEventModel>)
    decreases indices.len() - start,
{
    if start < 0 || start >= indices.len() {
        (state, events)
    } else {
        let (next, reported) = finish_reasoning(state, indices[start], events);
        finish_each(next, indices, start + 1, reported)
    }
}

/// Ends all open reasoning but that of one output item.
#[verifier::opaque]
pub open spec fn finish_other_reasoning(
    state: ResponsesModel,
    index: usize,
    events: Seq<GenerationEventModel>,
) -> (ResponsesModel, Seq<GenerationEventModel>) {
    finish_each(state, keys_except(state.open_reasoning, index, 0), 0, events)
}

/// What an item says of the reasoning it stands for.
pub open spec fn updated_replay(
    metadata: ResponsesReplayMetadataModel,
    item: JsonModel,
) -> ResponsesReplayMetadataModel {
    ResponsesReplayMetadataModel {
        item_id: match unless_empty(string_or_empty(item, "id"@)) {
            Some(id) => Some(id),
            None => metadata.item_id,
        },
        encrypted_reasoning: match unless_empty(string_or_empty(item, "encrypted_content"@)) {
            Some(encrypted) => Some(encrypted),
            None => metadata.encrypted_reasoning,
        },
        ..metadata
    }
}

pub open spec fn replay_at(state: ResponsesModel, index: usize) -> ResponsesReplayMetadataModel {
    match find(state.reasoning_replay, index) {
        Some(metadata) => metadata,
        None => no_responses_replay(),
    }
}

#[verifier::opaque]
pub open spec fn capture_reasoning_replay(
    state: ResponsesModel,
    index: usize,
    item: JsonModel,
) -> ResponsesModel {
    ResponsesModel {
        reasoning_replay: put(
            state.reasoning_replay,
            index,
            updated_replay(replay_at(state, index), item),
        ),
        ..state
    }
}

/// An output item begins. Reasoning that is still open elsewhere ends, so that what follows is
/// not taken for a part of it.
#[verifier::opaque]
pub open spec fn item_added(
    state: ResponsesModel,
    value: JsonModel,
    events: Seq<GenerationEventModel>,
) -> Step {
    let index = index_of(value);
    match value.get("item"@) {
        None => refused(state, events, "output item added without item"@),
        Some(item) => {
            let kind = item_kind(item);
            let known = ResponsesModel {
                output_kinds: put(state.output_kinds, index, kind),
                ..state
            };
            if find(state.output_kinds, index).is_some() || state.finished_outputs.contains(index) {
                refused(known, events, "Responses output index was added more than once"@)
            } else {
                let (next, reported) = finish_other_reasoning(known, index, events);
                match kind {
                    OutputKind::FunctionCall => {
                        let function = FunctionModel {
                            item_id: string_or_empty(item, "id"@),
                            call_id: string_or_empty(item, "call_id"@),
                            name: string_or_empty(item, "name"@),
                            arguments: string_or_empty(item, "arguments"@),
                            started: true,
                        };
                        done(
                            ResponsesModel {
                                functions: put(next.functions, index, function),
                                ..next
                            },
                            reported.push(function_started(index, function)),
                        )
                    },
                    OutputKind::Reasoning => done(
                        capture_reasoning_replay(next, index, item),
                        reported,
                    ),
                    _ => done(next, reported),
                }
            }
        },
    }
}

pub open spec fn function_started(index: usize, function: FunctionModel) -> GenerationEventModel {
    GenerationEventModel::ToolCallStarted {
        content_index: index,
        index,
        id: call_name(function.call_id, index),
        name: function.name,
    }
}

/// The output item that an event speaks of, which must be open and of the expected kind.
pub open spec fn open_item(state: ResponsesModel, value: JsonModel, expected: OutputKind) -> Result<
    usize,
    GatewayErrorModel,
> {
    let index = index_of(value);
    if state.finished_outputs.contains(index) {
        Err(protocol_error("Responses delta arrived after output item completion"@))
    } else {
        match find(state.output_kinds, index) {
            Some(kind) => if kind == expected {
                Ok(index)
            } else {
                Err(protocol_error("Responses event does not match its output item type"@))
            },
            None => Err(
                protocol_error("Responses delta arrived before output item was added"@),
            ),
        }
    }
}

/// More text of a message.
#[verifier::opaque]
pub open spec fn text_delta(
    state: ResponsesModel,
    value: JsonModel,
    events: Seq<GenerationEventModel>,
) -> Step {
    match open_item(state, value, OutputKind::Message) {
        Err(error) => Step { state, events, error: Some(error) },
        Ok(index) => match value.str_at("delta"@) {
            None => refused(state, events, "Responses text delta is not a string"@),
            Some(delta) => if state.finished_text.contains(index) {
                refused(
                    state,
                    events,
                    "Responses text delta arrived after content completion"@,
                )
            } else {
                let buffered = ResponsesModel {
                    text_buffers: put(
                        state.text_buffers,
                        index,
                        buffer_at(state.text_buffers, index) + delta,
                    ),
                    ..state
                };
                match find(state.open_text, index) {
                    Some(id) => done(
                        buffered,
                        events.push(
                            GenerationEventModel::TextDelta { content_index: index, id, delta },
                        ),
                    ),
                    None => done(
                        ResponsesModel {
                            open_text: put(state.open_text, index, text_id(index)),
                            ..buffered
                        },
                        events.push(
                            GenerationEventModel::TextStarted {
                                content_index: index,
                                id: text_id(index),
                            },
                        ).push(
                            GenerationEventModel::TextDelta {
                                content_index: index,
                                id: text_id(index),
                                delta,
                            },
                        ),
                    ),
                }
            },
        },
    }
}

/// More reasoning of an output item.
#[verifier::opaque]
pub open spec fn reasoning_delta(
    state: ResponsesModel,
    value: JsonModel,
    events: Seq<GenerationEventModel>,
) -> Step {
    match open_item(state, value, OutputKind::Reasoning) {
        Err(error) => Step { state, events, error: Some(error) },
        Ok(index) => match value.str_at("delta"@) {
            None => refused(state, events, "Responses reasoning delta is not a string"@),
            Some(delta) => if state.finished_reasoning.contains(index) {
                refused(
                    state,
                    events,
                    "Responses reasoning delta arrived after reasoning completion"@,
                )
            } else {
                let buffered = ResponsesModel {
                    reasoning_buffers: put(
                        state.reasoning_buffers,
                        index,
                        buffer_at(state.reasoning_buffers, index) + delta,
                    ),
                    ..state
                };
                match find(state.open_reasoning, index) {
                    Some(id) => done(
                        buffered,
                        events.push(
                            GenerationEventModel::ReasoningDelta {
                                content_index: index,
                                id,
                                delta,
                            },
                        ),
                    ),
                    None => done(
                        ResponsesModel {
                            open_reasoning: put(state.open_reasoning, index, reasoning_id(index)),
                            ..buffered
                        },
                        events.push(
                            GenerationEventModel::ReasoningStarted {
                                content_index: index,
                                id: reasoning_id(index),
                            },
                        ).push(
                            GenerationEventModel::ReasoningDelta {
                                content_index: index,
                                id: reasoning_id(index),
                                delta,
                            },
                        ),
                    ),
                }
            },
        },
    }
}

/// A part of a reasoning summary ends: an empty line sets it off from the next.
#[verifier::opaque]
pub open spec fn summary_part_done(
    state: ResponsesModel,
    value: JsonModel,
    events: Seq<GenerationEventModel>,
) -> Step {
    match open_item(state, value, OutputKind::Reasoning) {
        Err(error) => Step { state, events, error: Some(error) },
        Ok(index) => match find(state.open_reasoning, index) {
            None => done(state, events),
            Some(id) => done(
                ResponsesModel {
                    reasoning_buffers: put(
                        state.reasoning_buffers,
                        index,
                        buffer_at(state.reasoning_buffers, index) + "\n\n"@,
                    ),
                    ..state
                },
                events.push(
                    GenerationEventModel::ReasoningDelta {
                        content_index: index,
                        id,
                        delta: "\n\n"@,
                    },
                ),
            ),
        },
    }
}

/// Why an event that needs an open item of the expected kind is refused.
pub open spec fn item_refusal(state: ResponsesModel, value: JsonModel, expected: OutputKind) -> Option<
    GatewayErrorModel,
> {
    match open_item(state, value, expected) {
        Err(error) => Some(error),
        Ok(_) => None,
    }
}

/// Why the end of a message part is refused. Its text, where given, is a string; it counts when
/// the item ends.
pub open spec fn text_refusal(state: ResponsesModel, value: JsonModel, field: Seq<char>) -> Option<
    GatewayErrorModel,
> {
    match open_item(state, value, OutputKind::Message) {
        Err(error) => Some(error),
        Ok(_) => match value.get(field) {
            Some(text) => if text is Str {
                None
            } else {
                Some(protocol_error("Responses completed text is not a string"@))
            },
            None => None,
        },
    }
}

/// More arguments of a function call.
#[verifier::opaque]
pub open spec fn function_delta(
    state: ResponsesModel,
    value: JsonModel,
    events: Seq<GenerationEventModel>,
) -> Step {
    match open_item(state, value, OutputKind::FunctionCall) {
        Err(error) => Step { state, events, error: Some(error) },
        Ok(index) => if state.finished_function_arguments.contains(index) {
            refused(
                state,
                events,
                "function arguments delta arrived after function completion"@,
            )
        } else {
            let function = function_at(state, index);
            let running = FunctionModel { started: true, ..function };
            let reported = if function.started {
                events
            } else {
                events.push(function_started(index, function))
            };
            match value.str_at("delta"@) {
                None => refused(
                    ResponsesModel { functions: put(state.functions, index, running), ..state },
                    reported,
                    "function arguments delta is not a string"@,
                ),
                Some(delta) => done(
                    ResponsesModel {
                        functions: put(
                            state.functions,
                            index,
                            FunctionModel { arguments: function.arguments + delta, ..running },
                        ),
                        ..state
                    },
                    reported.push(
                        GenerationEventModel::ToolCallDelta { content_index: index, index, delta },
                    ),
                ),
            }
        },
    }
}

/// The arguments of a function call are complete.
#[verifier::opaque]
pub open spec fn function_done(state: ResponsesModel, value: JsonModel) -> (
    ResponsesModel,
    Option<GatewayErrorModel>,
) {
    match open_item(state, value, OutputKind::FunctionCall) {
        Err(error) => (state, Some(error)),
        Ok(index) => if state.finished_function_arguments.contains(index) {
            (state, Some(protocol_error("function arguments completed more than once"@)))
        } else {
            match value.str_at("arguments"@) {
                None => (
                    state,
                    Some(protocol_error("function arguments done value is not a string"@)),
                ),
                Some(arguments) => (
                    ResponsesModel {
                        functions: put(
                            state.functions,
                            index,
                            FunctionModel { arguments, ..function_at(state, index) },
                        ),
                        finished_function_arguments: state.finished_function_arguments.insert(
                            index,
                        ),
                        ..state
                    },
                    None,
                ),
            }
        },
    }
}

/// The value that a call's arguments are read as: that of their JSON, or else the text itself.
pub open spec fn arguments_of(raw: Seq<char>) -> JsonModel {
    match parsed_json(raw) {
        Some(value) => value,
        None => JsonModel::Str(raw),
    }
}

pub open spec fn finished_call(index: usize, function: FunctionModel) -> ToolCallModel {
    ToolCallModel {
        id: call_name(function.call_id, index),
        name: function.name,
        arguments: arguments_of(function.arguments),
        raw_arguments: function.arguments,
        provider_metadata: responses_metadata(
            ResponsesReplayMetadataModel {
                item_id: unless_empty(function.item_id),
                call_id: unless_empty(function.call_id),
                ..no_responses_replay()
            },
        ),
    }
}

/// The call as its finished item gives it: what is still unknown is filled in, and the arguments
/// of the item count.
pub open spec fn completed_function(function: FunctionModel, item: JsonModel) -> FunctionModel {
    FunctionModel {
        item_id: if function.item_id.len() == 0 {
            string_or_empty(item, "id"@)
        } else {
            function.item_id
        },
        call_id: if function.call_id.len() == 0 {
            string_or_empty(item, "call_id"@)
        } else {
            function.call_id
        },
        name: if function.name.len() == 0 {
            string_or_empty(item, "name"@)
        } else {
            function.name
        },
        arguments: match item.str_at("arguments"@) {
            Some(arguments) => arguments,
            None => function.arguments,
        },
        started: function.started,
    }
}

/// Reports a complete call and forgets what was collected for it.
pub open spec fn emit_function(
    state: ResponsesModel,
    index: usize,
    function: FunctionModel,
    events: Seq<GenerationEventModel>,
) -> (ResponsesModel, Seq<GenerationEventModel>) {
    let reported = if function.started {
        events
    } else {
        events.push(function_started(index, function))
    };
    (
        ResponsesModel {
            functions: without(state.functions, index),
            finished_functions: state.finished_functions.insert(index),
            ..state
        },
        reported.push(
            GenerationEventModel::ToolCallFinished {
                content_index: index,
                index,
                tool_call: finished_call(index, function),
            },
        ),
    )
}

pub open spec fn snapshot_updated(
    state: ResponsesModel,
    index: usize,
    display: Seq<char>,
) -> GenerationEventModel {
    GenerationEventModel::ReasoningSnapshotUpdated {
        content_index: index,
        id: reasoning_id(index),
        reasoning: ReasoningContentModel { display, replay: reasoning_metadata(state, index) },
    }
}

/// The text of a reasoning item: its summary, or else its content, or else nothing.
pub open spec fn authoritative_text(item: JsonModel) -> Option<Seq<char>> {
    let summary = match item.array_at("summary"@) {
        Some(parts) => join_texts(text_fields(parts, "text"@), "\n\n"@),
        None => Seq::empty(),
    };
    let content = match item.array_at("content"@) {
        Some(parts) => join_texts(text_fields(parts, "text"@), "\n\n"@),
        None => Seq::empty(),
    };
    if summary.len() > 0 {
        Some(summary)
    } else {
        unless_empty(content)
    }
}

/// A complete reasoning item.
///
/// Where its text goes on from what was streamed, the rest is delivered and the block ends. Where
/// it differs, or the block has ended before, the block stays closed and its content is replaced.
pub open spec fn capture_reasoning_item(
    state: ResponsesModel,
    index: usize,
    item: JsonModel,
    events: Seq<GenerationEventModel>,
) -> (ResponsesModel, Seq<GenerationEventModel>) {
    let captured = capture_reasoning_replay(state, index, item);
    let replay_changed = updated_replay(replay_at(state, index), item) != replay_at(state, index);
    let authoritative = authoritative_text(item);
    let streamed = buffer_at(state.reasoning_buffers, index);
    let display_changed = authoritative.is_some() && authoritative != Some(streamed);
    let shown = match authoritative {
        Some(text) => text,
        None => streamed,
    };
    if state.finished_reasoning.contains(index) {
        let next = if display_changed {
            ResponsesModel {
                reasoning_buffers: put(captured.reasoning_buffers, index, shown),
                ..captured
            }
        } else {
            captured
        };
        if display_changed || replay_changed {
            (next, events.push(snapshot_updated(next, index, shown)))
        } else {
            (next, events)
        }
    } else if display_changed && streamed.is_prefix_of(shown) {
        let id = match find(state.open_reasoning, index) {
            Some(id) => id,
            None => reasoning_id(index),
        };
        let opened = if find(state.open_reasoning, index).is_some() {
            events
        } else {
            events.push(GenerationEventModel::ReasoningStarted { content_index: index, id })
        };
        let extended = ResponsesModel {
            open_reasoning: if find(state.open_reasoning, index).is_some() {
                state.open_reasoning
            } else {
                put(state.open_reasoning, index, id)
            },
            reasoning_buffers: put(state.reasoning_buffers, index, shown),
            ..captured
        };
        finish_reasoning(
            extended,
            index,
            opened.push(
                GenerationEventModel::ReasoningDelta {
                    content_index: index,
                    id,
                    delta: shown.skip(streamed.len() as int),
                },
            ),
        )
    } else {
        let (closed, reported) = finish_reasoning(captured, index, events);
        if display_changed {
            let next = ResponsesModel {
                reasoning_buffers: put(closed.reasoning_buffers, index, shown),
                ..closed
            };
            if next.finished_reasoning.contains(index) {
                (next, reported.push(snapshot_updated(next, index, shown)))
            } else {
                (next, reported)
            }
        } else {
            (closed, reported)
        }
    }
}

/// The text of a message: its text and refusal parts put together. Other parts do not count.
pub open spec fn message_text(parts: Seq<JsonModel>, start: int, text: Seq<char>) -> Result<
    Seq<char>,
    GatewayErrorModel,
>
    decreases parts.len() - start,
{
    if start < 0 || start >= parts.len() {
        Ok(text)
    } else {
        let part = parts[start];
        if part.str_at("type"@) == Some("output_text"@) {
            match part.str_at("text"@) {
                Some(more) => message_text(parts, start + 1, text + more),
                None => Err(protocol_error("Responses output text is not a string"@)),
            }
        } else if part.str_at("type"@) == Some("refusal"@) {
            match part.str_at("refusal"@) {
                Some(more) => message_text(parts, start + 1, text + more),
                None => Err(protocol_error("Responses refusal is not a string"@)),
            }
        } else {
            message_text(parts, start + 1, text)
        }
    }
}

/// The complete text of a message. It must begin with what was streamed of it.
pub open spec fn capture_text(
    state: ResponsesModel,
    index: usize,
    text: Seq<char>,
    replay: Option<ProviderMetadataModel>,
    events: Seq<GenerationEventModel>,
) -> Step {
    let streamed = buffer_at(state.text_buffers, index);
    let touched = ResponsesModel {
        text_buffers: put(state.text_buffers, index, streamed),
        ..state
    };
    match without_prefix(text, streamed) {
        None => refused(touched, events, "Responses final message does not match streamed text"@),
        Some(suffix) => {
            let opened = if streamed.len() == 0 && text.len() > 0 {
                events.push(
                    GenerationEventModel::TextStarted { content_index: index, id: text_id(index) },
                )
            } else {
                events
            };
            let delivered = if suffix.len() > 0 {
                opened.push(
                    GenerationEventModel::TextDelta {
                        content_index: index,
                        id: text_id(index),
                        delta: suffix,
                    },
                )
            } else {
                opened
            };
            let buffered = ResponsesModel {
                text_buffers: put(touched.text_buffers, index, text),
                ..state
            };
            if state.finished_text.contains(index) {
                done(buffered, delivered)
            } else if find(state.open_text, index).is_some() || text.len() > 0 {
                done(
                    ResponsesModel {
                        open_text: without(state.open_text, index),
                        finished_text: state.finished_text.insert(index),
                        ..buffered
                    },
                    delivered.push(
                        GenerationEventModel::TextFinished {
                            content_index: index,
                            id: text_id(index),
                            replay,
                        },
                    ),
                )
            } else {
                done(buffered, delivered)
            }
        },
    }
}

/// A complete message item.
pub open spec fn capture_message_item(
    state: ResponsesModel,
    index: usize,
    item: JsonModel,
    events: Seq<GenerationEventModel>,
) -> Step {
    let replay = match unless_empty(string_or_empty(item, "id"@)) {
        Some(id) => Some(
            responses_metadata(
                ResponsesReplayMetadataModel { message_id: Some(id), ..no_responses_replay() },
            ),
        ),
        None => None,
    };
    match item.array_at("content"@) {
        None => refused(state, events, "Responses message content is not an array"@),
        Some(parts) => match message_text(parts, 0, Seq::empty()) {
            Err(error) => Step { state, events, error: Some(error) },
            Ok(text) => capture_text(state, index, text, replay, events),
        },
    }
}

/// An output item ends. Some providers send nothing of an item but its end.
#[verifier::opaque]
pub open spec fn item_finished(
    state: ResponsesModel,
    index: usize,
    item: Option<JsonModel>,
    events: Seq<GenerationEventModel>,
) -> Step {
    if state.finished_outputs.contains(index) {
        refused(state, events, "Responses output item completed more than once"@)
    } else {
        match item {
            None => refused(state, events, "output item done without item"@),
            Some(item) => {
                let kind = item_kind(item);
                match find(state.output_kinds, index) {
                    Some(added) => if added != kind {
                        refused(
                            state,
                            events,
                            "Responses output item type changed before completion"@,
                        )
                    } else {
                        item_content(state, index, item, kind, events)
                    },
                    None => {
                        let known = ResponsesModel {
                            output_kinds: put(state.output_kinds, index, kind),
                            ..state
                        };
                        let (next, reported) = finish_other_reasoning(known, index, events);
                        item_content(next, index, item, kind, reported)
                    },
                }
            },
        }
    }
}

/// What the content of a finished item amounts to.
pub open spec fn item_content(
    state: ResponsesModel,
    index: usize,
    item: JsonModel,
    kind: OutputKind,
    events: Seq<GenerationEventModel>,
) -> Step {
    match kind {
        OutputKind::FunctionCall => if state.finished_functions.contains(index) {
            closed_item(done(state, events), index)
        } else {
            let function = completed_function(function_at(state, index), item);
            let (next, reported) = emit_function(state, index, function, events);
            closed_item(done(next, reported), index)
        },
        OutputKind::Reasoning => {
            let (next, reported) = capture_reasoning_item(state, index, item, events);
            closed_item(done(next, reported), index)
        },
        OutputKind::Message => closed_item(
            capture_message_item(state, index, item, events),
            index,
        ),
        OutputKind::Unsupported => closed_item(done(state, events), index),
    }
}

pub open spec fn closed_item(step: Step, index: usize) -> Step {
    if step.error.is_some() {
        step
    } else {
        done(
            ResponsesModel {
                finished_outputs: step.state.finished_outputs.insert(index),
                ..step.state
            },
            step.events,
        )
    }
}

/// Ends the text and the reasoning that are still open.
#[verifier::opaque]
pub open spec fn close_open_parts(
    state: ResponsesModel,
    events: Seq<GenerationEventModel>,
) -> (ResponsesModel, Seq<GenerationEventModel>) {
    let texts = Seq::new(
        state.open_text.len(),
        |i: int|
            GenerationEventModel::TextFinished {
                content_index: state.open_text[i].0,
                id: state.open_text[i].1,
                replay: None,
            },
    );
    let reasonings = Seq::new(
        state.open_reasoning.len(),
        |i: int|
            GenerationEventModel::ReasoningFinished {
                content_index: state.open_reasoning[i].0,
                id: state.open_reasoning[i].1,
                replay: reasoning_metadata(state, state.open_reasoning[i].0),
            },
    );
    (
        ResponsesModel {
            open_text: Seq::empty(),
            finished_text: state.finished_text.union(keys(state.open_text)),
            open_reasoning: Seq::empty(),
            finished_reasoning: state.finished_reasoning.union(keys(state.open_reasoning)),
            ..state
        },
        events + texts + reasonings,
    )
}

/// The keys of the entries.
pub open spec fn keys(entries: Seq<(usize, Seq<char>)>) -> Set<usize> {
    Seq::new(entries.len(), |i: int| entries[i].0).to_set()
}

/// One item of the output that ends a response: what was not streamed is made up for.
pub open spec fn terminal_item(
    state: ResponsesModel,
    index: usize,
    item: JsonModel,
    events: Seq<GenerationEventModel>,
) -> Step {
    match item_kind(item) {
        OutputKind::Reasoning => {
            let (next, reported) = capture_reasoning_item(state, index, item, events);
            done(next, reported)
        },
        OutputKind::Message => capture_message_item(state, index, item, events),
        OutputKind::FunctionCall => if state.finished_functions.contains(index) {
            done(state, events)
        } else {
            item_finished(state, index, Some(item), events)
        },
        OutputKind::Unsupported => done(state, events),
    }
}

/// The items of the output from position `start` on.
pub open spec fn terminal_items(
    state: ResponsesModel,
    output: Seq<JsonModel>,
    start: int,
    events: Seq<GenerationEventModel>,
) -> Step
    decreases output.len() - start,
{
    if start < 0 || start >= output.len() {
        done(state, events)
    } else {
        let step = terminal_item(state, start as usize, output[start], events);
        if step.error.is_some() {
            step
        } else {
            terminal_items(step.state, output, start + 1, step.events)
        }
    }
}

#[verifier::opaque]
pub open spec fn capture_terminal_output(
    state: ResponsesModel,
    value: JsonModel,
    events: Seq<GenerationEventModel>,
) -> Step {
    match value.get2("response"@, "output"@) {
        Some(output) => match output.as_array() {
            Some(items) => terminal_items(state, items, 0, events),
            None => done(state, events),
        },
        None => done(state, events),
    }
}

/// The usage object of a terminal event.
pub open spec fn terminal_usage(value: JsonModel) -> Option<JsonModel> {
    let usage = match value.get2("response"@, "usage"@) {
        Some(usage) => Some(usage),
        None => value.get("usage"@),
    };
    match usage {
        Some(object) => if object is Object {
            Some(object)
        } else {
            None
        },
        None => None,
    }
}

/// The state and the events at the end of a response.
#[verifier::opaque]
pub open spec fn ended(
    state: ResponsesModel,
    value: JsonModel,
    events: Seq<GenerationEventModel>,
) -> (ResponsesModel, Seq<GenerationEventModel>) {
    let (closed, reported) = close_open_parts(state, events);
    match terminal_usage(value) {
        Some(usage) => (
            ResponsesModel { usage: responses_usage(usage), terminal: true, ..closed },
            reported.push(GenerationEventModel::UsageUpdated(responses_usage(usage))),
        ),
        None => (ResponsesModel { terminal: true, ..closed }, reported),
    }
}

pub open spec fn terminal_of(
    state: ResponsesModel,
    status: ProtocolTerminalStatus,
    finish_reason: FinishReasonModel,
    error: Option<GatewayErrorModel>,
) -> ProtocolTerminalModel {
    ProtocolTerminalModel {
        status,
        finish_reason,
        usage: state.usage,
        response_id: state.response_id,
        upstream_model: state.upstream_model,
        provider_metadata: responses_metadata(
            ResponsesReplayMetadataModel {
                response_id: state.response_id,
                ..no_responses_replay()
            },
        ),
        error,
    }
}

/// The state after an event, and what the event amounts to.
pub struct Ingested {
    pub state: ResponsesModel,
    pub result: Result<ProtocolUpdateModel, GatewayErrorModel>,
}

/// A response ends.
#[verifier::opaque]
pub open spec fn ends(
    state: ResponsesModel,
    value: JsonModel,
    status: ProtocolTerminalStatus,
    reason: Option<FinishReasonModel>,
    error: Option<GatewayErrorModel>,
    events: Seq<GenerationEventModel>,
) -> Ingested {
    let step = capture_terminal_output(capture_response(state, value), value, events);
    match step.error {
        Some(failure) => Ingested { state: step.state, result: Err(failure) },
        None => {
            let (last, reported) = ended(step.state, value, step.events);
            let finish_reason = match reason {
                Some(reason) => reason,
                None => if last.finished_functions == Set::<usize>::empty() {
                    FinishReasonModel::Stop
                } else {
                    FinishReasonModel::ToolCalls
                },
            };
            Ingested {
                state: last,
                result: Ok(
                    ProtocolUpdateModel {
                        events: reported,
                        terminal: Some(terminal_of(last, status, finish_reason, error)),
                    },
                ),
            }
        },
    }
}

pub open spec fn ingested(step: Step) -> Ingested {
    Ingested {
        state: step.state,
        result: match step.error {
            Some(error) => Err(error),
            None => Ok(ProtocolUpdateModel { events: step.events, terminal: None }),
        },
    }
}

pub open spec fn rejected(state: ResponsesModel, message: Seq<char>) -> Ingested {
    Ingested { state, result: Err(protocol_error(message)) }
}

pub open spec fn started_event(state: ResponsesModel) -> GenerationEventModel {
    GenerationEventModel::Started(
        StreamMetadataModel {
            response_id: state.response_id,
            upstream_model: state.upstream_model,
        },
    )
}

/// Why a response stayed incomplete.
pub open spec fn incomplete_reason(value: JsonModel) -> Seq<char> {
    let reason = match value.get2("response"@, "incomplete_details"@) {
        Some(details) => details.str_at("reason"@),
        None => None,
    };
    match allowed_token(reason) {
        Some(token) => token,
        None => "unknown"@,
    }
}

/// The event types that may come before `response.created`.
pub open spec fn may_come_first(kind: EventKind) -> bool {
    ||| kind == EventKind::Created
    ||| kind == EventKind::Completed
    ||| kind == EventKind::Incomplete
    ||| kind == EventKind::Failed
}

/// Whether the event both starts and ends a stream that has not begun.
pub open spec fn starts_at_end(event: Seq<char>) -> bool {
    ||| event == "response.completed"@
    ||| event == "response.incomplete"@
    ||| event == "response.failed"@
}

/// One event of a stream whose session has not ended. `data` is the frame that it was read from.
pub open spec fn ingest_value(state: ResponsesModel, value: JsonModel, data: Seq<char>) -> Ingested {
    match value.str_at("type"@) {
        None => rejected(state, "Responses event is missing type"@),
        Some(event) => {
            let kind = event_kind(event);
            if !state.started && !may_come_first(kind) {
                rejected(state, "Responses event arrived before response.created"@)
            } else if needs_output_index(event) && value.u64_at("output_index"@).is_none() {
                rejected(state, "Responses output event is missing output_index"@)
            } else if !state.started && starts_at_end(event) {
                let begun = ResponsesModel { started: true, ..capture_response(state, value) };
                dispatch(begun, event, kind, value, data, seq![started_event(begun)])
            } else {
                dispatch(state, event, kind, value, data, Seq::empty())
            }
        },
    }
}

/// What an event of the kind does.
#[verifier::opaque]
pub open spec fn dispatch(
    state: ResponsesModel,
    event: Seq<char>,
    kind: EventKind,
    value: JsonModel,
    data: Seq<char>,
    events: Seq<GenerationEventModel>,
) -> Ingested {
    match kind {
        EventKind::Created => if state.started {
            rejected(state, "Responses stream emitted response.created more than once"@)
        } else {
            let begun = ResponsesModel { started: true, ..capture_response(state, value) };
            ingested(done(begun, events.push(started_event(begun))))
        },
        EventKind::InProgress => ingested(done(capture_response(state, value), events)),
        EventKind::ItemAdded => ingested(item_added(state, value, events)),
        EventKind::TextDelta => ingested(text_delta(state, value, events)),
        EventKind::TextDone => ingested(
            Step { state, events, error: text_refusal(state, value, "text"@) },
        ),
        EventKind::RefusalDone => ingested(
            Step { state, events, error: text_refusal(state, value, "refusal"@) },
        ),
        EventKind::ReasoningDelta => ingested(reasoning_delta(state, value, events)),
        EventKind::ReasoningDone => ingested(
            Step { state, events, error: item_refusal(state, value, OutputKind::Reasoning) },
        ),
        EventKind::SummaryPartDone => ingested(summary_part_done(state, value, events)),
        EventKind::ArgumentsDelta => ingested(function_delta(state, value, events)),
        EventKind::ArgumentsDone => {
            let (next, error) = function_done(state, value);
            ingested(Step { state: next, events, error })
        },
        EventKind::ItemDone => ingested(
            item_finished(state, index_of(value), value.get("item"@), events),
        ),
        EventKind::ContentPart => if find(state.output_kinds, index_of(value)).is_some() {
            ingested(done(state, events))
        } else {
            rejected(
                state,
                "Responses content part event arrived before output item was added"@,
            )
        },
        EventKind::Completed => ends(
            state,
            value,
            ProtocolTerminalStatus::Completed,
            None,
            None,
            events,
        ),
        EventKind::Incomplete => ends(
            state,
            value,
            ProtocolTerminalStatus::Failed,
            Some(FinishReasonModel::Incomplete(incomplete_reason(value))),
            Some(
                with_body(
                    provider_failure(
                        "provider response was incomplete"@,
                        Some("response_incomplete"@),
                    ),
                    data,
                ),
            ),
            events,
        ),
        EventKind::Failed => ends(
            state,
            value,
            ProtocolTerminalStatus::Failed,
            Some(FinishReasonModel::Other("failed"@)),
            Some(with_body(failure_of(value), data)),
            events,
        ),
        EventKind::Lifecycle => ingested(done(state, events)),
        EventKind::Unknown => rejected(state, "unknown Responses event type: "@ + event),
    }
}

/// One frame of a stream.
pub open spec fn ingest(state: ResponsesModel, data: Seq<char>) -> Ingested {
    if state.terminal {
        rejected(state, "Responses stream emitted data after terminal event"@)
    } else {
        match parsed_json(data) {
            None => rejected(state, "invalid Responses stream JSON"@),
            Some(value) => ingest_value(state, value, data),
        }
    }
}

} // verus!
