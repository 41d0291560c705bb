//! The event state machine of a Responses stream.

use vstd::prelude::*;
use vstd::string::*;

use crate::json::{parse_json, Json};
use crate::llm::error::{protocol_error, GatewayError, GatewayErrorModel};
use crate::llm::event::{GenerationEvent, GenerationEventModel};
use crate::llm::model::{
    ProviderMetadata, ReasoningContent, ResponsesReplayMetadata, ToolCall, Usage,
};
use crate::llm::protocol::responses::model;
use crate::llm::protocol::responses::model::{
    authoritative_text, buffer_at, done, function_at, function_started, keys, keys_except,
    message_text, no_function, open_item, reasoning_id, reasoning_metadata, replay_at, text_id,
    updated_replay, FunctionModel, Ingested, ResponsesModel, Step,
};
use crate::llm::protocol::responses::wire::{
    call_id, collect_text_fields, field_string, index_of, nonempty, output_index, output_kind,
    required_string, OutputKind,
};
use crate::llm::protocol::{CompatibilityProfile, ProtocolUpdate};
use crate::ordered::{without, IndexMap, IndexSet};
use crate::text::{decimal, joined, same_option, same_text, strip_prefix};

verus! {

broadcast use crate::deep::group_models;

/// A function call while its arguments arrive.
pub struct FunctionAccumulator {
    pub item_id: String,
    pub call_id: String,
    pub name: String,
    pub arguments: String,
    pub started: bool,
}

impl DeepView for FunctionAccumulator {
    type V = FunctionModel;

    open spec fn deep_view(&self) -> FunctionModel {
        FunctionModel {
            item_id: self.item_id@,
            call_id: self.call_id@,
            name: self.name@,
            arguments: self.arguments@,
            started: self.started,
        }
    }
}

impl FunctionAccumulator {
    fn copy(&self) -> (copy: Self)
        ensures
            copy.deep_view() == self.deep_view(),
    {
        FunctionAccumulator {
            item_id: self.item_id.clone(),
            call_id: self.call_id.clone(),
            name: self.name.clone(),
            arguments: self.arguments.clone(),
            started: self.started,
        }
    }
}

impl Default for FunctionAccumulator {
    fn default() -> (function: Self)
        ensures
            function.deep_view() == no_function(),
    {
        FunctionAccumulator {
            item_id: String::new(),
            call_id: String::new(),
            name: String::new(),
            arguments: String::new(),
            started: false,
        }
    }
}

/// The session of a Responses stream.
pub struct ResponsesSession {
    pub compatibility: CompatibilityProfile,
    pub started: bool,
    pub terminal: bool,
    pub response_id: Option<String>,
    pub upstream_model: Option<String>,
    pub usage: Usage,
    pub functions: IndexMap<FunctionAccumulator>,
    pub finished_function_arguments: IndexSet,
    pub finished_functions: IndexSet,
    pub output_kinds: IndexMap<OutputKind>,
    pub finished_outputs: IndexSet,
    pub open_text: IndexMap<String>,
    pub text_buffers: IndexMap<String>,
    pub finished_text: IndexSet,
    pub open_reasoning: IndexMap<String>,
    pub reasoning_buffers: IndexMap<String>,
    pub finished_reasoning: IndexSet,
    pub reasoning_replay: IndexMap<ResponsesReplayMetadata>,
}

impl DeepView for ResponsesSession {
    type V = ResponsesModel;

    open spec fn deep_view(&self) -> ResponsesModel {
        ResponsesModel {
            compatibility: self.compatibility,
            started: self.started,
            terminal: self.terminal,
            response_id: self.response_id.deep_view(),
            upstream_model: self.upstream_model.deep_view(),
            usage: self.usage,
            functions: self.functions.deep_view(),
            finished_function_arguments: self.finished_function_arguments@,
            finished_functions: self.finished_functions@,
            output_kinds: self.output_kinds.deep_view(),
            finished_outputs: self.finished_outputs@,
            open_text: self.open_text.deep_view(),
            text_buffers: self.text_buffers.deep_view(),
            finished_text: self.finished_text@,
            open_reasoning: self.open_reasoning.deep_view(),
            reasoning_buffers: self.reasoning_buffers.deep_view(),
            finished_reasoning: self.finished_reasoning@,
            reasoning_replay: self.reasoning_replay.deep_view(),
        }
    }
}

/// The error of a result.
pub open spec fn refusal_of(result: Result<(), GatewayError>) -> Option<GatewayErrorModel> {
    match result {
        Ok(()) => None,
        Err(error) => Some(error.deep_view()),
    }
}

/// The state, the events and the outcome of a piece of an event.
pub open spec fn step_of(
    session: ResponsesSession,
    events: Vec<GenerationEvent>,
    result: Result<(), GatewayError>,
) -> Step {
    Step {
        state: session.deep_view(),
        events: events.deep_view(),
        error: refusal_of(result),
    }
}

/// The state and the outcome of an event.
pub open spec fn ingested_of(
    session: ResponsesSession,
    result: Result<ProtocolUpdate, GatewayError>,
) -> Ingested {
    Ingested {
        state: session.deep_view(),
        result: match result {
            Ok(update) => Ok(update.deep_view()),
            Err(error) => Err(error.deep_view()),
        },
    }
}

pub(crate) fn text_name(index: usize) -> (id: String)
    ensures
        id@ == text_id(index),
{
    let mut id = joined("text-", decimal(index as u64).as_str());
    id.append("-0");
    id
}

pub(crate) fn reasoning_name(index: usize) -> (id: String)
    ensures
        id@ == reasoning_id(index),
{
    let mut id = joined("reasoning-", decimal(index as u64).as_str());
    id.append("-0");
    id
}

/// The text of a buffer, which is empty until something is put there.
fn buffered(buffers: &IndexMap<String>, index: usize) -> (text: String)
    ensures
        text@ == buffer_at(buffers.deep_view(), index),
{
    match buffers.get(index) {
        Some(text) => text.clone(),
        None => String::new(),
    }
}

fn responses_only(responses: ResponsesReplayMetadata) -> (metadata: ProviderMetadata)
    ensures
        metadata.deep_view() == model::responses_metadata(responses.deep_view()),
{
    ProviderMetadata { chat: None, responses: Some(responses) }
}

fn started_call(index: usize, function: &FunctionAccumulator) -> (event: GenerationEvent)
    ensures
        event.deep_view() == function_started(index, function.deep_view()),
{
    GenerationEvent::ToolCallStarted {
        content_index: index,
        index,
        id: call_id(function.call_id.as_str(), index),
        name: function.name.clone(),
    }
}

impl ResponsesSession {
    pub(crate) fn capture_response(&mut self, value: &Json)
        ensures
            final(self).deep_view() == model::capture_response(
                old(self).deep_view(),
                value.deep_view(),
            ),
    {
        reveal(model::capture_response);
        let response = match value.get("response") {
            Some(response) => response,
            None => value,
        };
        match response.str_at("id") {
            Some(id) => {
                self.response_id = Some(id.to_owned());
            },
            None => {},
        }
        match response.str_at("model") {
            Some(name) => {
                self.upstream_model = Some(name.to_owned());
            },
            None => {},
        }
    }

    fn function_copy(&self, index: usize) -> (function: FunctionAccumulator)
        ensures
            function.deep_view() == function_at(self.deep_view(), index),
    {
        match self.functions.get(index) {
            Some(function) => function.copy(),
            None => FunctionAccumulator::default(),
        }
    }

    pub(crate) fn item_added(&mut self, value: &Json, events: &mut Vec<GenerationEvent>) -> (result:
        Result<(), GatewayError>)
        ensures
            step_of(*final(self), *final(events), result) == model::item_added(
                old(self).deep_view(),
                value.deep_view(),
                old(events).deep_view(),
            ),
    {
        reveal(model::item_added);
        let index = output_index(value);
        let item = match value.get("item") {
            Some(item) => item,
            None => {
                return Err(GatewayError::protocol("output item added without item"));
            },
        };
        let kind = output_kind(item);
        let known = self.output_kinds.contains_key(index);
        self.output_kinds.insert(index, kind);
        if known || self.finished_outputs.contains(index) {
            return Err(GatewayError::protocol("Responses output index was added more than once"));
        }
        self.finish_other_reasoning(index, events);
        match kind {
            OutputKind::FunctionCall => {
                let function = FunctionAccumulator {
                    item_id: field_string(item, "id"),
                    call_id: field_string(item, "call_id"),
                    name: field_string(item, "name"),
                    arguments: field_string(item, "arguments"),
                    started: true,
                };
                events.push(started_call(index, &function));
                self.functions.insert(index, function);
            },
            OutputKind::Reasoning => {
                let _ = self.capture_reasoning_replay(index, item);
            },
            OutputKind::Message => {},
            OutputKind::Unsupported => {},
        }
        Ok(())
    }

    pub(crate) fn function_delta(
        &mut self,
        value: &Json,
        events: &mut Vec<GenerationEvent>,
    ) -> (result: Result<(), GatewayError>)
        ensures
            step_of(*final(self), *final(events), result) == model::function_delta(
                old(self).deep_view(),
                value.deep_view(),
                old(events).deep_view(),
            ),
    {
        reveal(model::function_delta);
        let index = match self.require_output_kind(value, OutputKind::FunctionCall) {
            Ok(index) => index,
            Err(error) => {
                return Err(error);
            },
        };
        if self.finished_function_arguments.contains(index) {
            return Err(
                GatewayError::protocol(
                    "function arguments delta arrived after function completion",
                ),
            );
        }
        let mut function = self.function_copy(index);
        if !function.started {
            events.push(started_call(index, &function));
            function.started = true;
        }
        match value.str_at("delta") {
            Some(delta) => {
                function.arguments.append(delta);
                self.functions.insert(index, function);
                events.push(
                    GenerationEvent::ToolCallDelta {
                        content_index: index,
                        index,
                        delta: delta.to_owned(),
                    },
                );
                Ok(())
            },
            None => {
                self.functions.insert(index, function);
                Err(GatewayError::protocol("function arguments delta is not a string"))
            },
        }
    }

    pub(crate) fn function_done(&mut self, value: &Json) -> (result: Result<(), GatewayError>)
        ensures
            (final(self).deep_view(), refusal_of(result)) == model::function_done(
                old(self).deep_view(),
                value.deep_view(),
            ),
    {
        reveal(model::function_done);
        let index = match self.require_output_kind(value, OutputKind::FunctionCall) {
            Ok(index) => index,
            Err(error) => {
                return Err(error);
            },
        };
        if self.finished_function_arguments.contains(index) {
            return Err(GatewayError::protocol("function arguments completed more than once"));
        }
        match required_string(value, "arguments", "function arguments done value is not a string") {
            Ok(arguments) => {
                let mut function = self.function_copy(index);
                function.arguments = arguments.to_owned();
                self.functions.insert(index, function);
                self.finished_function_arguments.insert(index);
                Ok(())
            },
            Err(error) => Err(error),
        }
    }

    pub(crate) fn require_output_kind(&self, value: &Json, expected: OutputKind) -> (result: Result<
        usize,
        GatewayError,
    >)
        ensures
            match result {
                Ok(index) => open_item(self.deep_view(), value.deep_view(), expected) == Ok::<
                    usize,
                    GatewayErrorModel,
                >(index),
                Err(error) => open_item(self.deep_view(), value.deep_view(), expected) == Err::<
                    usize,
                    GatewayErrorModel,
                >(error.deep_view()),
            },
    {
        let index = output_index(value);
        if self.finished_outputs.contains(index) {
            return Err(
                GatewayError::protocol("Responses delta arrived after output item completion"),
            );
        }
        match self.output_kinds.get(index) {
            Some(kind) => if *kind == expected {
                Ok(index)
            } else {
                Err(GatewayError::protocol("Responses event does not match its output item type"))
            },
            None => Err(
                GatewayError::protocol("Responses delta arrived before output item was added"),
            ),
        }
    }

    /// Reports a complete call and forgets what was collected for it.
    fn emit_function(
        &mut self,
        index: usize,
        function: FunctionAccumulator,
        events: &mut Vec<GenerationEvent>,
    )
        ensures
            (final(self).deep_view(), final(events).deep_view()) == model::emit_function(
                old(self).deep_view(),
                index,
                function.deep_view(),
                old(events).deep_view(),
            ),
    {
        let _ = self.functions.remove(index);
        self.finished_functions.insert(index);
        if !function.started {
            events.push(started_call(index, &function));
        }
        let id = call_id(function.call_id.as_str(), index);
        let arguments = match parse_json(function.arguments.as_str()) {
            Some(value) => value,
            None => Json::Str(function.arguments.clone()),
        };
        let metadata = ResponsesReplayMetadata {
            response_id: None,
            item_id: nonempty(function.item_id),
            message_id: None,
            call_id: nonempty(function.call_id),
            encrypted_reasoning: None,
        };
        let tool_call = ToolCall {
            id,
            name: function.name,
            arguments,
            raw_arguments: function.arguments,
            provider_metadata: responses_only(metadata),
        };
        events.push(
            GenerationEvent::ToolCallFinished {
                content_index: index,
                index,
                tool_call: Box::new(tool_call),
            },
        );
    }

    fn finish_reasoning_for_output(
        &mut self,
        output_index: usize,
        events: &mut Vec<GenerationEvent>,
    )
        ensures
            (final(self).deep_view(), final(events).deep_view()) == model::finish_reasoning(
                old(self).deep_view(),
                output_index,
                old(events).deep_view(),
            ),
    {
        reveal(model::finish_reasoning);
        if self.finished_reasoning.contains(output_index) {
            return;
        }
        let replay = self.reasoning_provider_metadata(output_index);
        match self.open_reasoning.remove(output_index) {
            Some(id) => {
                events.push(
                    GenerationEvent::ReasoningFinished { content_index: output_index, id, replay },
                );
                self.finished_reasoning.insert(output_index);
            },
            None => {
                let encrypted = match self.reasoning_replay.get(output_index) {
                    Some(metadata) => metadata.encrypted_reasoning.is_some(),
                    None => false,
                };
                if encrypted {
                    events.push(
                        GenerationEvent::ReasoningStarted {
                            content_index: output_index,
                            id: reasoning_name(output_index),
                        },
                    );
                    events.push(
                        GenerationEvent::ReasoningFinished {
                            content_index: output_index,
                            id: reasoning_name(output_index),
                            replay,
                        },
                    );
                    self.finished_reasoning.insert(output_index);
                }
            },
        }
    }

    fn finish_other_reasoning(&mut self, output_index: usize, events: &mut Vec<GenerationEvent>)
        ensures
            (final(self).deep_view(), final(events).deep_view()) == model::finish_other_reasoning(
                old(self).deep_view(),
                output_index,
                old(events).deep_view(),
            ),
    {
        reveal(model::finish_other_reasoning);
        let ghost entries = self.open_reasoning.deep_view();
        let mut open: Vec<usize> = Vec::new();
        let mut i: usize = 0;
        let count = self.open_reasoning.len();
        while i < count
            invariant
                entries == self.open_reasoning.deep_view(),
                *self == *old(self),
                count == entries.len(),
                i <= count,
                keys_except(entries, output_index, 0) == open@ + keys_except(
                    entries,
                    output_index,
                    i as int,
                ),
            decreases count - i,
        {
            let key = self.open_reasoning.key_at(i);
            if key != output_index {
                let ghost before = open@;
                open.push(key);
                proof {
                    let rest = keys_except(entries, output_index, i + 1);
                    assert(open@ + rest =~= before + (seq![key] + rest));
                }
            }
            i += 1;
        }
        proof {
            assert(open@ + Seq::<usize>::empty() =~= open@);
        }
        let mut j: usize = 0;
        while j < open.len()
            invariant
                j <= open.len(),
                model::finish_each(old(self).deep_view(), open@, 0, old(events).deep_view())
                    == model::finish_each(
                    self.deep_view(),
                    open@,
                    j as int,
                    events.deep_view(),
                ),
            decreases open.len() - j,
        {
            self.finish_reasoning_for_output(open[j], events);
            j += 1;
        }
    }

    /// Records what an item says of its reasoning, and whether that is news.
    fn capture_reasoning_replay(&mut self, index: usize, item: &Json) -> (changed: bool)
        ensures
            final(self).deep_view() == model::capture_reasoning_replay(
                old(self).deep_view(),
                index,
                item.deep_view(),
            ),
            changed == (updated_replay(
                replay_at(old(self).deep_view(), index),
                item.deep_view(),
            ) != replay_at(old(self).deep_view(), index)),
    {
        reveal(model::capture_reasoning_replay);
        let previous = match self.reasoning_replay.get(index) {
            Some(metadata) => metadata.clone(),
            None => ResponsesReplayMetadata::default(),
        };
        let mut metadata = previous.clone();
        match nonempty(field_string(item, "id")) {
            Some(id) => {
                metadata.item_id = Some(id);
            },
            None => {},
        }
        match nonempty(field_string(item, "encrypted_content")) {
            Some(encrypted) => {
                metadata.encrypted_reasoning = Some(encrypted);
            },
            None => {},
        }
        let changed = !same_option(&metadata.item_id, &previous.item_id) || !same_option(
            &metadata.encrypted_reasoning,
            &previous.encrypted_reasoning,
        );
        self.reasoning_replay.insert(index, metadata);
        changed
    }

    fn reasoning_provider_metadata(&self, index: usize) -> (metadata: Option<ProviderMetadata>)
        ensures
            metadata.deep_view() == reasoning_metadata(self.deep_view(), index),
    {
        match self.reasoning_replay.get(index) {
            Some(metadata) => Some(responses_only(metadata.clone())),
            None => None,
        }
    }

    fn reasoning_snapshot(&self, index: usize, display: String) -> (event: GenerationEvent)
        ensures
            event.deep_view() == model::snapshot_updated(self.deep_view(), index, display@),
    {
        GenerationEvent::ReasoningSnapshotUpdated {
            content_index: index,
            id: reasoning_name(index),
            reasoning: ReasoningContent {
                display,
                replay: self.reasoning_provider_metadata(index),
            },
        }
    }

    fn capture_reasoning_item(
        &mut self,
        output_index: usize,
        item: &Json,
        events: &mut Vec<GenerationEvent>,
    )
        ensures
            (final(self).deep_view(), final(events).deep_view()) == model::capture_reasoning_item(
                old(self).deep_view(),
                output_index,
                item.deep_view(),
                old(events).deep_view(),
            ),
    {
        reveal(model::capture_reasoning_replay);
        let streamed = buffered(&self.reasoning_buffers, output_index);
        let replay_changed = self.capture_reasoning_replay(output_index, item);
        let authoritative = final_reasoning(item);
        let was_finished = self.finished_reasoning.contains(output_index);
        let (shown, display_changed) = match authoritative {
            Some(text) => {
                let changed = !same_text(text.as_str(), streamed.as_str());
                (text, changed)
            },
            None => (streamed.clone(), false),
        };
        if was_finished {
            if display_changed {
                self.reasoning_buffers.insert(output_index, shown.clone());
            }
            if display_changed || replay_changed {
                events.push(self.reasoning_snapshot(output_index, shown));
            }
            return;
        }
        let suffix = if display_changed {
            strip_prefix(shown.as_str(), streamed.as_str())
        } else {
            None
        };
        match suffix {
            Some(delta) => {
                let id = match self.open_reasoning.get(output_index) {
                    Some(id) => id.clone(),
                    None => {
                        events.push(
                            GenerationEvent::ReasoningStarted {
                                content_index: output_index,
                                id: reasoning_name(output_index),
                            },
                        );
                        reasoning_name(output_index)
                    },
                };
                if !self.open_reasoning.contains_key(output_index) {
                    self.open_reasoning.insert(output_index, id.clone());
                }
                events.push(
                    GenerationEvent::ReasoningDelta { content_index: output_index, id, delta },
                );
                self.reasoning_buffers.insert(output_index, shown);
                self.finish_reasoning_for_output(output_index, events);
            },
            None => {
                self.finish_reasoning_for_output(output_index, events);
                if display_changed {
                    self.reasoning_buffers.insert(output_index, shown.clone());
                    if self.finished_reasoning.contains(output_index) {
                        events.push(self.reasoning_snapshot(output_index, shown));
                    }
                }
            },
        }
    }
}

/// The text of a reasoning item: its summary, or else its content.
fn final_reasoning(item: &Json) -> (text: Option<String>)
    ensures
        text.deep_view() == authoritative_text(item.deep_view()),
{
    let summary = match item.array_at("summary") {
        Some(parts) => collect_text_fields(parts, "text", "\n\n"),
        None => String::new(),
    };
    let content = match item.array_at("content") {
        Some(parts) => collect_text_fields(parts, "text", "\n\n"),
        None => String::new(),
    };
    if !summary.as_str().is_empty() {
        Some(summary)
    } else {
        nonempty(content)
    }
}

/// The text of a message: its text and refusal parts put together.
fn final_message(content: &Vec<Json>) -> (result: Result<String, GatewayError>)
    ensures
        match result {
            Ok(text) => message_text(content.deep_view(), 0, Seq::empty()) == Ok::<
                Seq<char>,
                GatewayErrorModel,
            >(text@),
            Err(error) => message_text(content.deep_view(), 0, Seq::empty()) == Err::<
                Seq<char>,
                GatewayErrorModel,
            >(error.deep_view()),
        },
{
    let mut text = String::new();
    let mut i: usize = 0;
    while i < content.len()
        invariant
            i <= content.len(),
            message_text(content.deep_view(), 0, Seq::empty()) == message_text(
                content.deep_view(),
                i as int,
                text@,
            ),
        decreases content.len() - i,
    {
        let part = &content[i];
        proof {
            assert(content.deep_view()[i as int] == part.deep_view());
        }
        let (is_text, is_refusal) = match part.str_at("type") {
            Some(name) => (same_text(name, "output_text"), same_text(name, "refusal")),
            None => (false, false),
        };
        if is_text {
            match required_string(part, "text", "Responses output text is not a string") {
                Ok(more) => {
                    text.append(more);
                },
                Err(error) => {
                    return Err(error);
                },
            }
        } else if is_refusal {
            match required_string(part, "refusal", "Responses refusal is not a string") {
                Ok(more) => {
                    text.append(more);
                },
                Err(error) => {
                    return Err(error);
                },
            }
        }
        i += 1;
    }
    Ok(text)
}

impl ResponsesSession {
    /// A text that a message part ends with must be a string; it counts when the item ends.
    pub(crate) fn capture_text_done(&self, value: &Json, field: &str) -> (result: Result<
        (),
        GatewayError,
    >)
        ensures
            match result {
                Ok(()) => value.deep_view().get(field@) is None || value.deep_view().get(
                    field@,
                )->0 is Str,
                Err(error) => value.deep_view().get(field@) is Some && value.deep_view().get(
                    field@,
                )->0 !is Str && error.deep_view() == protocol_error(
                    "Responses completed text is not a string"@,
                ),
            },
    {
        match value.get(field) {
            Some(text) => if text.is_string() {
                Ok(())
            } else {
                Err(GatewayError::protocol("Responses completed text is not a string"))
            },
            None => Ok(()),
        }
    }

    fn capture_message_item(
        &mut self,
        output_index: usize,
        item: &Json,
        events: &mut Vec<GenerationEvent>,
    ) -> (result: Result<(), GatewayError>)
        ensures
            step_of(*final(self), *final(events), result) == model::capture_message_item(
                old(self).deep_view(),
                output_index,
                item.deep_view(),
                old(events).deep_view(),
            ),
    {
        let replay = match nonempty(field_string(item, "id")) {
            Some(id) => Some(
                responses_only(
                    ResponsesReplayMetadata {
                        response_id: None,
                        item_id: None,
                        message_id: Some(id),
                        call_id: None,
                        encrypted_reasoning: None,
                    },
                ),
            ),
            None => None,
        };
        let content = match item.array_at("content") {
            Some(content) => content,
            None => {
                return Err(GatewayError::protocol("Responses message content is not an array"));
            },
        };
        match final_message(content) {
            Ok(text) => self.capture_text_part(output_index, text, replay, events),
            Err(error) => Err(error),
        }
    }

    fn capture_text_part(
        &mut self,
        index: usize,
        final_text: String,
        replay: Option<ProviderMetadata>,
        events: &mut Vec<GenerationEvent>,
    ) -> (result: Result<(), GatewayError>)
        ensures
            step_of(*final(self), *final(events), result) == model::capture_text(
                old(self).deep_view(),
                index,
                final_text@,
                replay.deep_view(),
                old(events).deep_view(),
            ),
    {
        let streamed = buffered(&self.text_buffers, index);
        let unsent = streamed.as_str().is_empty() && !final_text.as_str().is_empty();
        let suffix = strip_prefix(final_text.as_str(), streamed.as_str());
        self.text_buffers.insert(index, streamed);
        let delta = match suffix {
            Some(delta) => delta,
            None => {
                return Err(
                    GatewayError::protocol("Responses final message does not match streamed text"),
                );
            },
        };
        let has_text = !final_text.as_str().is_empty();
        if unsent {
            events.push(
                GenerationEvent::TextStarted { content_index: index, id: text_name(index) },
            );
        }
        if !delta.as_str().is_empty() {
            events.push(
                GenerationEvent::TextDelta { content_index: index, id: text_name(index), delta },
            );
        }
        self.text_buffers.insert(index, final_text);
        if !self.finished_text.contains(index) {
            let was_open = self.open_text.contains_key(index);
            if was_open || has_text {
                let _ = self.open_text.remove(index);
                events.push(
                    GenerationEvent::TextFinished {
                        content_index: index,
                        id: text_name(index),
                        replay,
                    },
                );
                self.finished_text.insert(index);
            }
        }
        Ok(())
    }

    pub(crate) fn item_done(&mut self, value: &Json, events: &mut Vec<GenerationEvent>) -> (result:
        Result<(), GatewayError>)
        ensures
            step_of(*final(self), *final(events), result) == model::item_finished(
                old(self).deep_view(),
                index_of(value.deep_view()),
                value.deep_view().get("item"@),
                old(events).deep_view(),
            ),
    {
        self.finish_item(output_index(value), value.get("item"), events)
    }

    fn finish_item(
        &mut self,
        index: usize,
        item: Option<&Json>,
        events: &mut Vec<GenerationEvent>,
    ) -> (result: Result<(), GatewayError>)
        ensures
            step_of(*final(self), *final(events), result) == model::item_finished(
                old(self).deep_view(),
                index,
                item.deep_view(),
                old(events).deep_view(),
            ),
    {
        reveal(model::item_finished);
        if self.finished_outputs.contains(index) {
            return Err(GatewayError::protocol("Responses output item completed more than once"));
        }
        let item = match item {
            Some(item) => item,
            None => {
                return Err(GatewayError::protocol("output item done without item"));
            },
        };
        let kind = output_kind(item);
        let added = match self.output_kinds.get(index) {
            Some(added) => Some(*added),
            None => None,
        };
        match added {
            Some(added) => {
                if added != kind {
                    return Err(
                        GatewayError::protocol(
                            "Responses output item type changed before completion",
                        ),
                    );
                }
            },
            None => {
                self.output_kinds.insert(index, kind);
                self.finish_other_reasoning(index, events);
            },
        }
        self.finish_content(index, item, kind, events)
    }

    fn finish_content(
        &mut self,
        index: usize,
        item: &Json,
        kind: OutputKind,
        events: &mut Vec<GenerationEvent>,
    ) -> (result: Result<(), GatewayError>)
        ensures
            step_of(*final(self), *final(events), result) == model::item_content(
                old(self).deep_view(),
                index,
                item.deep_view(),
                kind,
                old(events).deep_view(),
            ),
    {
        match kind {
            OutputKind::FunctionCall => {
                if !self.finished_functions.contains(index) {
                    let mut function = self.function_copy(index);
                    if function.item_id.as_str().is_empty() {
                        function.item_id = field_string(item, "id");
                    }
                    if function.call_id.as_str().is_empty() {
                        function.call_id = field_string(item, "call_id");
                    }
                    if function.name.as_str().is_empty() {
                        function.name = field_string(item, "name");
                    }
                    match item.str_at("arguments") {
                        Some(arguments) => {
                            function.arguments = arguments.to_owned();
                        },
                        None => {},
                    }
                    self.emit_function(index, function, events);
                }
            },
            OutputKind::Reasoning => {
                self.capture_reasoning_item(index, item, events);
            },
            OutputKind::Message => match self.capture_message_item(index, item, events) {
                Ok(()) => {},
                Err(error) => {
                    return Err(error);
                },
            },
            OutputKind::Unsupported => {},
        }
        self.finished_outputs.insert(index);
        Ok(())
    }

    pub(crate) fn close_open_parts(&mut self, events: &mut Vec<GenerationEvent>)
        ensures
            (final(self).deep_view(), final(events).deep_view()) == model::close_open_parts(
                old(self).deep_view(),
                old(events).deep_view(),
            ),
    {
        reveal(model::close_open_parts);
        let ghost start = self.deep_view();
        let ghost before = events.deep_view();
        let ghost closed = model::close_open_parts(start, before);
        let ghost texts = Seq::new(
            start.open_text.len(),
            |i: int|
                GenerationEventModel::TextFinished {
                    content_index: start.open_text[i].0,
                    id: start.open_text[i].1,
                    replay: None,
                },
        );
        let ghost text_keys = Seq::new(start.open_text.len(), |i: int| start.open_text[i].0);
        let count = self.open_text.len();
        let mut i: usize = 0;
        proof {
            assert(text_keys.take(0).to_set() =~= Set::<usize>::empty());
            assert(start.finished_text.union(Set::<usize>::empty()) =~= start.finished_text);
            assert(before + texts.take(0) =~= before);
        }
        while i < count
            invariant
                count == start.open_text.len(),
                i <= count,
                texts.len() == count,
                text_keys.len() == count,
                forall|k: int|
                    0 <= k < count ==> #[trigger] texts[k] == (GenerationEventModel::TextFinished {
                        content_index: start.open_text[k].0,
                        id: start.open_text[k].1,
                        replay: None,
                    }),
                forall|k: int| 0 <= k < count ==> #[trigger] text_keys[k] == start.open_text[k].0,
                self.deep_view() == (ResponsesModel {
                    finished_text: start.finished_text.union(text_keys.take(i as int).to_set()),
                    ..start
                }),
                events.deep_view() == before + texts.take(i as int),
            decreases count - i,
        {
            let key = self.open_text.key_at(i);
            let id = self.open_text.value_at(i).clone();
            events.push(GenerationEvent::TextFinished { content_index: key, id, replay: None });
            self.finished_text.insert(key);
            proof {
                lemma_take_next(text_keys, i as int);
                assert(texts.take(i + 1) =~= texts.take(i as int).push(texts[i as int]));
                assert(before + texts.take(i + 1) =~= (before + texts.take(i as int)).push(
                    texts[i as int],
                ));
                assert(start.finished_text.union(text_keys.take(i + 1).to_set())
                    =~= start.finished_text.union(text_keys.take(i as int).to_set()).insert(key));
            }
            i += 1;
        }
        proof {
            assert(text_keys.take(count as int) =~= text_keys);
            assert(texts.take(count as int) =~= texts);
        }
        self.open_text.clear();
        let ghost middle = self.deep_view();
        let ghost between = events.deep_view();
        let ghost reasonings = Seq::new(
            start.open_reasoning.len(),
            |i: int|
                GenerationEventModel::ReasoningFinished {
                    content_index: start.open_reasoning[i].0,
                    id: start.open_reasoning[i].1,
                    replay: reasoning_metadata(start, start.open_reasoning[i].0),
                },
        );
        let ghost reasoning_keys = Seq::new(
            start.open_reasoning.len(),
            |i: int| start.open_reasoning[i].0,
        );
        let total = self.open_reasoning.len();
        let mut j: usize = 0;
        proof {
            assert(reasoning_keys.take(0).to_set() =~= Set::<usize>::empty());
            assert(start.finished_reasoning.union(Set::<usize>::empty())
                =~= start.finished_reasoning);
            assert(between + reasonings.take(0) =~= between);
        }
        while j < total
            invariant
                total == start.open_reasoning.len(),
                j <= total,
                reasonings.len() == total,
                reasoning_keys.len() == total,
                middle.open_reasoning == start.open_reasoning,
                middle.reasoning_replay == start.reasoning_replay,
                middle.finished_reasoning == start.finished_reasoning,
                forall|k: int|
                    0 <= k < total ==> #[trigger] reasonings[k] == (
                    GenerationEventModel::ReasoningFinished {
                        content_index: start.open_reasoning[k].0,
                        id: start.open_reasoning[k].1,
                        replay: reasoning_metadata(start, start.open_reasoning[k].0),
                    }),
                forall|k: int|
                    0 <= k < total ==> #[trigger] reasoning_keys[k] == start.open_reasoning[k].0,
                self.deep_view() == (ResponsesModel {
                    finished_reasoning: start.finished_reasoning.union(
                        reasoning_keys.take(j as int).to_set(),
                    ),
                    ..middle
                }),
                events.deep_view() == between + reasonings.take(j as int),
            decreases total - j,
        {
            let key = self.open_reasoning.key_at(j);
            let id = self.open_reasoning.value_at(j).clone();
            let replay = self.reasoning_provider_metadata(key);
            events.push(GenerationEvent::ReasoningFinished { content_index: key, id, replay });
            self.finished_reasoning.insert(key);
            proof {
                lemma_take_next(reasoning_keys, j as int);
                assert(reasonings.take(j + 1) =~= reasonings.take(j as int).push(
                    reasonings[j as int],
                ));
                assert(between + reasonings.take(j + 1) =~= (between + reasonings.take(
                    j as int,
                )).push(reasonings[j as int]));
                assert(start.finished_reasoning.union(reasoning_keys.take(j + 1).to_set())
                    =~= start.finished_reasoning.union(
                    reasoning_keys.take(j as int).to_set(),
                ).insert(key));
            }
            j += 1;
        }
        proof {
            assert(reasoning_keys.take(total as int) =~= reasoning_keys);
            assert(reasonings.take(total as int) =~= reasonings);
        }
        self.open_reasoning.clear();
        proof {
            assert(texts =~= Seq::new(
                start.open_text.len(),
                |i: int|
                    GenerationEventModel::TextFinished {
                        content_index: start.open_text[i].0,
                        id: start.open_text[i].1,
                        replay: None,
                    },
            ));
            assert(events.deep_view() =~= closed.1);
            assert(text_keys.to_set() =~= keys(start.open_text));
            assert(reasoning_keys.to_set() =~= keys(start.open_reasoning));
            assert(self.deep_view().finished_text =~= closed.0.finished_text);
            assert(self.deep_view().finished_reasoning =~= closed.0.finished_reasoning);
        }
    }

    pub(crate) fn capture_terminal_output(
        &mut self,
        value: &Json,
        events: &mut Vec<GenerationEvent>,
    ) -> (result: Result<(), GatewayError>)
        ensures
            step_of(*final(self), *final(events), result) == model::capture_terminal_output(
                old(self).deep_view(),
                value.deep_view(),
                old(events).deep_view(),
            ),
    {
        reveal(model::capture_terminal_output);
        let output = match value.get2("response", "output") {
            Some(output) => match output.as_array() {
                Some(output) => output,
                None => {
                    return Ok(());
                },
            },
            None => {
                return Ok(());
            },
        };
        let ghost items = output.deep_view();
        let mut index: usize = 0;
        while index < output.len()
            invariant
                items == output.deep_view(),
                index <= output.len(),
                model::capture_terminal_output(
                    old(self).deep_view(),
                    value.deep_view(),
                    old(events).deep_view(),
                ) == model::terminal_items(
                    self.deep_view(),
                    items,
                    index as int,
                    events.deep_view(),
                ),
            decreases output.len() - index,
        {
            let item = &output[index];
            proof {
                assert(items[index as int] == item.deep_view());
            }
            match output_kind(item) {
                OutputKind::Reasoning => {
                    self.capture_reasoning_item(index, item, events);
                },
                OutputKind::Message => match self.capture_message_item(index, item, events) {
                    Ok(()) => {},
                    Err(error) => {
                        return Err(error);
                    },
                },
                OutputKind::FunctionCall => {
                    if !self.finished_functions.contains(index) {
                        match self.finish_item(index, Some(item), events) {
                            Ok(()) => {},
                            Err(error) => {
                                return Err(error);
                            },
                        }
                    }
                },
                OutputKind::Unsupported => {},
            }
            index += 1;
        }
        Ok(())
    }
}

proof fn lemma_take_next(keys: Seq<usize>, i: int)
    requires
        0 <= i < keys.len(),
    ensures
        keys.take(i + 1).to_set() == keys.take(i).to_set().insert(keys[i]),
{
    let next = keys.take(i + 1);
    let set = keys.take(i).to_set().insert(keys[i]);
    assert forall|k: usize| next.to_set().contains(k) == set.contains(k) by {
        if next.contains(k) {
            let j = choose|j: int| 0 <= j < next.len() && next[j] == k;
            if j < i {
                assert(keys.take(i)[j] == k);
            }
        }
        if keys.take(i).contains(k) {
            let j = choose|j: int| 0 <= j < i && keys.take(i)[j] == k;
            assert(next[j] == k);
        }
        assert(next[i] == keys[i]);
    }
    assert(next.to_set() =~= set);
}

} // verus!
