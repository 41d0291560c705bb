//! The state machine of a Chat Completions stream.

use vstd::prelude::*;
use vstd::string::*;

use crate::json::{parse_json, Json};
use crate::llm::error::{allowlisted_provider_code, GatewayError, GatewayErrorModel};
use crate::llm::event::{FinishReason, GenerationEvent, GenerationEventModel, StreamMetadata};
use crate::llm::model::{
    ChatReasoningField, ChatReplayMetadata, ProviderMetadata, ToolCall, Usage, UsageProvenance,
};
use crate::llm::protocol::chat_completions::model;
use crate::llm::protocol::chat_completions::model::{
    argument_fragment, chat_usage, finish_reason_of, fresh, merged_details, no_tool,
    provider_error_of, reasoning_in, replay_metadata, selected_reasoning, tool_finished,
    tool_string, ChatIngested, ChatModel, ChatStep, OpenModel, ToolModel,
};
use crate::llm::protocol::responses::wire::call_id;
use crate::llm::protocol::{
    CompatibilityProfile, ProtocolTerminal, ProtocolTerminalModel, ProtocolTerminalStatus,
    ProtocolUpdate, ReasoningField,
};
use crate::ordered::{IndexMap, NameMap};
use crate::text::{decimal, joined, same_text};

verus! {

broadcast use crate::deep::group_models;

/// A tool call while its fragments arrive.
pub struct ToolAccumulator {
    pub content_index: Option<usize>,
    pub id: String,
    pub name: String,
    pub arguments: String,
    pub started: bool,
}

impl DeepView for ToolAccumulator {
    type V = ToolModel;

    open spec fn deep_view(&self) -> ToolModel {
        ToolModel {
            content_index: self.content_index,
            id: self.id@,
            name: self.name@,
            arguments: self.arguments@,
            started: self.started,
        }
    }
}

impl ToolAccumulator {
    fn copy(&self) -> (copy: Self)
        ensures
            copy.deep_view() == self.deep_view(),
    {
        ToolAccumulator {
            content_index: self.content_index,
            id: self.id.clone(),
            name: self.name.clone(),
            arguments: self.arguments.clone(),
            started: self.started,
        }
    }
}

impl ToolAccumulator {
    /// The call with a name, where it had none.
    fn named(self, name: Option<String>) -> (tool: Self)
        ensures
            tool.deep_view() == model::named_tool(self.deep_view(), name.deep_view()),
    {
        reveal(model::named_tool);
        let mut tool = self;
        match name {
            Some(name) => {
                if tool.name.as_str().is_empty() {
                    tool.name = name;
                }
            },
            None => {},
        }
        tool
    }
}

impl Default for ToolAccumulator {
    fn default() -> (tool: Self)
        ensures
            tool.deep_view() == no_tool(),
    {
        ToolAccumulator {
            content_index: None,
            id: String::new(),
            name: String::new(),
            arguments: String::new(),
            started: false,
        }
    }
}

/// A text or reasoning block that is open.
pub struct OpenContent {
    pub content_index: usize,
    pub id: String,
}

impl DeepView for OpenContent {
    type V = OpenModel;

    open spec fn deep_view(&self) -> OpenModel {
        OpenModel { content_index: self.content_index, id: self.id@ }
    }
}

impl OpenContent {
    fn copy(&self) -> (copy: Self)
        ensures
            copy.deep_view() == self.deep_view(),
    {
        OpenContent { content_index: self.content_index, id: self.id.clone() }
    }
}

/// The session of a Chat Completions stream.
pub struct ChatCompletionsSession {
    pub compatibility: CompatibilityProfile,
    pub started: bool,
    pub terminal: bool,
    pub done: bool,
    pub finish_reason: Option<FinishReason>,
    pub response_id: Option<String>,
    pub upstream_model: Option<String>,
    pub usage: Usage,
    pub text: Option<OpenContent>,
    pub reasoning: Option<OpenContent>,
    pub next_text_index: usize,
    pub next_reasoning_index: usize,
    pub next_content_index: usize,
    pub reasoning_field: Option<ChatReasoningField>,
    pub reasoning_details: Option<Json>,
    pub tools: IndexMap<ToolAccumulator>,
    pub tool_indices_by_id: NameMap,
    pub next_tool_index: usize,
}

impl DeepView for ChatCompletionsSession {
    type V = ChatModel;

    open spec fn deep_view(&self) -> ChatModel {
        ChatModel {
            compatibility: self.compatibility,
            started: self.started,
            terminal: self.terminal,
            done: self.done,
            finish_reason: self.finish_reason.deep_view(),
            response_id: self.response_id.deep_view(),
            upstream_model: self.upstream_model.deep_view(),
            usage: self.usage,
            text: self.text.deep_view(),
            reasoning: self.reasoning.deep_view(),
            next_text_index: self.next_text_index,
            next_reasoning_index: self.next_reasoning_index,
            next_content_index: self.next_content_index,
            reasoning_field: self.reasoning_field,
            reasoning_details: self.reasoning_details.deep_view(),
            tools: self.tools.deep_view(),
            tool_indices_by_id: self.tool_indices_by_id.deep_view(),
            next_tool_index: self.next_tool_index,
        }
    }
}

/// The state, the events and the outcome of a piece of a frame.
pub open spec fn step_of(
    session: ChatCompletionsSession,
    events: Vec<GenerationEvent>,
    result: Result<(), GatewayError>,
) -> ChatStep {
    ChatStep {
        state: session.deep_view(),
        events: events.deep_view(),
        error: match result {
            Ok(()) => None,
            Err(error) => Some(error.deep_view()),
        },
    }
}

/// The state and the outcome of a frame.
pub open spec fn ingested_of(
    session: ChatCompletionsSession,
    result: Result<ProtocolUpdate, GatewayError>,
) -> ChatIngested {
    ChatIngested {
        state: session.deep_view(),
        result: match result {
            Ok(update) => Ok(update.deep_view()),
            Err(error) => Err(error.deep_view()),
        },
    }
}

/// The terminal or the error at the end of a stream.
pub open spec fn eof_of(result: Result<Option<ProtocolTerminal>, GatewayError>) -> Result<
    Option<ProtocolTerminalModel>,
    GatewayErrorModel,
> {
    match result {
        Ok(terminal) => Ok(terminal.deep_view()),
        Err(error) => Err(error.deep_view()),
    }
}

impl ChatCompletionsSession {
    pub fn new(compatibility: CompatibilityProfile) -> (session: Self)
        ensures
            session.deep_view() == fresh(compatibility),
    {
        ChatCompletionsSession {
            compatibility,
            started: false,
            terminal: false,
            done: false,
            finish_reason: None,
            response_id: None,
            upstream_model: None,
            usage: Usage::default(),
            text: None,
            reasoning: None,
            next_text_index: 0,
            next_reasoning_index: 0,
            next_content_index: 0,
            reasoning_field: None,
            reasoning_details: None,
            tools: IndexMap::new(),
            tool_indices_by_id: NameMap::new(),
            next_tool_index: 0,
        }
    }

    fn finish_text(&mut self, events: &mut Vec<GenerationEvent>)
        ensures
            (final(self).deep_view(), final(events).deep_view()) == model::finish_text(
                old(self).deep_view(),
                old(events).deep_view(),
            ),
    {
        reveal(model::finish_text);
        match self.text.take() {
            Some(open) => {
                events.push(
                    GenerationEvent::TextFinished {
                        content_index: open.content_index,
                        id: open.id,
                        replay: None,
                    },
                );
            },
            None => {},
        }
    }

    fn finish_reasoning(&mut self, events: &mut Vec<GenerationEvent>)
        ensures
            (final(self).deep_view(), final(events).deep_view()) == model::finish_reasoning(
                old(self).deep_view(),
                old(events).deep_view(),
            ),
    {
        reveal(model::finish_reasoning);
        let replay = self.chat_replay_metadata();
        match self.reasoning.take() {
            Some(open) => {
                events.push(
                    GenerationEvent::ReasoningFinished {
                        content_index: open.content_index,
                        id: open.id,
                        replay,
                    },
                );
            },
            None => {},
        }
    }

    fn finish_open_content(&mut self, events: &mut Vec<GenerationEvent>)
        ensures
            (final(self).deep_view(), final(events).deep_view()) == model::finish_open_content(
                old(self).deep_view(),
                old(events).deep_view(),
            ),
    {
        reveal(model::finish_open_content);
        self.finish_text(events);
        self.finish_reasoning(events);
    }

    fn chat_replay_metadata(&self) -> (metadata: Option<ProviderMetadata>)
        ensures
            metadata.deep_view() == replay_metadata(self.deep_view()),
    {
        if self.reasoning_field.is_some() || self.reasoning_details.is_some() {
            Some(
                ProviderMetadata {
                    chat: Some(
                        ChatReplayMetadata {
                            reasoning_field: self.reasoning_field,
                            reasoning_details: self.reasoning_details.clone(),
                        },
                    ),
                    responses: None,
                },
            )
        } else {
            None
        }
    }

    fn start_text(&mut self, events: &mut Vec<GenerationEvent>) -> (open: OpenContent)
        ensures
            (final(self).deep_view(), final(events).deep_view(), open.deep_view())
                == model::start_text(old(self).deep_view(), old(events).deep_view()),
    {
        reveal(model::start_text);
        self.finish_reasoning(events);
        match &self.text {
            Some(open) => {
                return open.copy();
            },
            None => {},
        }
        let open = OpenContent {
            content_index: self.next_content_index,
            id: joined("text-", decimal(self.next_text_index as u64).as_str()),
        };
        self.next_text_index = self.next_text_index.saturating_add(1);
        self.next_content_index = self.next_content_index.saturating_add(1);
        events.push(
            GenerationEvent::TextStarted {
                content_index: open.content_index,
                id: open.id.clone(),
            },
        );
        self.text = Some(open.copy());
        open
    }

    fn start_reasoning(&mut self, events: &mut Vec<GenerationEvent>) -> (open: OpenContent)
        ensures
            (final(self).deep_view(), final(events).deep_view(), open.deep_view())
                == model::start_reasoning(old(self).deep_view(), old(events).deep_view()),
    {
        reveal(model::start_reasoning);
        self.finish_text(events);
        match &self.reasoning {
            Some(open) => {
                return open.copy();
            },
            None => {},
        }
        let open = OpenContent {
            content_index: self.next_content_index,
            id: joined("reasoning-", decimal(self.next_reasoning_index as u64).as_str()),
        };
        self.next_reasoning_index = self.next_reasoning_index.saturating_add(1);
        self.next_content_index = self.next_content_index.saturating_add(1);
        events.push(
            GenerationEvent::ReasoningStarted {
                content_index: open.content_index,
                id: open.id.clone(),
            },
        );
        self.reasoning = Some(open.copy());
        open
    }

    fn text_part(&mut self, delta: &Json, events: &mut Vec<GenerationEvent>)
        ensures
            (final(self).deep_view(), final(events).deep_view()) == model::text_part(
                old(self).deep_view(),
                delta.deep_view(),
                old(events).deep_view(),
            ),
    {
        reveal(model::text_part);
        match delta.str_at("content") {
            Some(text) => {
                if !text.is_empty() {
                    let open = self.start_text(events);
                    events.push(
                        GenerationEvent::TextDelta {
                            content_index: open.content_index,
                            id: open.id,
                            delta: text.to_owned(),
                        },
                    );
                }
            },
            None => {},
        }
    }

    fn reasoning_part(&mut self, delta: &Json, events: &mut Vec<GenerationEvent>)
        ensures
            (final(self).deep_view(), final(events).deep_view()) == model::reasoning_part(
                old(self).deep_view(),
                delta.deep_view(),
                old(events).deep_view(),
            ),
    {
        reveal(model::reasoning_part);
        match select_reasoning(delta, self.compatibility.reasoning_field) {
            Some((field, reasoning)) => {
                if self.reasoning_field.is_none() {
                    self.reasoning_field = Some(field);
                }
                let open = self.start_reasoning(events);
                events.push(
                    GenerationEvent::ReasoningDelta {
                        content_index: open.content_index,
                        id: open.id,
                        delta: reasoning,
                    },
                );
            },
            None => {},
        }
    }

    fn details_part(&mut self, delta: &Json)
        ensures
            final(self).deep_view() == model::details_part(
                old(self).deep_view(),
                delta.deep_view(),
            ),
    {
        reveal(model::details_part);
        match delta.get("reasoning_details") {
            Some(Json::Null) => {},
            Some(details) => {
                let merged = merge_reasoning_details(self.reasoning_details.take(), details.clone());
                self.reasoning_details = Some(merged);
            },
            None => {},
        }
    }

    fn tool_index(&mut self, raw: &Json, id: &Option<String>, position: usize) -> (index: usize)
        ensures
            (final(self).deep_view(), index) == model::tool_index(
                old(self).deep_view(),
                raw.deep_view(),
                id.deep_view(),
                position,
            ),
    {
        reveal(model::tool_index);
        match raw.u64_at("index") {
            Some(n) => {
                let index = n as usize;
                let next = index.saturating_add(1);
                if next > self.next_tool_index {
                    self.next_tool_index = next;
                }
                index
            },
            None => match id {
                Some(id) => match self.tool_indices_by_id.get(id.as_str()) {
                    Some(index) => index,
                    None => {
                        let index = self.next_tool_index;
                        self.next_tool_index = self.next_tool_index.saturating_add(1);
                        self.tool_indices_by_id.insert(id.as_str(), index);
                        index
                    },
                },
                None => position,
            },
        }
    }

    fn identified_tool(&mut self, raw: &Json, id: Option<String>, position: usize) -> (found: (
        usize,
        ToolAccumulator,
    ))
        ensures
            (final(self).deep_view(), found.0, found.1.deep_view()) == model::identified_tool(
                old(self).deep_view(),
                raw.deep_view(),
                id.deep_view(),
                position,
            ),
    {
        reveal(model::identified_tool);
        let index = self.tool_index(raw, &id, position);
        let mut tool = match self.tools.get(index) {
            Some(tool) => tool.copy(),
            None => ToolAccumulator::default(),
        };
        match id {
            Some(id) => {
                self.tool_indices_by_id.insert(id.as_str(), index);
                tool.id = id;
            },
            None => {},
        }
        (index, tool)
    }

    fn accumulate_tool(
        &mut self,
        raw: &Json,
        fallback_index: usize,
        events: &mut Vec<GenerationEvent>,
    ) -> (result: Result<(), GatewayError>)
        ensures
            step_of(*final(self), *final(events), result) == model::accumulate_tool(
                old(self).deep_view(),
                raw.deep_view(),
                fallback_index,
                old(events).deep_view(),
            ),
    {
        reveal(model::accumulate_tool);
        let allow_null = self.compatibility.allow_nullable_tool_fields;
        let absent = Json::Null;
        let function = match raw.get("function") {
            Some(function) => function,
            None => &absent,
        };
        let id = match optional_tool_string(raw, "id", allow_null) {
            Ok(id) => id,
            Err(error) => {
                return Err(error);
            },
        };
        let (index, tool) = self.identified_tool(raw, id, fallback_index);
        match optional_tool_string(function, "name", allow_null) {
            Ok(name) => {
                let tool = tool.named(name);
                self.tool_arguments(index, tool, function, events)
            },
            Err(error) => {
                self.tools.insert(index, tool);
                Err(error)
            },
        }
    }

    fn start_tool(&mut self, index: usize, tool: &mut ToolAccumulator, events: &mut Vec<GenerationEvent>)
        ensures
            (final(self).deep_view(), final(tool).deep_view(), final(events).deep_view())
                == model::start_tool(
                old(self).deep_view(),
                index,
                old(tool).deep_view(),
                old(events).deep_view(),
            ),
    {
        reveal(model::start_tool);
        if !tool.started {
            tool.started = true;
            tool.content_index = Some(self.next_content_index);
            events.push(
                GenerationEvent::ToolCallStarted {
                    content_index: self.next_content_index,
                    index,
                    id: call_id(tool.id.as_str(), index),
                    name: tool.name.clone(),
                },
            );
            self.next_content_index = self.next_content_index.saturating_add(1);
        }
    }

    fn tool_arguments(
        &mut self,
        index: usize,
        tool: ToolAccumulator,
        function: &Json,
        events: &mut Vec<GenerationEvent>,
    ) -> (result: Result<(), GatewayError>)
        ensures
            step_of(*final(self), *final(events), result) == model::tool_arguments(
                old(self).deep_view(),
                index,
                tool.deep_view(),
                function.deep_view(),
                old(events).deep_view(),
            ),
    {
        reveal(model::tool_arguments);
        let compatibility = self.compatibility;
        let mut tool = tool;
        self.start_tool(index, &mut tool, events);
        let arguments = match function.get("arguments") {
            Some(arguments) => arguments,
            None => {
                self.tools.insert(index, tool);
                return Ok(());
            },
        };
        let fragment = match fragment_of(arguments, compatibility) {
            Ok(fragment) => fragment,
            Err(error) => {
                self.tools.insert(index, tool);
                return Err(error);
            },
        };
        tool.arguments.append(fragment.as_str());
        let content_index = tool.content_index;
        self.tools.insert(index, tool);
        if !fragment.as_str().is_empty() {
            match content_index {
                Some(content_index) => {
                    events.push(
                        GenerationEvent::ToolCallDelta { content_index, index, delta: fragment },
                    );
                },
                None => {
                    return Err(
                        GatewayError::protocol("started tool call is missing its content index"),
                    );
                },
            }
        }
        Ok(())
    }

    fn tools_part(&mut self, delta: &Json, events: &mut Vec<GenerationEvent>) -> (result: Result<
        (),
        GatewayError,
    >)
        ensures
            step_of(*final(self), *final(events), result) == model::tools_part(
                old(self).deep_view(),
                delta.deep_view(),
                old(events).deep_view(),
            ),
    {
        reveal(model::tools_part);
        let calls = match delta.array_at("tool_calls") {
            Some(calls) => calls,
            None => {
                return Ok(());
            },
        };
        if calls.len() == 0 {
            return Ok(());
        }
        self.finish_open_content(events);
        let ghost all = model::tools_part(
            old(self).deep_view(),
            delta.deep_view(),
            old(events).deep_view(),
        );
        let ghost items = calls.deep_view();
        let mut position: usize = 0;
        while position < calls.len()
            invariant
                items == calls.deep_view(),
                position <= calls.len(),
                all == model::tools_part(
                    old(self).deep_view(),
                    delta.deep_view(),
                    old(events).deep_view(),
                ),
                all == model::accumulate_tools(
                    self.deep_view(),
                    items,
                    position as int,
                    events.deep_view(),
                ),
            decreases calls.len() - position,
        {
            proof {
                assert(items[position as int] == calls@[position as int].deep_view());
            }
            match self.accumulate_tool(&calls[position], position, events) {
                Ok(()) => {},
                Err(error) => {
                    return Err(error);
                },
            }
            position += 1;
        }
        Ok(())
    }

    fn finish_parts(&mut self, events: &mut Vec<GenerationEvent>) -> (result: Result<
        (),
        GatewayError,
    >)
        ensures
            step_of(*final(self), *final(events), result) == model::finish_parts(
                old(self).deep_view(),
                old(events).deep_view(),
            ),
    {
        reveal(model::finish_parts);
        self.finish_open_content(events);
        let ghost tools = self.tools.deep_view();
        let ghost closed = self.deep_view();
        let ghost all = model::finish_tools(tools, 0, events.deep_view());
        let count = self.tools.len();
        let mut i: usize = 0;
        while i < count
            invariant
                tools == self.tools.deep_view(),
                self.deep_view() == closed,
                count == tools.len(),
                i <= count,
                all == model::finish_tools(tools, i as int, events.deep_view()),
                model::finish_parts(old(self).deep_view(), old(events).deep_view()) == (ChatStep {
                    state: closed,
                    events: all.0,
                    error: all.1,
                }),
            decreases count - i,
        {
            let index = self.tools.key_at(i);
            let tool = self.tools.value_at(i);
            match tool.content_index {
                Some(content_index) => {
                    events.push(finished_tool(index, tool, content_index));
                },
                None => {
                    return Err(
                        GatewayError::protocol("finished tool call is missing its content index"),
                    );
                },
            }
            i += 1;
        }
        Ok(())
    }

    fn take_terminal(&mut self) -> (terminal: Option<ProtocolTerminal>)
        ensures
            (final(self).deep_view(), terminal.deep_view()) == model::take_terminal(
                old(self).deep_view(),
            ),
    {
        reveal(model::take_terminal);
        if self.terminal {
            return None;
        }
        let finish_reason = match &self.finish_reason {
            Some(reason) => reason.clone(),
            None => {
                return None;
            },
        };
        let provider_metadata = match self.chat_replay_metadata() {
            Some(metadata) => metadata,
            None => ProviderMetadata::default(),
        };
        self.terminal = true;
        Some(
            ProtocolTerminal {
                status: ProtocolTerminalStatus::Completed,
                finish_reason,
                usage: self.usage,
                response_id: self.response_id.clone(),
                upstream_model: self.upstream_model.clone(),
                provider_metadata,
                error: None,
            },
        )
    }

    fn frame_head(&mut self, value: &Json, events: &mut Vec<GenerationEvent>)
        requires
            old(events).deep_view().len() == 0,
        ensures
            (final(self).deep_view(), final(events).deep_view()) == model::frame_head(
                old(self).deep_view(),
                value.deep_view(),
            ),
    {
        reveal(model::frame_head);
        match value.str_at("id") {
            Some(id) => {
                self.response_id = Some(id.to_owned());
            },
            None => {},
        }
        match value.str_at("model") {
            Some(name) => {
                self.upstream_model = Some(name.to_owned());
            },
            None => {},
        }
        proof {
            assert(events.deep_view() =~= Seq::<GenerationEventModel>::empty());
        }
        if !self.started {
            self.started = true;
            events.push(
                GenerationEvent::Started(
                    StreamMetadata {
                        response_id: self.response_id.clone(),
                        upstream_model: self.upstream_model.clone(),
                    },
                ),
            );
        }
        match value.get("usage") {
            Some(usage) => {
                if usage.is_object() {
                    self.usage = parse_chat_usage(usage);
                    events.push(GenerationEvent::UsageUpdated(self.usage));
                }
            },
            None => {},
        }
    }

    fn apply_delta(&mut self, delta: &Json, events: &mut Vec<GenerationEvent>) -> (result: Result<
        (),
        GatewayError,
    >)
        ensures
            step_of(*final(self), *final(events), result) == model::apply_delta(
                old(self).deep_view(),
                delta.deep_view(),
                old(events).deep_view(),
            ),
    {
        reveal(model::apply_delta);
        self.text_part(delta, events);
        self.reasoning_part(delta, events);
        self.details_part(delta);
        self.tools_part(delta, events)
    }

    fn apply_choice(&mut self, choice: &Json, events: &mut Vec<GenerationEvent>) -> (result: Result<
        (),
        GatewayError,
    >)
        ensures
            step_of(*final(self), *final(events), result) == model::apply_choice(
                old(self).deep_view(),
                choice.deep_view(),
                old(events).deep_view(),
            ),
    {
        reveal(model::apply_choice);
        match choice.get("delta") {
            Some(delta) => match self.apply_delta(delta, events) {
                Ok(()) => {},
                Err(error) => {
                    return Err(error);
                },
            },
            None => {},
        }
        match choice.str_at("finish_reason") {
            Some(reason) => {
                self.finish_reason = Some(parse_finish_reason(reason));
                self.finish_parts(events)
            },
            None => Ok(()),
        }
    }

    /// One frame of the stream.
    pub fn ingest(&mut self, data: &str) -> (result: Result<ProtocolUpdate, GatewayError>)
        ensures
            ingested_of(*final(self), result) == model::ingest(old(self).deep_view(), data@),
    {
        if same_text(data, "[DONE]") {
            self.done = true;
            return self.maybe_terminal();
        }
        if self.terminal {
            return Err(GatewayError::protocol("chat stream emitted data after terminal event"));
        }
        match parse_json(data) {
            Some(value) => self.ingest_value(&value, data),
            None => Err(GatewayError::protocol("invalid Chat Completions stream JSON")),
        }
    }

    /// One JSON frame of the stream. `data` is its text.
    pub fn ingest_value(&mut self, value: &Json, data: &str) -> (result: Result<
        ProtocolUpdate,
        GatewayError,
    >)
        ensures
            ingested_of(*final(self), result) == model::ingest_value(
                old(self).deep_view(),
                value.deep_view(),
                data@,
            ),
    {
        match value.get("error") {
            Some(error) => {
                return Err(provider_error(error).with_upstream_body(data));
            },
            None => {},
        }
        let mut events: Vec<GenerationEvent> = Vec::new();
        self.frame_head(value, &mut events);
        let choice = match value.array_at("choices") {
            Some(choices) => if choices.len() > 0 {
                Some(&choices[0])
            } else {
                None
            },
            None => None,
        };
        match choice {
            Some(choice) => match self.apply_choice(choice, &mut events) {
                Ok(()) => {},
                Err(error) => {
                    return Err(error);
                },
            },
            None => {},
        }
        let terminal = if self.done {
            self.take_terminal()
        } else {
            None
        };
        Ok(ProtocolUpdate { events, terminal })
    }

    fn maybe_terminal(&mut self) -> (result: Result<ProtocolUpdate, GatewayError>)
        ensures
            result is Ok,
            result->Ok_0.deep_view().events == Seq::<GenerationEventModel>::empty(),
            (final(self).deep_view(), result->Ok_0.deep_view().terminal) == model::take_terminal(
                old(self).deep_view(),
            ),
    {
        let terminal = self.take_terminal();
        Ok(ProtocolUpdate { events: Vec::new(), terminal })
    }

    /// The stream is over. Without a finish reason the answer is incomplete.
    pub fn finish_eof(&mut self) -> (result: Result<Option<ProtocolTerminal>, GatewayError>)
        ensures
            (final(self).deep_view(), eof_of(result)) == model::finish_eof(old(self).deep_view()),
    {
        if self.terminal {
            Ok(None)
        } else if self.finish_reason.is_some() {
            Ok(self.take_terminal())
        } else {
            Err(
                GatewayError::protocol(
                    "Chat Completions stream ended without a valid finish reason",
                ),
            )
        }
    }
}

fn finished_tool(index: usize, tool: &ToolAccumulator, content_index: usize) -> (event:
    GenerationEvent)
    ensures
        event.deep_view() == tool_finished(index, tool.deep_view(), content_index),
{
    let arguments = match parse_json(tool.arguments.as_str()) {
        Some(value) => value,
        None => Json::Str(tool.arguments.clone()),
    };
    let tool_call = ToolCall {
        id: call_id(tool.id.as_str(), index),
        name: tool.name.clone(),
        arguments,
        raw_arguments: tool.arguments.clone(),
        provider_metadata: ProviderMetadata::default(),
    };
    GenerationEvent::ToolCallFinished { content_index, index, tool_call: Box::new(tool_call) }
}

fn fragment_of(arguments: &Json, compatibility: CompatibilityProfile) -> (result: Result<
    String,
    GatewayError,
>)
    ensures
        match result {
            Ok(text) => argument_fragment(arguments.deep_view(), compatibility) == Ok::<
                Seq<char>,
                GatewayErrorModel,
            >(text@),
            Err(error) => argument_fragment(arguments.deep_view(), compatibility) == Err::<
                Seq<char>,
                GatewayErrorModel,
            >(error.deep_view()),
        },
{
    match arguments {
        Json::Str(text) => Ok(text.clone()),
        Json::Object(_) => if compatibility.allow_object_tool_arguments {
            Ok(arguments.to_text())
        } else {
            Err(GatewayError::protocol("tool arguments must be a string or configured object"))
        },
        Json::Null => if compatibility.allow_nullable_tool_fields {
            Ok(String::new())
        } else {
            Err(GatewayError::protocol("tool arguments must be a string or configured object"))
        },
        _ => Err(GatewayError::protocol("tool arguments must be a string or configured object")),
    }
}

pub fn optional_tool_string(value: &Json, field: &str, allow_null: bool) -> (result: Result<
    Option<String>,
    GatewayError,
>)
    ensures
        match result {
            Ok(text) => tool_string(value.deep_view(), field@, allow_null) == Ok::<
                Option<Seq<char>>,
                GatewayErrorModel,
            >(text.deep_view()),
            Err(error) => tool_string(value.deep_view(), field@, allow_null) == Err::<
                Option<Seq<char>>,
                GatewayErrorModel,
            >(error.deep_view()),
        },
{
    reveal(tool_string);
    match value.get(field) {
        None => Ok(None),
        Some(Json::Str(text)) => Ok(Some(text.clone())),
        Some(Json::Null) => if allow_null {
            Ok(None)
        } else {
            let mut message = joined("tool ", field);
            message.append(" must not be null");
            Err(GatewayError::protocol(message.as_str()))
        },
        Some(_) => {
            let mut message = joined("tool ", field);
            message.append(" must be a string");
            Err(GatewayError::protocol(message.as_str()))
        },
    }
}

pub fn merge_reasoning_details(current: Option<Json>, next: Json) -> (merged: Json)
    ensures
        merged.deep_view() == merged_details(current.deep_view(), next.deep_view()),
{
    broadcast use crate::json::group_json;

    match (current, next) {
        (Some(Json::Array(items)), Json::Array(more)) => {
            let mut items = items;
            let mut more = more;
            items.append(&mut more);
            Json::Array(items)
        },
        (_, next) => next,
    }
}

fn reasoning_of(delta: &Json, field: ChatReasoningField) -> (found: Option<
    (ChatReasoningField, String),
>)
    ensures
        match found {
            Some((name, text)) => reasoning_in(delta.deep_view(), field) == Some((name, text@)),
            None => reasoning_in(delta.deep_view(), field) is None,
        },
{
    match delta.str_at(field.as_str()) {
        Some(text) => if text.is_empty() {
            None
        } else {
            Some((field, text.to_owned()))
        },
        None => None,
    }
}

pub fn select_reasoning(delta: &Json, policy: ReasoningField) -> (found: Option<
    (ChatReasoningField, String),
>)
    ensures
        match found {
            Some((name, text)) => selected_reasoning(delta.deep_view(), policy) == Some(
                (name, text@),
            ),
            None => selected_reasoning(delta.deep_view(), policy) is None,
        },
{
    match policy {
        ReasoningField::Auto => match reasoning_of(delta, ChatReasoningField::ReasoningContent) {
            Some(found) => Some(found),
            None => match reasoning_of(delta, ChatReasoningField::Reasoning) {
                Some(found) => Some(found),
                None => reasoning_of(delta, ChatReasoningField::ReasoningText),
            },
        },
        ReasoningField::ReasoningContent => reasoning_of(
            delta,
            ChatReasoningField::ReasoningContent,
        ),
        ReasoningField::Reasoning => reasoning_of(delta, ChatReasoningField::Reasoning),
        ReasoningField::ReasoningText => reasoning_of(delta, ChatReasoningField::ReasoningText),
    }
}

pub fn parse_finish_reason(reason: &str) -> (result: FinishReason)
    ensures
        result.deep_view() == finish_reason_of(reason@),
{
    if same_text(reason, "stop") {
        FinishReason::Stop
    } else if same_text(reason, "length") {
        FinishReason::Length
    } else if same_text(reason, "tool_calls") || same_text(reason, "function_call") {
        FinishReason::ToolCalls
    } else if same_text(reason, "content_filter") {
        FinishReason::ContentFilter
    } else {
        FinishReason::Other(reason.to_owned())
    }
}

pub fn parse_chat_usage(value: &Json) -> (usage: Usage)
    ensures
        usage == chat_usage(value.deep_view()),
{
    reveal(chat_usage);
    let total_input = value.u64_at("prompt_tokens").unwrap_or(0);
    let output = value.u64_at("completion_tokens").unwrap_or(0);
    let cache_read = match value.u64_at2("prompt_tokens_details", "cached_tokens") {
        Some(n) => n,
        None => value.u64_at("prompt_cache_hit_tokens").unwrap_or(0),
    };
    let cache_write = value.u64_at2("prompt_tokens_details", "cache_write_tokens").unwrap_or(0);
    Usage {
        provenance: UsageProvenance::Reported,
        input_tokens: total_input.saturating_sub(cache_read.saturating_add(cache_write)),
        cache_read_tokens: cache_read,
        cache_write_tokens: cache_write,
        output_tokens: output,
        reasoning_tokens: value.u64_at2(
            "completion_tokens_details",
            "reasoning_tokens",
        ).unwrap_or(0),
        total_tokens: value.u64_at("total_tokens").unwrap_or(total_input.saturating_add(output)),
    }
}

pub fn provider_error(error: &Json) -> (result: GatewayError)
    ensures
        result.deep_view() == provider_error_of(error.deep_view()),
{
    GatewayError::provider(
        "provider rejected the request",
        allowlisted_provider_code(error.get("code")),
    )
}

} // verus!
