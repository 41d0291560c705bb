//! What a session makes of the frames of a Responses stream.

use vstd::prelude::*;
use vstd::string::*;

use crate::json::{parse_json, Json};
use crate::llm::error::{allowlisted_provider_token, protocol_error, GatewayError};
use crate::llm::event::{FinishReason, GenerationEvent, StreamMetadata};
use crate::llm::model::{ProviderMetadata, ResponsesReplayMetadata, Usage};
use crate::llm::protocol::responses::model;
use crate::llm::protocol::responses::model::{fresh, started_event, terminal_of};
use crate::llm::protocol::responses::state::{
    ingested_of, reasoning_name, refusal_of, step_of, text_name, ResponsesSession,
};
use crate::llm::protocol::responses::wire::{
    kind_of_event, output_index, parse_responses_usage, required_string, requires_output_index,
    response_failure, EventKind, OutputKind,
};
use crate::llm::protocol::{
    CompatibilityProfile, ProtocolTerminal, ProtocolTerminalStatus, ProtocolUpdate,
};
use crate::ordered::{IndexMap, IndexSet};
use crate::text::{joined, same_text};

verus! {

broadcast use crate::deep::group_models;

impl ResponsesSession {
    pub fn new(compatibility: CompatibilityProfile) -> (session: Self)
        ensures
            session.deep_view() == fresh(compatibility),
    {
        ResponsesSession {
            compatibility,
            started: false,
            terminal: false,
            response_id: None,
            upstream_model: None,
            usage: Usage::default(),
            functions: IndexMap::new(),
            finished_function_arguments: IndexSet::new(),
            finished_functions: IndexSet::new(),
            output_kinds: IndexMap::new(),
            finished_outputs: IndexSet::new(),
            open_text: IndexMap::new(),
            text_buffers: IndexMap::new(),
            finished_text: IndexSet::new(),
            open_reasoning: IndexMap::new(),
            reasoning_buffers: IndexMap::new(),
            finished_reasoning: IndexSet::new(),
            reasoning_replay: IndexMap::new(),
        }
    }

    fn started(&self) -> (event: GenerationEvent)
        ensures
            event.deep_view() == started_event(self.deep_view()),
    {
        GenerationEvent::Started(
            StreamMetadata {
                response_id: self.response_id.clone(),
                upstream_model: self.upstream_model.clone(),
            },
        )
    }

    fn text_delta(&mut self, value: &Json, events: &mut Vec<GenerationEvent>) -> (result: Result<
        (),
        GatewayError,
    >)
        ensures
            step_of(*final(self), *final(events), result) == model::text_delta(
                old(self).deep_view(),
                value.deep_view(),
                old(events).deep_view(),
            ),
    {
        reveal(model::text_delta);
        let index = match self.require_output_kind(value, OutputKind::Message) {
            Ok(index) => index,
            Err(error) => {
                return Err(error);
            },
        };
        let delta = match required_string(value, "delta", "Responses text delta is not a string") {
            Ok(delta) => delta,
            Err(error) => {
                return Err(error);
            },
        };
        if self.finished_text.contains(index) {
            return Err(
                GatewayError::protocol("Responses text delta arrived after content completion"),
            );
        }
        let mut buffer = match self.text_buffers.get(index) {
            Some(text) => text.clone(),
            None => String::new(),
        };
        buffer.append(delta);
        self.text_buffers.insert(index, buffer);
        let open = match self.open_text.get(index) {
            Some(id) => Some(id.clone()),
            None => None,
        };
        let id = match open {
            Some(id) => id,
            None => {
                self.open_text.insert(index, text_name(index));
                events.push(
                    GenerationEvent::TextStarted { content_index: index, id: text_name(index) },
                );
                text_name(index)
            },
        };
        events.push(GenerationEvent::TextDelta { content_index: index, id, delta: delta.to_owned() });
        Ok(())
    }

    fn reasoning_delta(&mut self, value: &Json, events: &mut Vec<GenerationEvent>) -> (result:
        Result<(), GatewayError>)
        ensures
            step_of(*final(self), *final(events), result) == model::reasoning_delta(
                old(self).deep_view(),
                value.deep_view(),
                old(events).deep_view(),
            ),
    {
        reveal(model::reasoning_delta);
        let index = match self.require_output_kind(value, OutputKind::Reasoning) {
            Ok(index) => index,
            Err(error) => {
                return Err(error);
            },
        };
        let delta = match required_string(
            value,
            "delta",
            "Responses reasoning delta is not a string",
        ) {
            Ok(delta) => delta,
            Err(error) => {
                return Err(error);
            },
        };
        if self.finished_reasoning.contains(index) {
            return Err(
                GatewayError::protocol(
                    "Responses reasoning delta arrived after reasoning completion",
                ),
            );
        }
        let mut buffer = match self.reasoning_buffers.get(index) {
            Some(text) => text.clone(),
            None => String::new(),
        };
        buffer.append(delta);
        self.reasoning_buffers.insert(index, buffer);
        let open = match self.open_reasoning.get(index) {
            Some(id) => Some(id.clone()),
            None => None,
        };
        let id = match open {
            Some(id) => id,
            None => {
                self.open_reasoning.insert(index, reasoning_name(index));
                events.push(
                    GenerationEvent::ReasoningStarted {
                        content_index: index,
                        id: reasoning_name(index),
                    },
                );
                reasoning_name(index)
            },
        };
        events.push(
            GenerationEvent::ReasoningDelta { content_index: index, id, delta: delta.to_owned() },
        );
        Ok(())
    }

    fn summary_part_done(&mut self, value: &Json, events: &mut Vec<GenerationEvent>) -> (result:
        Result<(), GatewayError>)
        ensures
            step_of(*final(self), *final(events), result) == model::summary_part_done(
                old(self).deep_view(),
                value.deep_view(),
                old(events).deep_view(),
            ),
    {
        reveal(model::summary_part_done);
        let index = match self.require_output_kind(value, OutputKind::Reasoning) {
            Ok(index) => index,
            Err(error) => {
                return Err(error);
            },
        };
        let id = match self.open_reasoning.get(index) {
            Some(id) => id.clone(),
            None => {
                return Ok(());
            },
        };
        let mut buffer = match self.reasoning_buffers.get(index) {
            Some(text) => text.clone(),
            None => String::new(),
        };
        buffer.append("\n\n");
        self.reasoning_buffers.insert(index, buffer);
        events.push(
            GenerationEvent::ReasoningDelta { content_index: index, id, delta: "\n\n".to_owned() },
        );
        Ok(())
    }

    fn text_done(&self, value: &Json, field: &str) -> (result: Result<(), GatewayError>)
        ensures
            refusal_of(result) == model::text_refusal(self.deep_view(), value.deep_view(), field@),
    {
        match self.require_output_kind(value, OutputKind::Message) {
            Ok(_) => self.capture_text_done(value, field),
            Err(error) => Err(error),
        }
    }

    fn item_checked(&self, value: &Json, expected: OutputKind) -> (result: Result<
        (),
        GatewayError,
    >)
        ensures
            refusal_of(result) == model::item_refusal(self.deep_view(), value.deep_view(), expected),
    {
        match self.require_output_kind(value, expected) {
            Ok(_) => Ok(()),
            Err(error) => Err(error),
        }
    }

    /// Closes what is open, counts the usage and ends the session.
    fn close_response(&mut self, value: &Json, events: &mut Vec<GenerationEvent>)
        ensures
            (final(self).deep_view(), final(events).deep_view()) == model::ended(
                old(self).deep_view(),
                value.deep_view(),
                old(events).deep_view(),
            ),
    {
        reveal(model::ended);
        self.close_open_parts(events);
        let usage = match value.get2("response", "usage") {
            Some(usage) => Some(usage),
            None => value.get("usage"),
        };
        match usage {
            Some(usage) => {
                if usage.is_object() {
                    self.usage = parse_responses_usage(usage);
                    events.push(GenerationEvent::UsageUpdated(self.usage));
                }
            },
            None => {},
        }
        self.terminal = true;
    }

    fn terminal(
        &self,
        status: ProtocolTerminalStatus,
        finish_reason: FinishReason,
        error: Option<GatewayError>,
    ) -> (terminal: ProtocolTerminal)
        ensures
            terminal.deep_view() == terminal_of(
                self.deep_view(),
                status,
                finish_reason.deep_view(),
                error.deep_view(),
            ),
    {
        let responses = ResponsesReplayMetadata {
            response_id: self.response_id.clone(),
            item_id: None,
            message_id: None,
            call_id: None,
            encrypted_reasoning: None,
        };
        ProtocolTerminal {
            status,
            finish_reason,
            usage: self.usage,
            response_id: self.response_id.clone(),
            upstream_model: self.upstream_model.clone(),
            provider_metadata: ProviderMetadata { chat: None, responses: Some(responses) },
            error,
        }
    }

    /// Ends a response, with the reason and the error given, or a reason found in the output.
    fn finish_response(
        &mut self,
        value: &Json,
        status: ProtocolTerminalStatus,
        reason: Option<FinishReason>,
        error: Option<GatewayError>,
        events: Vec<GenerationEvent>,
    ) -> (result: Result<ProtocolUpdate, GatewayError>)
        ensures
            ingested_of(*final(self), result) == model::ends(
                old(self).deep_view(),
                value.deep_view(),
                status,
                reason.deep_view(),
                error.deep_view(),
                events.deep_view(),
            ),
    {
        reveal(model::ends);
        let mut events = events;
        self.capture_response(value);
        match self.capture_terminal_output(value, &mut events) {
            Ok(()) => {},
            Err(failure) => {
                return Err(failure);
            },
        }
        self.close_response(value, &mut events);
        let finish_reason = match reason {
            Some(reason) => reason,
            None => if self.finished_functions.is_empty() {
                FinishReason::Stop
            } else {
                FinishReason::ToolCalls
            },
        };
        let terminal = self.terminal(status, finish_reason, error);
        Ok(ProtocolUpdate { events, terminal: Some(terminal) })
    }

    /// Ends a response that failed.
    fn failed_terminal(
        &mut self,
        value: &Json,
        finish_reason: FinishReason,
        error: GatewayError,
        events: Vec<GenerationEvent>,
    ) -> (result: Result<ProtocolUpdate, GatewayError>)
        ensures
            ingested_of(*final(self), result) == model::ends(
                old(self).deep_view(),
                value.deep_view(),
                ProtocolTerminalStatus::Failed,
                Some(finish_reason.deep_view()),
                Some(error.deep_view()),
                events.deep_view(),
            ),
    {
        self.finish_response(
            value,
            ProtocolTerminalStatus::Failed,
            Some(finish_reason),
            Some(error),
            events,
        )
    }

    /// One frame of the stream.
    pub fn ingest(&mut self, data: &str) -> (result: Result<ProtocolUpdate, GatewayError>)
        ensures
            ingested_of(*final(self), result) == model::ingest(old(self).deep_view(), data@),
    {
        if self.terminal {
            return Err(
                GatewayError::protocol("Responses stream emitted data after terminal event"),
            );
        }
        match parse_json(data) {
            Some(value) => self.ingest_value(&value, data),
            None => Err(GatewayError::protocol("invalid Responses stream JSON")),
        }
    }

    /// One event of the stream. `data` is the frame that it was read from.
    pub fn ingest_value(&mut self, value: &Json, data: &str) -> (result: Result<
        ProtocolUpdate,
        GatewayError,
    >)
        ensures
            ingested_of(*final(self), result) == model::ingest_value(
                old(self).deep_view(),
                value.deep_view(),
                data@,
            ),
    {
        let event_type = match value.str_at("type") {
            Some(event_type) => event_type,
            None => {
                return Err(GatewayError::protocol("Responses event is missing type"));
            },
        };
        let kind = kind_of_event(event_type);
        let first = match kind {
            EventKind::Created
            | EventKind::Completed
            | EventKind::Incomplete
            | EventKind::Failed => true,
            _ => false,
        };
        if !self.started && !first {
            return Err(GatewayError::protocol("Responses event arrived before response.created"));
        }
        if requires_output_index(event_type) && value.u64_at("output_index").is_none() {
            return Err(GatewayError::protocol("Responses output event is missing output_index"));
        }
        let mut events: Vec<GenerationEvent> = Vec::new();
        if !self.started && (same_text(event_type, "response.completed") || same_text(
            event_type,
            "response.incomplete",
        ) || same_text(event_type, "response.failed")) {
            self.capture_response(value);
            self.started = true;
            events.push(self.started());
            proof {
                assert(events.deep_view() =~= seq![started_event(self.deep_view())]);
            }
        }
        self.dispatch(event_type, kind, value, data, events)
    }

    fn dispatch(
        &mut self,
        event_type: &str,
        kind: EventKind,
        value: &Json,
        data: &str,
        events: Vec<GenerationEvent>,
    ) -> (result: Result<ProtocolUpdate, GatewayError>)
        ensures
            ingested_of(*final(self), result) == model::dispatch(
                old(self).deep_view(),
                event_type@,
                kind,
                value.deep_view(),
                data@,
                events.deep_view(),
            ),
    {
        reveal(model::dispatch);
        let mut events = events;
        let result = match kind {
            EventKind::Created => {
                if self.started {
                    return Err(
                        GatewayError::protocol(
                            "Responses stream emitted response.created more than once",
                        ),
                    );
                }
                self.capture_response(value);
                self.started = true;
                events.push(self.started());
                Ok(())
            },
            EventKind::InProgress => {
                self.capture_response(value);
                Ok(())
            },
            EventKind::ItemAdded => self.item_added(value, &mut events),
            EventKind::TextDelta => self.text_delta(value, &mut events),
            EventKind::TextDone => self.text_done(value, "text"),
            EventKind::RefusalDone => self.text_done(value, "refusal"),
            EventKind::ReasoningDelta => self.reasoning_delta(value, &mut events),
            EventKind::ReasoningDone => self.item_checked(value, OutputKind::Reasoning),
            EventKind::SummaryPartDone => self.summary_part_done(value, &mut events),
            EventKind::ArgumentsDelta => self.function_delta(value, &mut events),
            EventKind::ArgumentsDone => self.function_done(value),
            EventKind::ItemDone => self.item_done(value, &mut events),
            EventKind::ContentPart => if self.output_kinds.contains_key(output_index(value)) {
                Ok(())
            } else {
                Err(
                    GatewayError::protocol(
                        "Responses content part event arrived before output item was added",
                    ),
                )
            },
            EventKind::Completed => {
                return self.finish_response(
                    value,
                    ProtocolTerminalStatus::Completed,
                    None,
                    None,
                    events,
                );
            },
            EventKind::Incomplete => {
                let reason = match value.get2("response", "incomplete_details") {
                    Some(details) => match details.str_at("reason") {
                        Some(reason) => allowlisted_provider_token(reason),
                        None => None,
                    },
                    None => None,
                };
                let reason = match reason {
                    Some(reason) => reason,
                    None => "unknown".to_owned(),
                };
                let error = GatewayError::provider(
                    "provider response was incomplete",
                    Some("response_incomplete".to_owned()),
                ).with_upstream_body(data);
                return self.failed_terminal(value, FinishReason::Incomplete(reason), error, events);
            },
            EventKind::Failed => {
                let error = response_failure(value).with_upstream_body(data);
                return self.failed_terminal(
                    value,
                    FinishReason::Other("failed".to_owned()),
                    error,
                    events,
                );
            },
            EventKind::Lifecycle => Ok(()),
            EventKind::Unknown => Err(
                GatewayError::protocol(joined("unknown Responses event type: ", event_type).as_str()),
            ),
        };
        match result {
            Ok(()) => Ok(ProtocolUpdate::events(events)),
            Err(error) => Err(error),
        }
    }

    /// The stream is over. A response that did not end before has failed.
    pub fn finish_eof(&mut self) -> (result: Result<Option<ProtocolTerminal>, GatewayError>)
        ensures
            *final(self) == *old(self),
            match result {
                Ok(terminal) => old(self).deep_view().terminal && terminal is None,
                Err(error) => !old(self).deep_view().terminal && error.deep_view()
                    == protocol_error("Responses stream ended without response.completed"@),
            },
    {
        if self.terminal {
            Ok(None)
        } else {
            Err(GatewayError::protocol("Responses stream ended without response.completed"))
        }
    }
}

} // verus!
