//! What holds of every Responses stream.

use vstd::prelude::*;

use crate::json::{find_member, parsed_json, JsonModel};
use crate::llm::error::{provider_failure, with_body, GatewayErrorModel};
use crate::llm::event::{no_terminal_event, FinishReasonModel, GenerationEventModel};
use crate::llm::model::{ContentBlockModel, ToolCallModel, ToolResultModel};
use crate::llm::protocol::responses::encoding::{non_text_item, normalized_id};
use crate::llm::protocol::responses::model::{
    capture_message_item, capture_reasoning_item, capture_reasoning_replay, capture_response,
    capture_terminal_output, close_open_parts, dispatch, ended, ends, finish_each,
    finish_other_reasoning, finish_reasoning, function_delta, function_done, incomplete_reason,
    ingest, ingest_value, item_added, item_content, item_finished, keys_except, reasoning_delta,
    started_event, summary_part_done, terminal_item, terminal_items, text_delta, ResponsesModel,
};
use crate::llm::protocol::responses::wire::{
    event_kind, failure_of, index_of, item_kind, EventKind, OutputKind,
};
use crate::llm::protocol::ProtocolTerminalStatus;
use crate::ordered::put;
use crate::text::is_blank;

verus! {

/// Whether a piece of an event leaves the end of the session where it was and reports no terminal
/// event of its own.
pub open spec fn goes_on(
    before: ResponsesModel,
    events: Seq<GenerationEventModel>,
    after: ResponsesModel,
    reported: Seq<GenerationEventModel>,
) -> bool {
    &&& after.terminal == before.terminal
    &&& no_terminal_event(events) ==> no_terminal_event(reported)
}

proof fn lemma_finish_reasoning(
    state: ResponsesModel,
    index: usize,
    events: Seq<GenerationEventModel>,
)
    ensures
        goes_on(
            state,
            events,
            finish_reasoning(state, index, events).0,
            finish_reasoning(state, index, events).1,
        ),
{
    reveal(finish_reasoning);
}

proof fn lemma_finish_each(
    state: ResponsesModel,
    indices: Seq<usize>,
    start: int,
    events: Seq<GenerationEventModel>,
)
    ensures
        goes_on(
            state,
            events,
            finish_each(state, indices, start, events).0,
            finish_each(state, indices, start, events).1,
        ),
    decreases indices.len() - start,
{
    if 0 <= start < indices.len() {
        lemma_finish_reasoning(state, indices[start], events);
        let (next, reported) = finish_reasoning(state, indices[start], events);
        lemma_finish_each(next, indices, start + 1, reported);
    }
}

proof fn lemma_finish_other_reasoning(
    state: ResponsesModel,
    index: usize,
    events: Seq<GenerationEventModel>,
)
    ensures
        goes_on(
            state,
            events,
            finish_other_reasoning(state, index, events).0,
            finish_other_reasoning(state, index, events).1,
        ),
{
    reveal(finish_other_reasoning);
    lemma_finish_each(state, keys_except(state.open_reasoning, index, 0), 0, events);
}

proof fn lemma_item_added(
    state: ResponsesModel,
    value: JsonModel,
    events: Seq<GenerationEventModel>,
)
    ensures
        goes_on(
            state,
            events,
            item_added(state, value, events).state,
            item_added(state, value, events).events,
        ),
{
    reveal(item_added);
    reveal(capture_reasoning_replay);
    match value.get("item"@) {
        Some(item) => {
            let index = index_of(value);
            let known = ResponsesModel {
                output_kinds: put(
                    state.output_kinds,
                    index,
                    item_kind(item),
                ),
                ..state
            };
            lemma_finish_other_reasoning(known, index, events);
        },
        None => {},
    }
}

proof fn lemma_deltas(state: ResponsesModel, value: JsonModel, events: Seq<GenerationEventModel>)
    ensures
        goes_on(
            state,
            events,
            text_delta(state, value, events).state,
            text_delta(state, value, events).events,
        ),
        goes_on(
            state,
            events,
            reasoning_delta(state, value, events).state,
            reasoning_delta(state, value, events).events,
        ),
        goes_on(
            state,
            events,
            summary_part_done(state, value, events).state,
            summary_part_done(state, value, events).events,
        ),
        goes_on(
            state,
            events,
            function_delta(state, value, events).state,
            function_delta(state, value, events).events,
        ),
        function_done(state, value).0.terminal == state.terminal,
{
    reveal(text_delta);
    reveal(reasoning_delta);
    reveal(summary_part_done);
    reveal(function_delta);
    reveal(function_done);
}

proof fn lemma_reasoning_item(
    state: ResponsesModel,
    index: usize,
    item: JsonModel,
    events: Seq<GenerationEventModel>,
)
    ensures
        goes_on(
            state,
            events,
            capture_reasoning_item(state, index, item, events).0,
            capture_reasoning_item(state, index, item, events).1,
        ),
{
    reveal(capture_reasoning_replay);
    reveal(finish_reasoning);
}

proof fn lemma_message_item(
    state: ResponsesModel,
    index: usize,
    item: JsonModel,
    events: Seq<GenerationEventModel>,
)
    ensures
        goes_on(
            state,
            events,
            capture_message_item(state, index, item, events).state,
            capture_message_item(state, index, item, events).events,
        ),
{
}

proof fn lemma_item_content(
    state: ResponsesModel,
    index: usize,
    item: JsonModel,
    kind: OutputKind,
    events: Seq<GenerationEventModel>,
)
    ensures
        goes_on(
            state,
            events,
            item_content(state, index, item, kind, events).state,
            item_content(state, index, item, kind, events).events,
        ),
{
    lemma_reasoning_item(state, index, item, events);
    lemma_message_item(state, index, item, events);
}

proof fn lemma_item_finished(
    state: ResponsesModel,
    index: usize,
    item: Option<JsonModel>,
    events: Seq<GenerationEventModel>,
)
    ensures
        goes_on(
            state,
            events,
            item_finished(state, index, item, events).state,
            item_finished(state, index, item, events).events,
        ),
{
    reveal(item_finished);
    match item {
        Some(item) => {
            let kind = item_kind(item);
            let known = ResponsesModel {
                output_kinds: put(state.output_kinds, index, kind),
                ..state
            };
            lemma_finish_other_reasoning(known, index, events);
            let (next, reported) = finish_other_reasoning(known, index, events);
            lemma_item_content(next, index, item, kind, reported);
            lemma_item_content(state, index, item, kind, events);
        },
        None => {},
    }
}

proof fn lemma_terminal_items(
    state: ResponsesModel,
    output: Seq<JsonModel>,
    start: int,
    events: Seq<GenerationEventModel>,
)
    ensures
        goes_on(
            state,
            events,
            terminal_items(state, output, start, events).state,
            terminal_items(state, output, start, events).events,
        ),
    decreases output.len() - start,
{
    if 0 <= start < output.len() {
        let index = start as usize;
        let item = output[start];
        lemma_reasoning_item(state, index, item, events);
        lemma_message_item(state, index, item, events);
        lemma_item_finished(state, index, Some(item), events);
        let step = terminal_item(state, index, item, events);
        assert(goes_on(state, events, step.state, step.events));
        if step.error.is_none() {
            lemma_terminal_items(step.state, output, start + 1, step.events);
        }
    }
}

proof fn lemma_terminal_output(
    state: ResponsesModel,
    value: JsonModel,
    events: Seq<GenerationEventModel>,
)
    ensures
        goes_on(
            state,
            events,
            capture_terminal_output(state, value, events).state,
            capture_terminal_output(state, value, events).events,
        ),
{
    reveal(capture_terminal_output);
    match value.get2("response"@, "output"@) {
        Some(output) => match output.as_array() {
            Some(items) => {
                lemma_terminal_items(state, items, 0, events);
            },
            None => {},
        },
        None => {},
    }
}

proof fn lemma_ends(
    state: ResponsesModel,
    value: JsonModel,
    status: ProtocolTerminalStatus,
    reason: Option<FinishReasonModel>,
    error: Option<GatewayErrorModel>,
    events: Seq<GenerationEventModel>,
)
    requires
        !state.terminal,
        no_terminal_event(events),
    ensures
        match ends(state, value, status, reason, error, events).result {
            Err(_) => !ends(state, value, status, reason, error, events).state.terminal,
            Ok(update) => {
                &&& ends(state, value, status, reason, error, events).state.terminal
                &&& update.terminal is Some
                &&& no_terminal_event(update.events)
            },
        },
{
    reveal(ends);
    reveal(ended);
    reveal(close_open_parts);
    reveal(capture_response);
    let captured = capture_response(state, value);
    lemma_terminal_output(captured, value, events);
}

proof fn lemma_dispatch(
    state: ResponsesModel,
    event: Seq<char>,
    kind: EventKind,
    value: JsonModel,
    data: Seq<char>,
    events: Seq<GenerationEventModel>,
)
    requires
        !state.terminal,
        no_terminal_event(events),
    ensures
        match dispatch(state, event, kind, value, data, events).result {
            Err(_) => !dispatch(state, event, kind, value, data, events).state.terminal,
            Ok(update) => {
                &&& dispatch(state, event, kind, value, data, events).state.terminal
                    == update.terminal.is_some()
                &&& no_terminal_event(update.events)
            },
        },
{
    reveal(dispatch);
    reveal(capture_response);
    lemma_item_added(state, value, events);
    lemma_deltas(state, value, events);
    lemma_item_finished(
        state,
        index_of(value),
        value.get("item"@),
        events,
    );
    match kind {
        EventKind::Completed => {
            lemma_ends(state, value, ProtocolTerminalStatus::Completed, None, None, events);
        },
        EventKind::Incomplete => {
            let reason = FinishReasonModel::Incomplete(
                incomplete_reason(value),
            );
            let error = with_body(
                provider_failure(
                    "provider response was incomplete"@,
                    Some("response_incomplete"@),
                ),
                data,
            );
            lemma_ends(
                state,
                value,
                ProtocolTerminalStatus::Failed,
                Some(reason),
                Some(error),
                events,
            );
        },
        EventKind::Failed => {
            let error = with_body(
                failure_of(value),
                data,
            );
            lemma_ends(
                state,
                value,
                ProtocolTerminalStatus::Failed,
                Some(FinishReasonModel::Other("failed"@)),
                Some(error),
                events,
            );
        },
        _ => {},
    }
}

/// A frame ends the session exactly when it brings the terminal of the stream, and an adapter
/// never reports a terminal event itself: that is left to whoever owns the generation.
pub proof fn a_frame_ends_the_session_with_its_terminal(state: ResponsesModel, data: Seq<char>)
    requires
        !state.terminal,
    ensures
        match ingest(state, data).result {
            Err(_) => !ingest(state, data).state.terminal,
            Ok(update) => {
                &&& ingest(state, data).state.terminal == update.terminal.is_some()
                &&& no_terminal_event(update.events)
            },
        },
{
    match parsed_json(data) {
        None => {},
        Some(value) => {
            match value.str_at("type"@) {
                None => {},
                Some(event) => {
                    let kind = event_kind(event);
                    reveal(capture_response);
                    let begun = ResponsesModel { started: true, ..capture_response(state, value) };
                    let first = seq![started_event(begun)];
                    lemma_dispatch(begun, event, kind, value, data, first);
                    lemma_dispatch(state, event, kind, value, data, Seq::empty());
                },
            }
        },
    }
}

/// A session that has ended refuses every frame and stays as it is.
pub proof fn an_ended_session_refuses_frames(state: ResponsesModel, data: Seq<char>)
    requires
        state.terminal,
    ensures
        ingest(state, data).result is Err,
        ingest(state, data).state == state,
{
}

/// Only `response.completed` ends a stream well.
pub proof fn only_completion_succeeds(state: ResponsesModel, value: JsonModel, data: Seq<char>)
    requires
        !state.terminal,
        ingest_value(state, value, data).result is Ok,
        ingest_value(state, value, data).result->Ok_0.terminal is Some,
        ingest_value(state, value, data).result->Ok_0.terminal->0.status
            == ProtocolTerminalStatus::Completed,
    ensures
        value.str_at("type"@) == Some("response.completed"@),
{
    reveal(dispatch);
    reveal(ends);
    reveal(item_added);
}

/// A response that failed or stayed incomplete ends with the frame that said so, as it came.
pub proof fn failures_carry_their_frame(state: ResponsesModel, value: JsonModel, data: Seq<char>)
    requires
        ingest_value(state, value, data).result is Ok,
        ingest_value(state, value, data).result->Ok_0.terminal is Some,
        ingest_value(state, value, data).result->Ok_0.terminal->0.status
            == ProtocolTerminalStatus::Failed,
        !is_blank(data),
    ensures
        ({
            let error = ingest_value(state, value, data).result->Ok_0.terminal->0.error;
            error is Some && error->0.upstream_body == Some(data)
        }),
{
    reveal(dispatch);
    reveal(ends);
    reveal(item_added);
}

/// A call and its result go out under one identifier, as long as the provider knows the call by the
/// identifier that the result names.
pub proof fn calls_and_results_share_their_identifier(call: ToolCallModel, result: ToolResultModel)
    requires
        result.call_id == match call.provider_metadata.responses {
            Some(metadata) => match metadata.call_id {
                Some(id) => id,
                None => call.id,
            },
            None => call.id,
        },
    ensures
        ({
            let sent = non_text_item(ContentBlockModel::ToolCall { tool_call: call });
            let answered = non_text_item(ContentBlockModel::ToolResult { tool_result: result });
            &&& sent is Some && answered is Some
            &&& sent->0.str_at("call_id"@) == Some(normalized_id(result.call_id))
            &&& answered->0.str_at("call_id"@) == Some(normalized_id(result.call_id))
        }),
{
    reveal_with_fuel(find_member, 3);
    reveal_strlit("type");
    reveal_strlit("call_id");
    assert("type"@.len() != "call_id"@.len());
    let sent = non_text_item(ContentBlockModel::ToolCall { tool_call: call })->0->Object_0;
    let answered = non_text_item(
        ContentBlockModel::ToolResult { tool_result: result },
    )->0->Object_0;
    assert(sent.drop_first()[0] == sent[1]);
    assert(answered.drop_first()[0] == answered[1]);
}

} // verus!
