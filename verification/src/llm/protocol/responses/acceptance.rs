//! Which frames of a Responses stream are read, and how failures are told.

use vstd::prelude::*;

use crate::json::{parsed_json, JsonModel};
use crate::llm::error::{allowed_code, is_token_char, ErrorKind, GatewayErrorModel};
use crate::llm::event::{FinishReasonModel, GenerationEventModel, StreamMetadataModel};
use crate::llm::protocol::responses::content::{
    called, events_are_known_by_their_names, item_in, item_said, message_said, speaks_of,
};
use crate::llm::protocol::responses::model::{
    buffer_at, capture_response, capture_terminal_output, close_open_parts, dispatch, ended, ends,
    function_delta, function_done, ingest, item_added, item_finished, message_text, reasoning_delta,
    text_delta, ResponsesModel,
};
use crate::llm::protocol::responses::wire::{
    event_kind, is_structural, needs_output_index, EventKind, OutputKind,
};
use crate::llm::protocol::ProtocolTerminalStatus;
use crate::ordered::find;

verus! {

/// Whether an item of a kind stands at an index and has not been completed.
pub open spec fn is_open(state: ResponsesModel, index: usize, kind: OutputKind) -> bool {
    find(state.output_kinds, index) == Some(kind) && !state.finished_outputs.contains(index)
}

/// Whether a frame is an event of a stream that runs, about the item at an index.
pub open spec fn tells_of(
    state: ResponsesModel,
    data: Seq<char>,
    value: JsonModel,
    index: usize,
    event: Seq<char>,
) -> bool {
    &&& state.started
    &&& !state.terminal
    &&& parsed_json(data) == Some(value)
    &&& value.str_at("type"@) == Some(event)
    &&& value.u64_at("output_index"@) is Some
    &&& speaks_of(value, index)
}

/// A piece of text, of reasoning or of arguments is taken exactly where it is a text and its item
/// stands, is of the right kind, and has neither been completed itself nor had that content
/// completed.
#[verifier::rlimit(40)]
pub proof fn pieces_are_taken(
    state: ResponsesModel,
    data: Seq<char>,
    value: JsonModel,
    index: usize,
    event: Seq<char>,
)
    requires
        tells_of(state, data, value, index, event),
    ensures
        event == "response.output_text.delta"@ || event == "response.refusal.delta"@ ==> (ingest(
            state,
            data,
        ).result is Ok <==> is_open(state, index, OutputKind::Message) && value.str_at(
            "delta"@,
        ) is Some && !state.finished_text.contains(index)),
        event == "response.reasoning_summary_text.delta"@ || event
            == "response.reasoning_text.delta"@ ==> (ingest(state, data).result is Ok <==> is_open(
            state,
            index,
            OutputKind::Reasoning,
        ) && value.str_at("delta"@) is Some && !state.finished_reasoning.contains(index)),
        event == "response.function_call_arguments.delta"@ ==> (ingest(state, data).result is Ok
            <==> is_open(state, index, OutputKind::FunctionCall) && value.str_at("delta"@) is Some
            && !state.finished_function_arguments.contains(index)),
        event == "response.function_call_arguments.done"@ ==> (ingest(state, data).result is Ok
            <==> is_open(state, index, OutputKind::FunctionCall) && value.str_at(
            "arguments"@,
        ) is Some && !state.finished_function_arguments.contains(index)),
{
    events_are_known_by_their_names();
    reveal(dispatch);
    reveal(text_delta);
    reveal(reasoning_delta);
    reveal(function_delta);
    reveal(function_done);
}

/// An item is added exactly where it is there and nothing stands at its index yet.
pub proof fn new_items_are_added(
    state: ResponsesModel,
    data: Seq<char>,
    value: JsonModel,
    index: usize,
)
    requires
        tells_of(state, data, value, index, "response.output_item.added"@),
    ensures
        ingest(state, data).result is Ok <==> value.get("item"@) is Some && find(
            state.output_kinds,
            index,
        ) is None && !state.finished_outputs.contains(index),
{
    events_are_known_by_their_names();
    reveal(dispatch);
    reveal(item_added);
}

/// Whether the parts of a message can be read: what is text or a refusal says so in a text.
pub open spec fn parts_say_something(parts: Seq<JsonModel>) -> bool {
    forall|k: int|
        0 <= k < parts.len() ==> {
            let part = #[trigger] parts[k];
            &&& part.str_at("type"@) == Some("output_text"@) ==> part.str_at("text"@) is Some
            &&& part.str_at("type"@) == Some("refusal"@) ==> part.str_at("refusal"@) is Some
        }
}

proof fn lemma_message_text(parts: Seq<JsonModel>, start: int, text: Seq<char>)
    requires
        0 <= start <= parts.len(),
        text == message_said(parts.take(start)),
    ensures
        (forall|k: int|
            start <= k < parts.len() ==> {
                let part = #[trigger] parts[k];
                &&& part.str_at("type"@) == Some("output_text"@) ==> part.str_at("text"@) is Some
                &&& part.str_at("type"@) == Some("refusal"@) ==> part.str_at("refusal"@) is Some
            }) ==> message_text(parts, start, text) == Ok::<Seq<char>, GatewayErrorModel>(
            message_said(parts),
        ),
        message_text(parts, start, text) is Ok ==> (forall|k: int|
            start <= k < parts.len() ==> {
                let part = #[trigger] parts[k];
                &&& part.str_at("type"@) == Some("output_text"@) ==> part.str_at("text"@) is Some
                &&& part.str_at("type"@) == Some("refusal"@) ==> part.str_at("refusal"@) is Some
            }),
    decreases parts.len() - start,
{
    reveal_strlit("output_text");
    reveal_strlit("refusal");
    assert("output_text"@.len() != "refusal"@.len());
    if start < parts.len() {
        let part = parts[start];
        let next = parts.take(start + 1);
        assert(next.drop_last() =~= parts.take(start));
        assert(next.last() == part);
        let more = message_said(next);
        if part.str_at("type"@) == Some("output_text"@) {
            if part.str_at("text"@) is Some {
                assert(more =~= text + part.str_at("text"@)->0);
                lemma_message_text(parts, start + 1, more);
            }
        } else if part.str_at("type"@) == Some("refusal"@) {
            if part.str_at("refusal"@) is Some {
                assert(more =~= text + part.str_at("refusal"@)->0);
                lemma_message_text(parts, start + 1, more);
            }
        } else {
            assert(more =~= text);
            lemma_message_text(parts, start + 1, more);
        }
    } else {
        assert(parts.take(start) =~= parts);
    }
}

/// An item is completed exactly where it is there, it has not been completed, and what was added
/// at its index, if anything was, is of its kind. A message must also hold parts that can be read,
/// and must say what was streamed of it, from its beginning.
#[verifier::rlimit(40)]
pub proof fn items_are_completed(
    state: ResponsesModel,
    data: Seq<char>,
    value: JsonModel,
    index: usize,
    kind: OutputKind,
)
    requires
        tells_of(state, data, value, index, "response.output_item.done"@),
        find(state.output_kinds, index) == Some(kind),
        value.get("item"@) is Some,
    ensures
        ({
            let item = item_in(value);
            let is_message = item.str_at("type"@) == Some("message"@);
            let same = match kind {
                OutputKind::Message => is_message,
                OutputKind::Reasoning => item.str_at("type"@) == Some("reasoning"@),
                OutputKind::FunctionCall => item.str_at("type"@) == Some("function_call"@),
                OutputKind::Unsupported => !is_message && item.str_at("type"@) != Some(
                    "reasoning"@,
                ) && item.str_at("type"@) != Some("function_call"@),
            };
            ingest(state, data).result is Ok <==> {
                &&& !state.finished_outputs.contains(index)
                &&& same
                &&& is_message ==> {
                    &&& item.array_at("content"@) is Some
                    &&& parts_say_something(item.array_at("content"@)->0)
                    &&& buffer_at(state.text_buffers, index).is_prefix_of(item_said(item))
                }
            }
        }),
{
    events_are_known_by_their_names();
    reveal(dispatch);
    reveal(item_finished);
    reveal_strlit("message");
    reveal_strlit("reasoning");
    reveal_strlit("function_call");
    assert("message"@.len() == 7 && "reasoning"@.len() == 9 && "function_call"@.len() == 13);
    let item = item_in(value);
    match item.array_at("content"@) {
        Some(parts) => {
            assert(parts.take(0) =~= Seq::<JsonModel>::empty());
            lemma_message_text(parts, 0, Seq::empty());
        },
        None => {},
    }
}

proof fn lemma_short_names()
    ensures
        !needs_output_index("response.created"@),
        !needs_output_index("response.in_progress"@),
        !needs_output_index("response.completed"@),
        !needs_output_index("response.incomplete"@),
        !needs_output_index("response.failed"@),
        !needs_output_index("error"@),
{
    reveal_strlit("response.created");
    reveal_strlit("response.in_progress");
    reveal_strlit("response.completed");
    reveal_strlit("response.incomplete");
    reveal_strlit("response.failed");
    reveal_strlit("error");
    assert("response.created"@.len() == 16 && "response.in_progress"@.len() == 20
        && "response.completed"@.len() == 18 && "response.incomplete"@.len() == 19
        && "response.failed"@.len() == 15 && "error"@.len() == 5);
    reveal_strlit("response.output_item.added");
    reveal_strlit("response.output_item.done");
    reveal_strlit("response.output_text.delta");
    reveal_strlit("response.output_text.done");
    reveal_strlit("response.refusal.delta");
    reveal_strlit("response.refusal.done");
    reveal_strlit("response.reasoning_summary_text.delta");
    reveal_strlit("response.reasoning_summary_text.done");
    reveal_strlit("response.reasoning_summary_part.added");
    reveal_strlit("response.reasoning_summary_part.done");
    reveal_strlit("response.reasoning_text.delta");
    reveal_strlit("response.reasoning_text.done");
    reveal_strlit("response.function_call_arguments.delta");
    reveal_strlit("response.function_call_arguments.done");
    reveal_strlit("response.content_part.added");
    reveal_strlit("response.content_part.done");
    assert("response.output_item.added"@.len() == 26 && "response.output_item.done"@.len() == 25
        && "response.output_text.delta"@.len() == 26 && "response.output_text.done"@.len() == 25
        && "response.refusal.delta"@.len() == 22 && "response.refusal.done"@.len() == 21);
    assert("response.reasoning_summary_text.delta"@.len() == 37
        && "response.reasoning_summary_text.done"@.len() == 36
        && "response.reasoning_summary_part.added"@.len() == 37
        && "response.reasoning_summary_part.done"@.len() == 36
        && "response.reasoning_text.delta"@.len() == 29 && "response.reasoning_text.done"@.len()
        == 28);
    assert("response.function_call_arguments.delta"@.len() == 38
        && "response.function_call_arguments.done"@.len() == 37
        && "response.content_part.added"@.len() == 27 && "response.content_part.done"@.len()
        == 26);
}

/// A stream starts with its creation, once, and that names the response; what comes before it is
/// refused, unless it is the end.
#[verifier::rlimit(40)]
pub proof fn streams_start_with_their_creation(
    state: ResponsesModel,
    data: Seq<char>,
    value: JsonModel,
)
    requires
        !state.terminal,
        parsed_json(data) == Some(value),
        value.str_at("type"@) is Some,
    ensures
        value.str_at("type"@) == Some("response.created"@) ==> {
            &&& ingest(state, data).result is Ok <==> !state.started
            &&& !state.started ==> {
                let step = ingest(state, data);
                let id = called(state.response_id, value, "id"@);
                let model = called(state.upstream_model, value, "model"@);
                &&& step.state.started && !step.state.terminal
                &&& step.result->Ok_0.terminal is None
                &&& step.result->Ok_0.events == seq![
                    GenerationEventModel::Started(
                        StreamMetadataModel { response_id: id, upstream_model: model },
                    ),
                ]
                &&& step.state.response_id == id && step.state.upstream_model == model
            }
        },
        !state.started && value.str_at("type"@)->0 != "response.created"@ && value.str_at(
            "type"@,
        )->0 != "response.completed"@ && value.str_at("type"@)->0 != "response.incomplete"@
            && value.str_at("type"@)->0 != "response.failed"@ && value.str_at("type"@)->0
            != "error"@ ==> ingest(state, data).result is Err,
        value.str_at("type"@) == Some("response.in_progress"@) && state.started ==> ingest(
            state,
            data,
        ).result is Ok && ingest(state, data).result->Ok_0.events.len() == 0,
{
    events_are_known_by_their_names();
    lemma_short_names();
    reveal(dispatch);
    reveal(capture_response);
    reveal_strlit("response.created");
    reveal_strlit("response.completed");
    reveal_strlit("response.incomplete");
    reveal_strlit("response.failed");
    reveal_strlit("response.in_progress");
    assert("response.created"@.len() == 16 && "response.completed"@.len() == 18
        && "response.incomplete"@.len() == 19 && "response.failed"@.len() == 15
        && "response.in_progress"@.len() == 20);
    if !state.started && value.str_at("type"@) == Some("response.created"@) {
        let events = ingest(state, data).result->Ok_0.events;
        assert(events =~= seq![events[0]]);
    }
}

/// A frame that is no JSON, that names no event or that is about an item without saying which is
/// refused.
pub proof fn other_frames_are_refused(state: ResponsesModel, data: Seq<char>)
    ensures
        parsed_json(data) is None ==> ingest(state, data).result is Err,
        parsed_json(data) is Some && parsed_json(data)->0.str_at("type"@) is None ==> ingest(
            state,
            data,
        ).result is Err,
        parsed_json(data) is Some && needs_output_index(parsed_json(data)->0.str_at("type"@)->0)
            && parsed_json(data)->0.u64_at("output_index"@) is None ==> ingest(
            state,
            data,
        ).result is Err,
        parsed_json(data) is Some && event_kind(parsed_json(data)->0.str_at("type"@)->0)
            == EventKind::Unknown ==> ingest(state, data).result is Err,
{
    reveal(dispatch);
}

/// The object that says why a response failed: the error of the response, the error of the event,
/// or the event.
pub open spec fn error_in(value: JsonModel) -> JsonModel {
    if value.get2("response"@, "error"@) is Some {
        value.get2("response"@, "error"@)->0
    } else if value.get("error"@) is Some {
        value.get("error"@)->0
    } else {
        value
    }
}

/// A response ends where its end lists no items: with the name of the response to hand back, and,
/// where it failed or is incomplete, with the error of the provider, its code and the frame.
#[verifier::rlimit(40)]
pub proof fn ends_are_told(state: ResponsesModel, data: Seq<char>, value: JsonModel)
    requires
        state.started,
        !state.terminal,
        parsed_json(data) == Some(value),
        value.get2("response"@, "output"@) is None,
        value.str_at("type"@) == Some("response.completed"@) || value.str_at("type"@) == Some(
            "response.incomplete"@,
        ) || value.str_at("type"@) == Some("response.failed"@) || value.str_at("type"@) == Some(
            "error"@,
        ),
    ensures
        ({
            let step = ingest(state, data);
            let event = value.str_at("type"@)->0;
            let terminal = step.result->Ok_0.terminal->0;
            &&& step.result is Ok
            &&& step.result->Ok_0.terminal is Some
            &&& step.state.terminal
            &&& terminal.provider_metadata.chat is None
            &&& terminal.provider_metadata.responses is Some
            &&& terminal.provider_metadata.responses->0.response_id == terminal.response_id
            &&& terminal.response_id == called(state.response_id, value, "id"@)
            &&& event == "response.completed"@ ==> terminal.status
                == ProtocolTerminalStatus::Completed && terminal.error is None
            &&& event != "response.completed"@ ==> {
                &&& terminal.status == ProtocolTerminalStatus::Failed
                &&& terminal.error is Some
                &&& terminal.error->0.kind == ErrorKind::Provider
            }
            &&& event == "response.incomplete"@ ==> {
                let reason = value.get2("response"@, "incomplete_details"@);
                &&& terminal.error->0.provider_code == Some("response_incomplete"@)
                &&& terminal.finish_reason is Incomplete
                &&& reason is None ==> terminal.finish_reason == FinishReasonModel::Incomplete(
                    "unknown"@,
                )
                &&& reason is Some && reason->0.str_at("reason"@) == Some("max_output_tokens"@)
                    ==> terminal.finish_reason == FinishReasonModel::Incomplete(
                    "max_output_tokens"@,
                )
            }
            &&& event == "response.failed"@ || event == "error"@ ==> {
                &&& terminal.error->0.provider_code == allowed_code(error_in(value).get("code"@))
                &&& terminal.finish_reason == FinishReasonModel::Other("failed"@)
            }
        }),
{
    events_are_known_by_their_names();
    lemma_short_names();
    reveal(dispatch);
    reveal(ends);
    reveal(ended);
    reveal(capture_response);
    reveal(capture_terminal_output);
    reveal(close_open_parts);
    reveal_strlit("response.completed");
    reveal_strlit("response.incomplete");
    reveal_strlit("response.failed");
    reveal_strlit("error");
    reveal_strlit("max_output_tokens");
    assert("response.completed"@.len() == 18 && "response.incomplete"@.len() == 19
        && "response.failed"@.len() == 15 && "error"@.len() == 5);
    let token = "max_output_tokens"@;
    assert(token =~= seq![
        'm', 'a', 'x', '_', 'o', 'u', 't', 'p', 'u', 't', '_', 't', 'o', 'k', 'e', 'n', 's',
    ]);
    assert forall|i: int| 0 <= i < token.len() implies is_token_char(
        #[trigger] token[i],
    ) by {}
}

/// An event of the life of a response that says nothing of its output changes nothing.
pub proof fn other_events_change_nothing(
    state: ResponsesModel,
    data: Seq<char>,
    value: JsonModel,
    event: Seq<char>,
)
    requires
        state.started,
        !state.terminal,
        parsed_json(data) == Some(value),
        value.str_at("type"@) == Some(event),
        "response."@.is_prefix_of(event),
        !is_structural(event),
        event_kind(event) == EventKind::Lifecycle,
    ensures
        !needs_output_index(event) ==> {
            &&& ingest(state, data).result is Ok
            &&& ingest(state, data).result->Ok_0.events.len() == 0
            &&& ingest(state, data).result->Ok_0.terminal is None
            &&& ingest(state, data).state == state
        },
{
    reveal(dispatch);
}

} // verus!
