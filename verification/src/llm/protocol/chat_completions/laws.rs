//! What holds of every Chat Completions stream.

use vstd::prelude::*;

use crate::json::{find_member, parsed_json, with_member, JsonModel};
use crate::llm::error::GatewayErrorModel;
use crate::llm::event::{no_terminal_event, GenerationEventModel};
use crate::llm::model::{
    reasoning_field_name, ChatReasoningField, ContentBlockModel, MessageModel,
    ProviderMetadataModel, ReasoningContentModel, Role,
};
use crate::llm::protocol::chat_completions::encoding::{
    call_value, call_values, chat_call_id, chat_messages, chat_role, joined_text, member_position,
    message_details, message_object, result_message, result_messages, with_reasonings,
};
use crate::llm::protocol::chat_completions::model::{
    accumulate_tool, accumulate_tools, apply_choice, apply_delta, details_part, finish_eof,
    finish_open_content, finish_parts, finish_reason_of, finish_reasoning, finish_text,
    finish_tools, first_choice, frame_head, identified_tool, ingest, ingest_value, named_tool, reasoning_part,
    reasoning_in, selected_reasoning, start_reasoning, start_text, start_tool, take_terminal,
    text_part, tool_arguments, tool_finished, tool_index, tool_string, tools_part, ChatModel,
    ChatStep, ToolModel,
};
use crate::llm::protocol::responses::encoding::str_value;
use crate::llm::protocol::{
    role_holds, valid_messages, ProtocolTerminalModel, ProtocolTerminalStatus, ReasoningField,
    SystemRolePolicy,
};
use crate::text::is_blank;

verus! {

/// Whether a piece of a frame leaves the end of the session where it was and reports no terminal
/// event of its own.
pub open spec fn goes_on(
    before: ChatModel,
    events: Seq<GenerationEventModel>,
    after: ChatModel,
    reported: Seq<GenerationEventModel>,
) -> bool {
    &&& after.terminal == before.terminal
    &&& no_terminal_event(events) ==> no_terminal_event(reported)
}

proof fn lemma_content(state: ChatModel, events: Seq<GenerationEventModel>)
    ensures
        goes_on(
            state,
            events,
            finish_open_content(state, events).0,
            finish_open_content(state, events).1,
        ),
        goes_on(state, events, start_text(state, events).0, start_text(state, events).1),
        goes_on(state, events, start_reasoning(state, events).0, start_reasoning(state, events).1),
{
    reveal(finish_open_content);
    reveal(finish_text);
    reveal(finish_reasoning);
    reveal(start_text);
    reveal(start_reasoning);
}

proof fn lemma_parts(state: ChatModel, delta: JsonModel, events: Seq<GenerationEventModel>)
    ensures
        goes_on(state, events, text_part(state, delta, events).0, text_part(state, delta, events).1),
        goes_on(
            state,
            events,
            reasoning_part(state, delta, events).0,
            reasoning_part(state, delta, events).1,
        ),
        details_part(state, delta).terminal == state.terminal,
{
    reveal(text_part);
    reveal(reasoning_part);
    reveal(details_part);
    reveal(start_text);
    reveal(start_reasoning);
    reveal(finish_text);
    reveal(finish_reasoning);
}

proof fn lemma_tool_arguments(
    state: ChatModel,
    index: usize,
    tool: ToolModel,
    function: JsonModel,
    events: Seq<GenerationEventModel>,
)
    ensures
        goes_on(
            state,
            events,
            tool_arguments(state, index, tool, function, events).state,
            tool_arguments(state, index, tool, function, events).events,
        ),
{
    reveal(tool_arguments);
    reveal(start_tool);
}

proof fn lemma_tool(
    state: ChatModel,
    raw: JsonModel,
    position: usize,
    events: Seq<GenerationEventModel>,
)
    ensures
        goes_on(
            state,
            events,
            accumulate_tool(state, raw, position, events).state,
            accumulate_tool(state, raw, position, events).events,
        ),
{
    reveal(accumulate_tool);
    let allow_null = state.compatibility.allow_nullable_tool_fields;
    let function = match raw.get("function"@) {
        Some(function) => function,
        None => JsonModel::Null,
    };
    match tool_string(raw, "id"@, allow_null) {
        Err(_) => {},
        Ok(id) => {
            reveal(identified_tool);
            reveal(tool_index);
            let (next, index, tool) = identified_tool(state, raw, id, position);
            assert(next.terminal == state.terminal);
            match tool_string(function, "name"@, allow_null) {
                Err(_) => {},
                Ok(name) => {
                    lemma_tool_arguments(next, index, named_tool(tool, name), function, events);
                },
            }
        },
    }
}

proof fn lemma_tools(
    state: ChatModel,
    calls: Seq<JsonModel>,
    start: int,
    events: Seq<GenerationEventModel>,
)
    ensures
        goes_on(
            state,
            events,
            accumulate_tools(state, calls, start, events).state,
            accumulate_tools(state, calls, start, events).events,
        ),
    decreases calls.len() - start,
{
    if 0 <= start < calls.len() {
        lemma_tool(state, calls[start], start as usize, events);
        let step = accumulate_tool(state, calls[start], start as usize, events);
        if step.error.is_none() {
            lemma_tools(step.state, calls, start + 1, step.events);
        }
    }
}

proof fn lemma_delta(state: ChatModel, delta: JsonModel, events: Seq<GenerationEventModel>)
    ensures
        goes_on(
            state,
            events,
            apply_delta(state, delta, events).state,
            apply_delta(state, delta, events).events,
        ),
{
    reveal(apply_delta);
    reveal(tools_part);
    lemma_parts(state, delta, events);
    let (after_text, with_text) = text_part(state, delta, events);
    lemma_parts(after_text, delta, with_text);
    let (after_reasoning, with_reasoning) = reasoning_part(after_text, delta, with_text);
    lemma_parts(after_reasoning, delta, with_reasoning);
    let detailed = details_part(after_reasoning, delta);
    lemma_content(detailed, with_reasoning);
    match delta.array_at("tool_calls"@) {
        Some(calls) => {
            let (closed, reported) = finish_open_content(detailed, with_reasoning);
            lemma_tools(closed, calls, 0, reported);
        },
        None => {},
    }
}

proof fn lemma_finish_tools(
    tools: Seq<(usize, ToolModel)>,
    start: int,
    events: Seq<GenerationEventModel>,
)
    ensures
        no_terminal_event(events) ==> no_terminal_event(finish_tools(tools, start, events).0),
    decreases tools.len() - start,
{
    if 0 <= start < tools.len() {
        match tools[start].1.content_index {
            Some(content_index) => {
                let event = tool_finished(
                    tools[start].0,
                    tools[start].1,
                    content_index,
                );
                lemma_finish_tools(tools, start + 1, events.push(event));
            },
            None => {},
        }
    }
}

proof fn lemma_choice(state: ChatModel, choice: JsonModel, events: Seq<GenerationEventModel>)
    ensures
        goes_on(
            state,
            events,
            apply_choice(state, choice, events).state,
            apply_choice(state, choice, events).events,
        ),
{
    reveal(apply_choice);
    reveal(finish_parts);
    let step = match choice.get("delta"@) {
        Some(delta) => apply_delta(state, delta, events),
        None => ChatStep {
            state,
            events,
            error: None,
        },
    };
    match choice.get("delta"@) {
        Some(delta) => {
            lemma_delta(state, delta, events);
        },
        None => {},
    }
    match choice.str_at("finish_reason"@) {
        Some(reason) => {
            let named = ChatModel { finish_reason: Some(finish_reason_of(reason)), ..step.state };
            lemma_content(named, step.events);
            let (closed, reported) = finish_open_content(named, step.events);
            lemma_finish_tools(closed.tools, 0, reported);
        },
        None => {},
    }
}

/// Where no member is configured, reasoning comes from the first member that is not empty, and from
/// no other.
pub proof fn reasoning_comes_from_the_first_alias_that_has_any(delta: JsonModel)
    ensures
        ({
            let first = reasoning_in(delta, ChatReasoningField::ReasoningContent);
            let second = reasoning_in(delta, ChatReasoningField::Reasoning);
            let third = reasoning_in(delta, ChatReasoningField::ReasoningText);
            let found = selected_reasoning(delta, ReasoningField::Auto);
            &&& found is Some <==> first is Some || second is Some || third is Some
            &&& match found {
                Some((_, text)) => text.len() > 0,
                None => true,
            }
            &&& first is Some ==> found == first
            &&& first is None && second is Some ==> found == second
            &&& first is None && second is None ==> found == third
        }),
{
}

/// A frame ends the session exactly when it brings the terminal of the stream, and an adapter
/// never reports a terminal event itself: that is left to whoever owns the generation.
pub proof fn a_frame_ends_the_session_with_its_terminal(state: ChatModel, data: Seq<char>)
    requires
        !state.terminal,
    ensures
        match ingest(state, data).result {
            Err(_) => !ingest(state, data).state.terminal,
            Ok(update) => {
                &&& ingest(state, data).state.terminal == update.terminal.is_some()
                &&& no_terminal_event(update.events)
            },
        },
{
    reveal(take_terminal);
    match parsed_json(data) {
        None => {},
        Some(value) => {
            reveal(frame_head);
            let (head, events) = frame_head(state, value);
            match first_choice(value) {
                Some(choice) => {
                    lemma_choice(head, choice, events);
                },
                None => {},
            }
        },
    }
}

/// A session that has ended brings no second terminal, whatever frames follow.
pub proof fn an_ended_session_brings_no_terminal(state: ChatModel, data: Seq<char>)
    requires
        state.terminal,
    ensures
        ingest(state, data).state.terminal,
        match ingest(state, data).result {
            Ok(update) => update.terminal is None && update.events.len() == 0,
            Err(_) => true,
        },
        finish_eof(state).1 == Ok::<
            Option<ProtocolTerminalModel>,
            GatewayErrorModel,
        >(None),
{
    reveal(take_terminal);
}

/// Without a finish reason neither `[DONE]` nor the end of the stream is a success.
pub proof fn no_success_without_a_finish_reason(state: ChatModel)
    requires
        !state.terminal,
        state.finish_reason is None,
    ensures
        ingest(state, "[DONE]"@).result is Ok,
        ingest(state, "[DONE]"@).result->Ok_0.terminal is None,
        finish_eof(state).1 is Err,
{
    reveal(take_terminal);
}

/// A known finish reason is enough: the stream may end without `[DONE]`.
pub proof fn a_finish_reason_makes_the_end_clean(state: ChatModel)
    requires
        !state.terminal,
        state.finish_reason is Some,
    ensures
        finish_eof(state).1 is Ok,
        finish_eof(state).1->Ok_0 is Some,
        finish_eof(state).1->Ok_0->0.status == ProtocolTerminalStatus::Completed,
{
    reveal(take_terminal);
}

/// A frame that reports an error is refused with the frame itself, as it came.
pub proof fn refusals_carry_their_frame(state: ChatModel, value: JsonModel, data: Seq<char>)
    requires
        value.get("error"@) is Some,
        !is_blank(data),
    ensures
        ingest_value(state, value, data).result is Err,
        ingest_value(state, value, data).result->Err_0.upstream_body == Some(data),
        ingest_value(state, value, data).state == state,
{
}

/// A tool message stands for its results, one wire message each, in order.
pub proof fn every_result_is_a_message(message: MessageModel, policy: SystemRolePolicy)
    requires
        message.role == Role::Tool,
        message.content.len() > 0,
        valid_messages(seq![message]),
    ensures
        chat_messages(message, policy).len() == message.content.len(),
        forall|i: int|
            0 <= i < message.content.len() ==> match #[trigger] message.content[i] {
                ContentBlockModel::ToolResult { tool_result } => chat_messages(message, policy)[i]
                    == result_message(tool_result.call_id, tool_result.content),
                _ => false,
            },
{
    assert forall|i: int| 0 <= i < message.content.len() implies (
    #[trigger] message.content[i]) is ToolResult by {
        assert(seq![message][0] == message);
        assert(role_holds(seq![message][0].role, seq![message][0].content[i]));
    }
    lemma_results(message.content, 0);
}

proof fn lemma_results(blocks: Seq<ContentBlockModel>, start: int)
    requires
        0 <= start <= blocks.len(),
        forall|i: int| 0 <= i < blocks.len() ==> (#[trigger] blocks[i]) is ToolResult,
    ensures
        result_messages(blocks, start).len() == blocks.len() - start,
        forall|i: int|
            start <= i < blocks.len() ==> match #[trigger] blocks[i] {
                ContentBlockModel::ToolResult { tool_result } => result_messages(
                    blocks,
                    start,
                )[i - start] == result_message(tool_result.call_id, tool_result.content),
                _ => false,
            },
    decreases blocks.len() - start,
{
    if start < blocks.len() {
        lemma_results(blocks, start + 1);
        assert(blocks[start] is ToolResult);
        let rest = result_messages(blocks, start + 1);
        let all = result_messages(blocks, start);
        assert forall|i: int| start <= i < blocks.len() implies match #[trigger] blocks[i] {
            ContentBlockModel::ToolResult { tool_result } => all[i - start] == result_message(
                tool_result.call_id,
                tool_result.content,
            ),
            _ => false,
        } by {
            if i > start {
                assert(all[i - start] == rest[i - start - 1]);
            }
        }
    }
}

/// A call and its result go out under one identifier, whatever it was.
pub proof fn calls_and_results_share_their_identifier(
    id: Seq<char>,
    name: Seq<char>,
    arguments: Seq<char>,
    content: Seq<char>,
)
    ensures
        call_value(id, name, arguments).str_at("id"@) == Some(chat_call_id(id)),
        result_message(id, content).str_at("tool_call_id"@) == Some(chat_call_id(id)),
{
    reveal_with_fuel(find_member, 3);
    reveal_strlit("role");
    reveal_strlit("tool_call_id");
    let members = result_message(id, content)->Object_0;
    assert("role"@.len() != "tool_call_id"@.len());
    assert(members.drop_first()[0] == members[1]);
}

/// Reasoning goes back in the member that it came in.
pub proof fn reasoning_goes_back_where_it_came_from(
    reasoning: ReasoningContentModel,
    metadata: ProviderMetadataModel,
    policy: SystemRolePolicy,
    field: ChatReasoningField,
)
    requires
        reasoning.display.len() > 0,
        reasoning.replay is Some,
        reasoning.replay->0.chat is Some,
        reasoning.replay->0.chat->0.reasoning_field == Some(field),
    ensures
        ({
            let message = MessageModel {
                role: Role::Assistant,
                content: seq![ContentBlockModel::Reasoning { reasoning }],
                provider_metadata: metadata,
            };
            message_object(message, policy).str_at(reasoning_field_name(field)) == Some(
                reasoning.display,
            )
        }),
{
    let block = ContentBlockModel::Reasoning { reasoning };
    let content = seq![block];
    let message = MessageModel {
        role: Role::Assistant,
        content,
        provider_metadata: metadata,
    };
    let key = reasoning_field_name(field);
    reveal_with_fuel(joined_text, 2);
    reveal_with_fuel(call_values, 2);
    reveal_with_fuel(with_reasonings, 2);
    reveal_strlit("role");
    reveal_strlit("reasoning_details");
    reveal_strlit("reasoning_content");
    reveal_strlit("reasoning");
    reveal_strlit("reasoning_text");
    assert("reasoning_details"@[10] == 'd');
    assert("reasoning_content"@[10] == 'c');
    match field {
        ChatReasoningField::ReasoningContent => {
            assert(key.len() == 17 && key[10] == 'c');
        },
        ChatReasoningField::Reasoning => {
            assert(key.len() == 9);
        },
        ChatReasoningField::ReasoningText => {
            assert(key.len() == 14);
        },
    }
    assert(key.len() != "role"@.len());
    assert(key != "role"@);
    assert(key != "reasoning_details"@);
    let base = seq![("role"@, str_value(chat_role(message.role, policy)))];
    let before = with_member(base, "reasoning_details"@, message_details(message));
    reveal_with_fuel(member_position, 3);
    assert(member_position(before, key, 0) == before.len());
    let all = before.push((key, str_value(reasoning.display)));
    assert(message_object(message, policy) == JsonModel::Object(all));
    reveal_with_fuel(find_member, 4);
    assert(all.drop_first()[0] == all[1]);
    if before.len() == 2 {
        assert(all.drop_first().drop_first()[0] == all[2]);
    }
}

} // verus!
