//! What a provider reads in a Chat Completions request.

use vstd::prelude::*;

use crate::json::{an_added_member_is_found, find_member, with_member, JsonModel, NumberModel};
use crate::llm::model::{
    no_metadata, reasoning_field_name, ChatReasoningField, ContentBlockModel, GenerateRequestModel,
    MessageModel, ReasoningContentModel, Role, ToolCallModel, ToolDefinitionModel, ToolResultModel,
};
use crate::llm::protocol::chat_completions::encoding::{
    block_details, call_value, call_values, chat_call_id, chat_messages, chat_role, chat_tool,
    chat_tools, encoded_request, handed_back, history, joined_text, member_position,
    message_details, request_members, result_message, result_messages, with_reasoning,
    with_reasonings,
};
use crate::llm::protocol::responses::encoding::{accepted_chars, is_id_char, squeezed_id, str_value};
use crate::llm::protocol::{
    max_tokens_key, role_holds, valid_messages, CompatibilityProfile, MaxTokensField,
    SystemRolePolicy,
};
use crate::text::join_texts;

verus! {

/// What the text blocks say, one after the other.
pub open spec fn spoken(blocks: Seq<ContentBlockModel>) -> Seq<char>
    decreases blocks.len(),
{
    if blocks.len() == 0 {
        Seq::empty()
    } else {
        match blocks.last() {
            ContentBlockModel::Text { text, .. } => spoken(blocks.drop_last()) + text,
            _ => spoken(blocks.drop_last()),
        }
    }
}

/// The tool calls among the blocks, in their order.
pub open spec fn calls_among(blocks: Seq<ContentBlockModel>) -> Seq<ToolCallModel>
    decreases blocks.len(),
{
    if blocks.len() == 0 {
        Seq::empty()
    } else {
        match blocks.last() {
            ContentBlockModel::ToolCall { tool_call } => calls_among(blocks.drop_last()).push(
                tool_call,
            ),
            _ => calls_among(blocks.drop_last()),
        }
    }
}

/// The tool results among the blocks, in their order.
pub open spec fn results_among(blocks: Seq<ContentBlockModel>) -> Seq<ToolResultModel>
    decreases blocks.len(),
{
    if blocks.len() == 0 {
        Seq::empty()
    } else {
        match blocks.last() {
            ContentBlockModel::ToolResult { tool_result } => results_among(
                blocks.drop_last(),
            ).push(tool_result),
            _ => results_among(blocks.drop_last()),
        }
    }
}

proof fn lemma_spoken(blocks: Seq<ContentBlockModel>, start: int)
    requires
        0 <= start <= blocks.len(),
    ensures
        spoken(blocks.take(start)) + joined_text(blocks, start) == spoken(blocks),
    decreases blocks.len() - start,
{
    if start < blocks.len() {
        lemma_spoken(blocks, start + 1);
        let longer = blocks.take(start + 1);
        assert(longer.drop_last() =~= blocks.take(start));
        assert(longer.last() == blocks[start]);
        match blocks[start] {
            ContentBlockModel::Text { text, .. } => {
                let rest = joined_text(blocks, start + 1);
                assert(spoken(blocks.take(start)) + (text + rest) =~= (spoken(blocks.take(start))
                    + text) + rest);
            },
            _ => {},
        }
    } else {
        assert(blocks.take(start) =~= blocks);
        assert(spoken(blocks) + Seq::<char>::empty() =~= spoken(blocks));
    }
}

/// The wire form of calls.
spec fn wire_calls(calls: Seq<ToolCallModel>) -> Seq<JsonModel> {
    Seq::new(
        calls.len(),
        |k: int| call_value(calls[k].id, calls[k].name, calls[k].raw_arguments),
    )
}

/// The wire form of results.
spec fn wire_results(results: Seq<ToolResultModel>) -> Seq<JsonModel> {
    Seq::new(results.len(), |k: int| result_message(results[k].call_id, results[k].content))
}

proof fn lemma_calls(blocks: Seq<ContentBlockModel>, start: int)
    requires
        0 <= start <= blocks.len(),
    ensures
        wire_calls(calls_among(blocks.take(start))) + call_values(blocks, start) == wire_calls(
            calls_among(blocks),
        ),
    decreases blocks.len() - start,
{
    if start < blocks.len() {
        lemma_calls(blocks, start + 1);
        let longer = blocks.take(start + 1);
        assert(longer.drop_last() =~= blocks.take(start));
        assert(longer.last() == blocks[start]);
        match blocks[start] {
            ContentBlockModel::ToolCall { tool_call } => {
                let before = calls_among(blocks.take(start));
                let rest = call_values(blocks, start + 1);
                let value = call_value(tool_call.id, tool_call.name, tool_call.raw_arguments);
                assert(wire_calls(before.push(tool_call)) =~= wire_calls(before).push(value));
                assert(wire_calls(before) + (seq![value] + rest) =~= wire_calls(before).push(value)
                    + rest);
            },
            _ => {},
        }
    } else {
        assert(blocks.take(start) =~= blocks);
        assert(wire_calls(calls_among(blocks)) + Seq::<JsonModel>::empty() =~= wire_calls(
            calls_among(blocks),
        ));
    }
}

proof fn lemma_results(blocks: Seq<ContentBlockModel>, start: int)
    requires
        0 <= start <= blocks.len(),
    ensures
        wire_results(results_among(blocks.take(start))) + result_messages(blocks, start)
            == wire_results(results_among(blocks)),
    decreases blocks.len() - start,
{
    if start < blocks.len() {
        lemma_results(blocks, start + 1);
        let longer = blocks.take(start + 1);
        assert(longer.drop_last() =~= blocks.take(start));
        assert(longer.last() == blocks[start]);
        match blocks[start] {
            ContentBlockModel::ToolResult { tool_result } => {
                let before = results_among(blocks.take(start));
                let rest = result_messages(blocks, start + 1);
                let value = result_message(tool_result.call_id, tool_result.content);
                assert(wire_results(before.push(tool_result)) =~= wire_results(before).push(value));
                assert(wire_results(before) + (seq![value] + rest) =~= wire_results(before).push(
                    value,
                ) + rest);
            },
            _ => {},
        }
    } else {
        assert(blocks.take(start) =~= blocks);
        assert(wire_results(results_among(blocks)) + Seq::<JsonModel>::empty() =~= wire_results(
            results_among(blocks),
        ));
    }
}

/// Whether a wire message is the result of a tool.
pub open spec fn is_result(wire: JsonModel, result: ToolResultModel) -> bool {
    &&& wire.str_at("role"@) == Some("tool"@)
    &&& wire.str_at("content"@) == Some(result.content)
    &&& wire.str_at("tool_call_id"@) is Some
}

/// Whether a wire value is a tool call.
pub open spec fn is_call(wire: JsonModel, call: ToolCallModel) -> bool {
    &&& wire.str_at("type"@) == Some("function"@)
    &&& wire.str_at("id"@) is Some
    &&& wire.get("function"@) is Some
    &&& wire.get("function"@)->0.str_at("name"@) == Some(call.name)
    &&& wire.get("function"@)->0.str_at("arguments"@) == Some(call.raw_arguments)
}

proof fn lemma_call(call: ToolCallModel)
    ensures
        is_call(call_value(call.id, call.name, call.raw_arguments), call),
        call_value(call.id, call.name, call.raw_arguments).str_at("id"@) == Some(
            chat_call_id(call.id),
        ),
{
    reveal_strlit("id");
    reveal_strlit("type");
    reveal_strlit("function");
    reveal_strlit("name");
    reveal_strlit("arguments");
    reveal_with_fuel(find_member, 4);
    let wire = call_value(call.id, call.name, call.raw_arguments);
    let members = wire->Object_0;
    assert(members.drop_first()[0] == members[1]);
    assert(members.drop_first().drop_first()[0] == members[2]);
    assert("id"@.len() != "type"@.len());
    assert("id"@.len() != "function"@.len());
    assert("type"@.len() != "function"@.len());
    let inner = members[2].1->Object_0;
    assert("name"@.len() != "arguments"@.len());
    assert(inner.drop_first()[0] == inner[1]);
}

proof fn lemma_result(result: ToolResultModel)
    ensures
        is_result(result_message(result.call_id, result.content), result),
        result_message(result.call_id, result.content).str_at("tool_call_id"@) == Some(
            chat_call_id(result.call_id),
        ),
{
    reveal_strlit("role");
    reveal_strlit("tool_call_id");
    reveal_strlit("content");
    reveal_with_fuel(find_member, 4);
    let members = result_message(result.call_id, result.content)->Object_0;
    assert(members.drop_first()[0] == members[1]);
    assert(members.drop_first().drop_first()[0] == members[2]);
    assert("role"@.len() != "tool_call_id"@.len());
    assert("role"@.len() != "content"@.len());
    assert("tool_call_id"@.len() != "content"@.len());
}

/// The members that a message object is built from, before reasoning is handed back.
spec fn plain_members(message: MessageModel, policy: SystemRolePolicy) -> Seq<
    (Seq<char>, JsonModel),
> {
    let text = joined_text(message.content, 0);
    let calls = call_values(message.content, 0);
    let base = seq![("role"@, str_value(chat_role(message.role, policy)))];
    let with_text = with_member(
        base,
        "content"@,
        if text.len() == 0 {
            None
        } else {
            Some(str_value(text))
        },
    );
    let with_calls = with_member(
        with_text,
        "tool_calls"@,
        if calls.len() == 0 {
            None
        } else {
            Some(JsonModel::Array(calls))
        },
    );
    with_member(with_calls, "reasoning_details"@, message_details(message))
}

proof fn lemma_plain(message: MessageModel, policy: SystemRolePolicy, key: Seq<char>)
    ensures
        ({
            let text = joined_text(message.content, 0);
            let calls = call_values(message.content, 0);
            find_member(plain_members(message, policy), key) == if key == "role"@ {
                Some(str_value(chat_role(message.role, policy)))
            } else if key == "content"@ {
                if text.len() == 0 {
                    None
                } else {
                    Some(str_value(text))
                }
            } else if key == "tool_calls"@ {
                if calls.len() == 0 {
                    None
                } else {
                    Some(JsonModel::Array(calls))
                }
            } else if key == "reasoning_details"@ {
                message_details(message)
            } else {
                None
            }
        }),
{
    reveal_strlit("role");
    reveal_strlit("content");
    reveal_strlit("tool_calls");
    reveal_strlit("reasoning_details");
    assert("role"@.len() == 4 && "content"@.len() == 7 && "tool_calls"@.len() == 10
        && "reasoning_details"@.len() == 17);
    let text = joined_text(message.content, 0);
    let calls = call_values(message.content, 0);
    let base = seq![("role"@, str_value(chat_role(message.role, policy)))];
    let said = if text.len() == 0 {
        None
    } else {
        Some(str_value(text))
    };
    let called = if calls.len() == 0 {
        None
    } else {
        Some(JsonModel::Array(calls))
    };
    let with_text = with_member(base, "content"@, said);
    let with_calls = with_member(with_text, "tool_calls"@, called);
    an_added_member_is_found(base, "content"@, said, key);
    an_added_member_is_found(with_text, "tool_calls"@, called, key);
    an_added_member_is_found(with_calls, "reasoning_details"@, message_details(message), key);
    reveal_with_fuel(find_member, 2);
}

proof fn lemma_position(members: Seq<(Seq<char>, JsonModel)>, key: Seq<char>, start: int)
    requires
        0 <= start <= members.len(),
    ensures
        start <= member_position(members, key, start) <= members.len(),
        member_position(members, key, start) < members.len() ==> members[member_position(
            members,
            key,
            start,
        )].0 == key,
    decreases members.len() - start,
{
    if start < members.len() && members[start].0 != key {
        lemma_position(members, key, start + 1);
    }
}

/// Changing a member leaves the others as they are.
proof fn lemma_update(members: Seq<(Seq<char>, JsonModel)>, at: int, value: JsonModel, key: Seq<char>)
    requires
        0 <= at < members.len(),
        members[at].0 != key,
    ensures
        find_member(members.update(at, (members[at].0, value)), key) == find_member(members, key),
    decreases members.len(),
{
    reveal(find_member);
    let next = members.update(at, (members[at].0, value));
    if at == 0 {
        assert(next.drop_first() =~= members.drop_first());
    } else {
        let rest = members.drop_first();
        lemma_update(rest, at - 1, value, key);
        assert(next.drop_first() =~= rest.update(at - 1, (rest[at - 1].0, value)));
    }
}

/// Reasoning that is handed back changes no other member.
proof fn lemma_reasoning_keeps(
    members: Seq<(Seq<char>, JsonModel)>,
    blocks: Seq<ContentBlockModel>,
    start: int,
    key: Seq<char>,
)
    requires
        key != "reasoning_content"@,
        key != "reasoning"@,
        key != "reasoning_text"@,
    ensures
        find_member(with_reasonings(members, blocks, start), key) == find_member(members, key),
    decreases blocks.len() - start,
{
    if 0 <= start < blocks.len() {
        match handed_back(blocks[start]) {
            Some((field, text)) => {
                let name = reasoning_field_name(field);
                let next = with_reasoning(members, name, text);
                let at = member_position(members, name, 0);
                lemma_position(members, name, 0);
                if at < members.len() {
                    lemma_update(members, at, next[at].1, key);
                    assert(next =~= members.update(at, (members[at].0, next[at].1)));
                } else {
                    an_added_member_is_found(members, name, Some(str_value(text)), key);
                    assert(next =~= with_member(members, name, Some(str_value(text))));
                }
                lemma_reasoning_keeps(next, blocks, start + 1, key);
            },
            None => {
                lemma_reasoning_keeps(members, blocks, start + 1, key);
            },
        }
    }
}

/// The role that a message goes out under.
pub open spec fn goes_out_as(role: Role, policy: SystemRolePolicy, name: Seq<char>) -> bool {
    match role {
        Role::System => name == if policy == SystemRolePolicy::Developer {
            "developer"@
        } else {
            "system"@
        },
        Role::Developer => name == if policy == SystemRolePolicy::System {
            "system"@
        } else {
            "developer"@
        },
        Role::User => name == "user"@,
        Role::Assistant => name == "assistant"@,
        Role::Tool => name == "tool"@,
    }
}

/// A message says on the wire what it says: under its role, with the texts of its blocks put
/// together as its content, and with each of its tool calls in order, under its name and with its
/// arguments as they were. Its tool results follow as messages of their own, in order. A message of
/// results alone stands for nothing but them.
pub proof fn messages_say_what_they_say(message: MessageModel, policy: SystemRolePolicy)
    ensures
        ({
            let wire = chat_messages(message, policy);
            let results = results_among(message.content);
            let calls = calls_among(message.content);
            let own: int = if message.role == Role::Tool && results.len() > 0 {
                0
            } else {
                1
            };
            &&& wire.len() == own + results.len()
            &&& forall|k: int| 0 <= k < results.len() ==> is_result(#[trigger] wire[own + k], results[k])
            &&& own == 1 ==> {
                &&& wire[0].str_at("role"@) is Some
                &&& goes_out_as(message.role, policy, wire[0].str_at("role"@)->0)
                &&& spoken(message.content).len() > 0 ==> wire[0].str_at("content"@) == Some(
                    spoken(message.content),
                )
                &&& spoken(message.content).len() == 0 ==> wire[0].get("content"@) is None
                &&& calls.len() > 0 ==> {
                    let sent = wire[0].array_at("tool_calls"@);
                    &&& sent is Some
                    &&& sent->0.len() == calls.len()
                    &&& forall|k: int| 0 <= k < calls.len() ==> is_call(#[trigger] sent->0[k], calls[k])
                }
                &&& calls.len() == 0 ==> wire[0].get("tool_calls"@) is None
            }
        }),
{
    let blocks = message.content;
    let none = blocks.take(0);
    assert(none.len() == 0);
    lemma_spoken(blocks, 0);
    lemma_calls(blocks, 0);
    lemma_results(blocks, 0);
    assert(spoken(none) + joined_text(blocks, 0) =~= joined_text(blocks, 0));
    assert(wire_calls(calls_among(none)) + call_values(blocks, 0) =~= call_values(blocks, 0));
    assert(wire_results(results_among(none)) + result_messages(blocks, 0) =~= result_messages(
        blocks,
        0,
    ));
    let wire = chat_messages(message, policy);
    let results = results_among(blocks);
    let calls = calls_among(blocks);
    let own: int = if message.role == Role::Tool && results.len() > 0 {
        0
    } else {
        1
    };
    assert forall|k: int| 0 <= k < results.len() implies is_result(
        #[trigger] wire[own + k],
        results[k],
    ) by {
        assert(wire[own + k] == result_messages(blocks, 0)[k]);
        lemma_result(results[k]);
    }
    if own == 1 {
        let members = plain_members(message, policy);
        assert(wire[0] == JsonModel::Object(with_reasonings(members, blocks, 0)));
        reveal_strlit("role");
        reveal_strlit("content");
        reveal_strlit("tool_calls");
        reveal_strlit("reasoning_content");
        reveal_strlit("reasoning");
        reveal_strlit("reasoning_text");
        assert("role"@.len() == 4 && "content"@.len() == 7 && "tool_calls"@.len() == 10
            && "reasoning"@.len() == 9 && "reasoning_content"@.len() == 17
            && "reasoning_text"@.len() == 14);
        lemma_reasoning_keeps(members, blocks, 0, "role"@);
        lemma_reasoning_keeps(members, blocks, 0, "content"@);
        lemma_reasoning_keeps(members, blocks, 0, "tool_calls"@);
        lemma_plain(message, policy, "role"@);
        lemma_plain(message, policy, "content"@);
        lemma_plain(message, policy, "tool_calls"@);
        assert forall|k: int| 0 <= k < calls.len() implies is_call(
            #[trigger] call_values(blocks, 0)[k],
            calls[k],
        ) by {
            lemma_call(calls[k]);
        }
    }
}

/// A result goes out under the identifier that its call goes out under.
pub proof fn a_result_names_its_call(call: ToolCallModel, result: ToolResultModel, policy: SystemRolePolicy)
    requires
        call.id == result.call_id,
    ensures
        ({
            let asked = MessageModel {
                role: Role::Assistant,
                content: seq![ContentBlockModel::ToolCall { tool_call: call }],
                provider_metadata: no_metadata(),
            };
            let answered = MessageModel {
                role: Role::Tool,
                content: seq![ContentBlockModel::ToolResult { tool_result: result }],
                provider_metadata: no_metadata(),
            };
            let id = chat_messages(asked, policy)[0].array_at("tool_calls"@)->0[0].str_at("id"@);
            &&& id is Some
            &&& chat_messages(answered, policy)[0].str_at("tool_call_id"@) == id
        }),
{
    let asked = MessageModel {
        role: Role::Assistant,
        content: seq![ContentBlockModel::ToolCall { tool_call: call }],
        provider_metadata: no_metadata(),
    };
    messages_say_what_they_say(asked, policy);
    lemma_call(call);
    lemma_result(result);
    reveal_with_fuel(call_values, 2);
    reveal_with_fuel(result_messages, 2);
    reveal_with_fuel(calls_among, 2);
    reveal_with_fuel(results_among, 2);
    let members = plain_members(asked, policy);
    reveal_strlit("role");
    reveal_strlit("content");
    reveal_strlit("tool_calls");
    reveal_strlit("reasoning_content");
    reveal_strlit("reasoning");
    reveal_strlit("reasoning_text");
    assert("role"@.len() == 4 && "content"@.len() == 7 && "tool_calls"@.len() == 10
        && "reasoning"@.len() == 9 && "reasoning_content"@.len() == 17
        && "reasoning_text"@.len() == 14);
    lemma_reasoning_keeps(members, asked.content, 0, "tool_calls"@);
    lemma_plain(asked, policy, "tool_calls"@);
}

/// An identifier that a provider accepts goes out as it is.
pub proof fn accepted_identifiers_stay(id: Seq<char>)
    requires
        "call_"@.is_prefix_of(id),
        5 < id.len() <= 64,
        forall|i: int| 0 <= i < id.len() ==> is_id_char(#[trigger] id[i]),
        id.last() != '_',
    ensures
        chat_call_id(id) == id,
{
    assert(accepted_chars(id) =~= id);
    assert(squeezed_id(id) == id);
}

/// A conversation is told in its order: what its first part and its second part become stand one
/// after the other, wherever it is cut.
pub proof fn conversations_are_told_in_order(
    first: Seq<MessageModel>,
    second: Seq<MessageModel>,
    policy: SystemRolePolicy,
)
    ensures
        history(first + second, policy, 0) == history(first, policy, 0) + history(
            second,
            policy,
            0,
        ),
{
    lemma_history_second(first, second, policy, 0);
    lemma_history_first(first, second, policy, 0);
}

/// One message becomes its own wire messages.
pub proof fn a_message_stands_for_itself(message: MessageModel, policy: SystemRolePolicy)
    ensures
        history(seq![message], policy, 0) == chat_messages(message, policy),
{
    reveal_with_fuel(history, 2);
    assert(chat_messages(message, policy) + Seq::<JsonModel>::empty() =~= chat_messages(
        message,
        policy,
    ));
}

proof fn lemma_history_second(
    first: Seq<MessageModel>,
    second: Seq<MessageModel>,
    policy: SystemRolePolicy,
    start: int,
)
    requires
        0 <= start,
    ensures
        history(first + second, policy, first.len() + start) == history(second, policy, start),
    decreases second.len() - start,
{
    if start < second.len() {
        lemma_history_second(first, second, policy, start + 1);
        assert((first + second)[first.len() + start] == second[start]);
    }
}

proof fn lemma_history_first(
    first: Seq<MessageModel>,
    second: Seq<MessageModel>,
    policy: SystemRolePolicy,
    start: int,
)
    requires
        0 <= start <= first.len(),
    ensures
        history(first + second, policy, start) == history(first, policy, start) + history(
            first + second,
            policy,
            first.len() as int,
        ),
    decreases first.len() - start,
{
    let rest = history(first + second, policy, first.len() as int);
    if start < first.len() {
        lemma_history_first(first, second, policy, start + 1);
        assert((first + second)[start] == first[start]);
        let here = chat_messages(first[start], policy);
        let later = history(first, policy, start + 1);
        assert(here + (later + rest) =~= (here + later) + rest);
    } else {
        assert(Seq::<JsonModel>::empty() + rest =~= rest);
    }
}

/// Whether a wire value is the definition of a tool.
pub open spec fn is_tool(wire: JsonModel, tool: ToolDefinitionModel) -> bool {
    &&& wire.str_at("type"@) == Some("function"@)
    &&& wire.get("function"@) is Some
    &&& wire.get("function"@)->0.str_at("name"@) == Some(tool.name)
    &&& wire.get("function"@)->0.str_at("description"@) == Some(tool.description)
    &&& wire.get("function"@)->0.get("parameters"@) == Some(tool.parameters)
}

proof fn lemma_tool(tool: ToolDefinitionModel)
    ensures
        is_tool(chat_tool(tool), tool),
{
    reveal_strlit("type");
    reveal_strlit("function");
    reveal_strlit("name");
    reveal_strlit("description");
    reveal_strlit("parameters");
    reveal_with_fuel(find_member, 4);
    let members = chat_tool(tool)->Object_0;
    assert("type"@.len() != "function"@.len());
    assert(members.drop_first()[0] == members[1]);
    let inner = members[1].1->Object_0;
    assert("name"@.len() == 4 && "description"@.len() == 11 && "parameters"@.len() == 10);
    assert(inner.drop_first()[0] == inner[1]);
    assert(inner.drop_first().drop_first()[0] == inner[2]);
}

/// What every member of a request body is.
proof fn lemma_body(
    compatibility: CompatibilityProfile,
    request: GenerateRequestModel,
    key: Seq<char>,
)
    ensures
        ({
            let limit = if compatibility.max_tokens_field == MaxTokensField::MaxTokens {
                "max_tokens"@
            } else {
                "max_completion_tokens"@
            };
            find_member(request_members(compatibility, request), key) == if key == "model"@ {
                Some(str_value(request.model))
            } else if key == "messages"@ {
                Some(JsonModel::Array(history(request.messages, compatibility.system_role, 0)))
            } else if key == "stream"@ {
                Some(JsonModel::Bool(true))
            } else if key == "stream_options"@ {
                if compatibility.include_stream_usage {
                    Some(JsonModel::Object(seq![("include_usage"@, JsonModel::Bool(true))]))
                } else {
                    None
                }
            } else if key == "tools"@ {
                if request.tools.len() == 0 {
                    None
                } else {
                    Some(JsonModel::Array(chat_tools(request.tools)))
                }
            } else if key == limit {
                match request.max_output_tokens {
                    Some(max) => Some(JsonModel::Number(NumberModel::Unsigned(max))),
                    None => None,
                }
            } else if key == "temperature"@ {
                match request.temperature {
                    Some(temperature) => Some(JsonModel::Number(temperature)),
                    None => None,
                }
            } else {
                None
            }
        }),
{
    reveal_strlit("model");
    reveal_strlit("messages");
    reveal_strlit("stream");
    reveal_strlit("stream_options");
    reveal_strlit("tools");
    reveal_strlit("max_tokens");
    reveal_strlit("max_completion_tokens");
    reveal_strlit("temperature");
    assert("model"@.len() == 5 && "messages"@.len() == 8 && "stream"@.len() == 6
        && "stream_options"@.len() == 14 && "tools"@.len() == 5 && "max_tokens"@.len() == 10
        && "max_completion_tokens"@.len() == 21 && "temperature"@.len() == 11);
    assert("model"@[0] == 'm' && "tools"@[0] == 't');
    let base = seq![
        ("model"@, str_value(request.model)),
        (
            "messages"@,
            JsonModel::Array(history(request.messages, compatibility.system_role, 0)),
        ),
        ("stream"@, JsonModel::Bool(true)),
    ];
    let options = if compatibility.include_stream_usage {
        Some(JsonModel::Object(seq![("include_usage"@, JsonModel::Bool(true))]))
    } else {
        None
    };
    let tools = if request.tools.len() == 0 {
        None
    } else {
        Some(JsonModel::Array(chat_tools(request.tools)))
    };
    let limit = match request.max_output_tokens {
        Some(max) => Some(JsonModel::Number(NumberModel::Unsigned(max))),
        None => None,
    };
    let temperature = match request.temperature {
        Some(temperature) => Some(JsonModel::Number(temperature)),
        None => None,
    };
    let limit_key = max_tokens_key(compatibility.max_tokens_field);
    let with_options = with_member(base, "stream_options"@, options);
    let with_tools = with_member(with_options, "tools"@, tools);
    let with_limit = with_member(with_tools, limit_key, limit);
    an_added_member_is_found(base, "stream_options"@, options, key);
    an_added_member_is_found(with_options, "tools"@, tools, key);
    an_added_member_is_found(with_tools, limit_key, limit, key);
    an_added_member_is_found(with_limit, "temperature"@, temperature, key);
    reveal_with_fuel(find_member, 4);
    assert(base.drop_first()[0] == base[1]);
    assert(base.drop_first().drop_first()[0] == base[2]);
    assert(base.drop_first().drop_first().drop_first().len() == 0);
}

/// A request body asks for what the request asks for: its model, a stream, with usage where that is
/// wanted, its tools one by one, its limit in the member that the provider knows, and its
/// temperature. What is not asked for is not there.
pub proof fn bodies_ask_for_what_is_asked(
    compatibility: CompatibilityProfile,
    request: GenerateRequestModel,
)
    ensures
        match encoded_request(compatibility, request) {
            Err(_) => true,
            Ok(body) => {
                let limit = match request.max_output_tokens {
                    Some(max) => Some(max),
                    None => None,
                };
                let usual = compatibility.max_tokens_field == MaxTokensField::MaxTokens;
                &&& body.str_at("model"@) == Some(request.model)
                &&& body.get("stream"@) == Some(JsonModel::Bool(true))
                &&& compatibility.include_stream_usage ==> body.get2(
                    "stream_options"@,
                    "include_usage"@,
                ) == Some(JsonModel::Bool(true))
                &&& !compatibility.include_stream_usage ==> body.get("stream_options"@) is None
                &&& body.u64_at("max_tokens"@) == if usual {
                    limit
                } else {
                    None
                }
                &&& body.u64_at("max_completion_tokens"@) == if usual {
                    None
                } else {
                    limit
                }
                &&& body.get("temperature"@) == match request.temperature {
                    Some(temperature) => Some(JsonModel::Number(temperature)),
                    None => None,
                }
                &&& request.tools.len() == 0 ==> body.get("tools"@) is None
                &&& request.tools.len() > 0 ==> {
                    let tools = body.array_at("tools"@);
                    &&& tools is Some
                    &&& tools->0.len() == request.tools.len()
                    &&& forall|k: int|
                        0 <= k < request.tools.len() ==> is_tool(
                            #[trigger] tools->0[k],
                            request.tools[k],
                        )
                }
            },
        },
{
    reveal_with_fuel(find_member, 2);
    lemma_body(compatibility, request, "model"@);
    lemma_body(compatibility, request, "stream"@);
    lemma_body(compatibility, request, "stream_options"@);
    lemma_body(compatibility, request, "max_tokens"@);
    lemma_body(compatibility, request, "max_completion_tokens"@);
    lemma_body(compatibility, request, "temperature"@);
    lemma_body(compatibility, request, "tools"@);
    reveal_strlit("model");
    reveal_strlit("messages");
    reveal_strlit("stream");
    reveal_strlit("stream_options");
    reveal_strlit("tools");
    reveal_strlit("max_tokens");
    reveal_strlit("max_completion_tokens");
    reveal_strlit("temperature");
    assert("model"@.len() == 5 && "messages"@.len() == 8 && "stream"@.len() == 6
        && "stream_options"@.len() == 14 && "tools"@.len() == 5 && "max_tokens"@.len() == 10
        && "max_completion_tokens"@.len() == 21 && "temperature"@.len() == 11);
    assert("model"@[0] == 'm' && "tools"@[0] == 't');
    assert forall|k: int| 0 <= k < request.tools.len() implies is_tool(
        #[trigger] chat_tools(request.tools)[k],
        request.tools[k],
    ) by {
        lemma_tool(request.tools[k]);
    }
}

/// The messages of a request body, in its own words.
pub open spec fn told(compatibility: CompatibilityProfile, request: GenerateRequestModel) -> Seq<
    JsonModel,
> {
    match encoded_request(compatibility, request) {
        Ok(body) => match body.array_at("messages"@) {
            Some(messages) => messages,
            None => Seq::empty(),
        },
        Err(_) => Seq::empty(),
    }
}

/// The conversation in a request body is told in its order: wherever it is cut in two, the messages
/// of the whole are those of the first part, and after them those of the second. A request for one
/// message tells what that message says.
pub proof fn bodies_tell_the_conversation_in_order(
    compatibility: CompatibilityProfile,
    request: GenerateRequestModel,
    cut: int,
)
    requires
        encoded_request(compatibility, request) is Ok,
        0 <= cut <= request.messages.len(),
    ensures
        ({
            let first = GenerateRequestModel { messages: request.messages.take(cut), ..request };
            let second = GenerateRequestModel { messages: request.messages.skip(cut), ..request };
            &&& encoded_request(compatibility, first) is Ok
            &&& encoded_request(compatibility, second) is Ok
            &&& told(compatibility, request) == told(compatibility, first) + told(
                compatibility,
                second,
            )
        }),
        request.messages.len() == 0 ==> told(compatibility, request).len() == 0,
        request.messages.len() == 1 ==> told(compatibility, request) == chat_messages(
            request.messages[0],
            compatibility.system_role,
        ),
{
    let all = request.messages;
    let first = GenerateRequestModel { messages: all.take(cut), ..request };
    let second = GenerateRequestModel { messages: all.skip(cut), ..request };
    assert(valid_messages(first.messages)) by {
        assert forall|i: int, j: int|
            0 <= i < first.messages.len() && 0 <= j < first.messages[i].content.len() implies role_holds(
            first.messages[i].role,
            #[trigger] first.messages[i].content[j],
        ) by {
            assert(role_holds(all[i].role, all[i].content[j]));
        }
    }
    assert(valid_messages(second.messages)) by {
        assert forall|i: int, j: int|
            0 <= i < second.messages.len() && 0 <= j < second.messages[i].content.len() implies role_holds(
            second.messages[i].role,
            #[trigger] second.messages[i].content[j],
        ) by {
            assert(second.messages[i] == all[cut + i]);
            assert(role_holds(all[cut + i].role, all[cut + i].content[j]));
        }
    }
    assert(first.messages + second.messages =~= all);
    conversations_are_told_in_order(first.messages, second.messages, compatibility.system_role);
    lemma_body(compatibility, request, "messages"@);
    lemma_body(compatibility, first, "messages"@);
    lemma_body(compatibility, second, "messages"@);
    reveal_strlit("model");
    reveal_strlit("messages");
    assert("model"@.len() != "messages"@.len());
    if all.len() == 1 {
        a_message_stands_for_itself(all[0], compatibility.system_role);
        assert(all =~= seq![all[0]]);
    }
}

/// The reasoning that came in a field, block by block.
pub open spec fn thoughts(blocks: Seq<ContentBlockModel>, field: ChatReasoningField) -> Seq<Seq<char>>
    decreases blocks.len(),
{
    if blocks.len() == 0 {
        Seq::empty()
    } else {
        let before = thoughts(blocks.drop_last(), field);
        match blocks.last() {
            ContentBlockModel::Reasoning { reasoning } => if came_in(reasoning, field) {
                before.push(reasoning.display)
            } else {
                before
            },
            _ => before,
        }
    }
}

/// Whether reasoning came in a field.
pub open spec fn came_in(reasoning: ReasoningContentModel, field: ChatReasoningField) -> bool {
    &&& reasoning.display.len() > 0
    &&& reasoning.replay is Some
    &&& reasoning.replay->0.chat is Some
    &&& reasoning.replay->0.chat->0.reasoning_field == Some(field)
}

/// The name of a field that carries reasoning.
pub open spec fn field_key(field: ChatReasoningField) -> Seq<char> {
    match field {
        ChatReasoningField::ReasoningContent => "reasoning_content"@,
        ChatReasoningField::Reasoning => "reasoning"@,
        ChatReasoningField::ReasoningText => "reasoning_text"@,
    }
}

proof fn lemma_position_finds(members: Seq<(Seq<char>, JsonModel)>, key: Seq<char>, start: int)
    requires
        0 <= start <= members.len(),
    ensures
        ({
            let at = member_position(members, key, start);
            let found = find_member(members.skip(start), key);
            if at < members.len() {
                found == Some(members[at].1)
            } else {
                found is None
            }
        }),
    decreases members.len() - start,
{
    reveal(find_member);
    if start < members.len() {
        assert(members.skip(start)[0] == members[start]);
        assert(members.skip(start).drop_first() =~= members.skip(start + 1));
        if members[start].0 != key {
            lemma_position_finds(members, key, start + 1);
        }
    }
}

proof fn lemma_field_keys()
    ensures
        field_key(ChatReasoningField::ReasoningContent).len() == 17,
        field_key(ChatReasoningField::Reasoning).len() == 9,
        field_key(ChatReasoningField::ReasoningText).len() == 14,
{
    reveal_strlit("reasoning_content");
    reveal_strlit("reasoning");
    reveal_strlit("reasoning_text");
}

proof fn lemma_with_reasoning(
    members: Seq<(Seq<char>, JsonModel)>,
    name: Seq<char>,
    text: Seq<char>,
    key: Seq<char>,
)
    ensures
        find_member(with_reasoning(members, name, text), key) == if key != name {
            find_member(members, key)
        } else {
            match find_member(members, key) {
                None => Some(str_value(text)),
                Some(JsonModel::Str(existing)) => Some(
                    JsonModel::Str(existing + seq!['\n'] + text),
                ),
                Some(other) => Some(other),
            }
        },
{
    let next = with_reasoning(members, name, text);
    let at = member_position(members, name, 0);
    lemma_position(members, name, 0);
    lemma_position_finds(members, name, 0);
    assert(members.skip(0) =~= members);
    reveal_strlit("\n");
    assert("\n"@ =~= seq!['\n']);
    if at < members.len() {
        assert(next =~= members.update(at, (members[at].0, next[at].1)));
        if key != name {
            lemma_update(members, at, next[at].1, key);
        } else {
            lemma_position_finds(next, name, 0);
            assert(next.skip(0) =~= next);
            lemma_position_stays(members, next, name, 0);
        }
    } else {
        an_added_member_is_found(members, name, Some(str_value(text)), key);
        assert(next =~= with_member(members, name, Some(str_value(text))));
    }
}

proof fn lemma_position_stays(
    members: Seq<(Seq<char>, JsonModel)>,
    next: Seq<(Seq<char>, JsonModel)>,
    key: Seq<char>,
    start: int,
)
    requires
        next.len() == members.len(),
        forall|k: int| 0 <= k < members.len() ==> (#[trigger] next[k]).0 == members[k].0,
        0 <= start <= members.len(),
    ensures
        member_position(next, key, start) == member_position(members, key, start),
    decreases members.len() - start,
{
    if start < members.len() && members[start].0 != key {
        lemma_position_stays(members, next, key, start + 1);
    }
}

proof fn lemma_thoughts(
    members: Seq<(Seq<char>, JsonModel)>,
    blocks: Seq<ContentBlockModel>,
    start: int,
    field: ChatReasoningField,
)
    requires
        0 <= start <= blocks.len(),
        ({
            let so_far = thoughts(blocks.take(start), field);
            find_member(members, field_key(field)) == if so_far.len() == 0 {
                None
            } else {
                Some(JsonModel::Str(join_texts(so_far, seq!['\n'])))
            }
        }),
    ensures
        ({
            let all = thoughts(blocks, field);
            find_member(with_reasonings(members, blocks, start), field_key(field)) == if all.len()
                == 0 {
                None
            } else {
                Some(JsonModel::Str(join_texts(all, seq!['\n'])))
            }
        }),
    decreases blocks.len() - start,
{
    if start >= blocks.len() {
        assert(blocks.take(start) =~= blocks);
    } else {
        let so_far = thoughts(blocks.take(start), field);
        let next = blocks.take(start + 1);
        assert(next.drop_last() =~= blocks.take(start));
        assert(next.last() == blocks[start]);
        lemma_field_keys();
        match handed_back(blocks[start]) {
            Some((came, text)) => {
                let name = reasoning_field_name(came);
                assert(name == field_key(came));
                lemma_with_reasoning(members, name, text, field_key(field));
                if came == field {
                    let more = so_far.push(text);
                    assert(thoughts(next, field) == more);
                    assert(more.drop_last() =~= so_far);
                }
                lemma_thoughts(with_reasoning(members, name, text), blocks, start + 1, field);
            },
            None => {
                lemma_thoughts(members, blocks, start + 1, field);
            },
        }
    }
}

/// Reasoning goes back in the field that it came in, all of it, block by block, one to a line; a
/// field that no reasoning came in stays out.
pub proof fn reasoning_goes_back_in_its_field(
    message: MessageModel,
    policy: SystemRolePolicy,
    field: ChatReasoningField,
)
    requires
        message.role != Role::Tool,
    ensures
        ({
            let wire = chat_messages(message, policy)[0];
            let said = thoughts(message.content, field);
            wire.get(field_key(field)) == if said.len() == 0 {
                None
            } else {
                Some(JsonModel::Str(join_texts(said, seq!['\n'])))
            }
        }),
{
    let members = plain_members(message, policy);
    lemma_field_keys();
    reveal_strlit("role");
    reveal_strlit("content");
    reveal_strlit("tool_calls");
    reveal_strlit("reasoning_details");
    reveal_strlit("reasoning_content");
    assert("role"@.len() == 4 && "content"@.len() == 7 && "tool_calls"@.len() == 10
        && "reasoning_details"@.len() == 17);
    assert("reasoning_details"@[10] == 'd' && "reasoning_content"@[10] == 'c');
    lemma_plain(message, policy, field_key(field));
    assert(message.content.take(0) =~= Seq::<ContentBlockModel>::empty());
    lemma_thoughts(members, message.content, 0, field);
}

/// The details of the reasoning in a block.
pub open spec fn details_in(block: ContentBlockModel) -> Option<JsonModel> {
    if block is Reasoning && block->reasoning.replay is Some
        && block->reasoning.replay->0.chat is Some {
        block->reasoning.replay->0.chat->0.reasoning_details
    } else {
        None
    }
}

/// The details of reasoning go back as they came: those of the message, or else those of the first
/// block that has some.
pub proof fn details_go_back_as_they_came(message: MessageModel, policy: SystemRolePolicy, at: int)
    requires
        message.role != Role::Tool,
    ensures
        ({
            let sent = chat_messages(message, policy)[0].get("reasoning_details"@);
            let own = message.provider_metadata.chat is Some
                && message.provider_metadata.chat->0.reasoning_details is Some;
            &&& own ==> sent == message.provider_metadata.chat->0.reasoning_details
            &&& !own && 0 <= at < message.content.len() && details_in(message.content[at]) is Some
                && (forall|k: int|
                0 <= k < at ==> details_in(#[trigger] message.content[k]) is None) ==> sent
                == details_in(message.content[at])
            &&& !own && (forall|k: int|
                0 <= k < message.content.len() ==> details_in(
                    #[trigger] message.content[k],
                ) is None) ==> sent is None
        }),
{
    let members = plain_members(message, policy);
    let blocks = message.content;
    lemma_field_keys();
    reveal_strlit("reasoning_details");
    reveal_strlit("reasoning_content");
    assert("reasoning_details"@.len() == 17);
    assert("reasoning_details"@[10] == 'd' && "reasoning_content"@[10] == 'c');
    reveal_strlit("role");
    reveal_strlit("content");
    reveal_strlit("tool_calls");
    assert("role"@.len() == 4 && "content"@.len() == 7 && "tool_calls"@.len() == 10);
    lemma_plain(message, policy, "reasoning_details"@);
    lemma_reasoning_keeps(members, blocks, 0, "reasoning_details"@);
    if 0 <= at < blocks.len() && details_in(blocks[at]) is Some && (forall|k: int|
        0 <= k < at ==> details_in(#[trigger] blocks[k]) is None) {
        lemma_details(blocks, 0, at);
    }
    if forall|k: int| 0 <= k < blocks.len() ==> details_in(#[trigger] blocks[k]) is None {
        lemma_details(blocks, 0, blocks.len() as int);
    }
}

proof fn lemma_details(blocks: Seq<ContentBlockModel>, start: int, at: int)
    requires
        0 <= start <= at <= blocks.len(),
        forall|k: int| start <= k < at ==> details_in(#[trigger] blocks[k]) is None,
        at < blocks.len() ==> details_in(blocks[at]) is Some,
    ensures
        block_details(blocks, start) == if at < blocks.len() {
            details_in(blocks[at])
        } else {
            None
        },
    decreases at - start,
{
    if start < at {
        assert(details_in(blocks[start]) is None);
        lemma_details(blocks, start + 1, at);
    }
}

} // verus!
