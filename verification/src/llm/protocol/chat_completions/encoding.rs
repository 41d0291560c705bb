//! The encoding of requests and of message history for the Chat Completions API.

use vstd::prelude::*;
use vstd::string::*;

use crate::json::{
    array_value, number_value, object_value, put_member, put_string, with_member, Json, JsonModel,
    NumberModel,
};
use crate::llm::error::{protocol_error, GatewayError, GatewayErrorModel};
use crate::llm::model::{
    reasoning_field_name, ChatReasoningField, ContentBlock, ContentBlockModel, GenerateRequest,
    GenerateRequestModel, Message, MessageModel, ProviderMetadata, ProviderMetadataModel, Role,
    ToolDefinition, ToolDefinitionModel,
};
use crate::llm::protocol::chat_completions::session::ChatCompletionsSession;
use crate::llm::protocol::responses::encoding::{
    is_id_char, lemma_squeezed_is_accepted, squeeze_id, squeezed_id, str_value,
};
use crate::llm::protocol::{
    max_tokens_key, unsupported_block_error, valid_messages, validate_messages,
    CompatibilityProfile, SystemRolePolicy,
};
use crate::text::{blank, chars_of, is_blank, joined, same_text, starts_with};

verus! {

broadcast use crate::deep::group_models;

/// A call identifier that begins with `call_` and has something after it.
pub open spec fn chat_call_id(id: Seq<char>) -> Seq<char> {
    let squeezed = squeezed_id(id);
    if "call_"@.is_prefix_of(squeezed) && squeezed.len() > 5 {
        squeezed
    } else if squeezed.len() == 0 {
        "call_nostra"@
    } else {
        "call_"@ + squeezed
    }
}

pub fn normalize_chat_call_id(id: &str) -> (normalized: String)
    ensures
        normalized@ == chat_call_id(id@),
{
    let squeezed = squeeze_id(id);
    let length = chars_of(squeezed.as_str()).len();
    if starts_with(squeezed.as_str(), "call_") && length > 5 {
        squeezed
    } else if length == 0 {
        "call_nostra".to_owned()
    } else {
        joined("call_", squeezed.as_str())
    }
}

/// A call identifier begins with `call_`, goes on after that, and holds accepted characters alone.
pub proof fn call_ids_are_accepted(id: Seq<char>)
    ensures
        "call_"@.is_prefix_of(chat_call_id(id)),
        chat_call_id(id).len() > 5,
        forall|i: int| 0 <= i < chat_call_id(id).len() ==> is_id_char(#[trigger] chat_call_id(id)[i]),
{
    reveal_strlit("call_");
    reveal_strlit("call_nostra");
    let squeezed = squeezed_id(id);
    lemma_squeezed_is_accepted(id);
    assert("call_"@.is_prefix_of("call_"@ + squeezed));
    assert("call_"@ =~= "call_nostra"@.take(5));
    assert("call_"@.is_prefix_of("call_nostra"@));
}

/// The role of a message on the wire, under the policy for system messages.
pub open spec fn chat_role(role: Role, policy: SystemRolePolicy) -> Seq<char> {
    match role {
        Role::System => if policy == SystemRolePolicy::Developer {
            "developer"@
        } else {
            "system"@
        },
        Role::Developer => if policy == SystemRolePolicy::System {
            "system"@
        } else {
            "developer"@
        },
        Role::User => "user"@,
        Role::Assistant => "assistant"@,
        Role::Tool => "tool"@,
    }
}

fn role_name(role: Role, policy: SystemRolePolicy) -> (name: &'static str)
    ensures
        name@ == chat_role(role, policy),
{
    match (role, policy) {
        (Role::System | Role::Developer, SystemRolePolicy::System) => "system",
        (Role::System | Role::Developer, SystemRolePolicy::Developer) => "developer",
        (Role::System, _) => "system",
        (Role::Developer, _) => "developer",
        (Role::User, _) => "user",
        (Role::Assistant, _) => "assistant",
        (Role::Tool, _) => "tool",
    }
}

/// The text blocks put together, from position `start` on.
pub open spec fn joined_text(blocks: Seq<ContentBlockModel>, start: int) -> Seq<char>
    decreases blocks.len() - start,
{
    if start < 0 || start >= blocks.len() {
        Seq::empty()
    } else {
        match blocks[start] {
            ContentBlockModel::Text { text, .. } => text + joined_text(blocks, start + 1),
            _ => joined_text(blocks, start + 1),
        }
    }
}

pub open spec fn call_value(id: Seq<char>, name: Seq<char>, arguments: Seq<char>) -> JsonModel {
    JsonModel::Object(
        seq![
            ("id"@, str_value(chat_call_id(id))),
            ("type"@, str_value("function"@)),
            (
                "function"@,
                JsonModel::Object(
                    seq![("name"@, str_value(name)), ("arguments"@, str_value(arguments))],
                ),
            ),
        ],
    )
}

/// The tool calls of the blocks, from position `start` on.
pub open spec fn call_values(blocks: Seq<ContentBlockModel>, start: int) -> Seq<JsonModel>
    decreases blocks.len() - start,
{
    if start < 0 || start >= blocks.len() {
        Seq::empty()
    } else {
        match blocks[start] {
            ContentBlockModel::ToolCall { tool_call } => seq![
                call_value(tool_call.id, tool_call.name, tool_call.raw_arguments),
            ] + call_values(blocks, start + 1),
            _ => call_values(blocks, start + 1),
        }
    }
}

pub open spec fn result_message(call_id: Seq<char>, content: Seq<char>) -> JsonModel {
    JsonModel::Object(
        seq![
            ("role"@, str_value("tool"@)),
            ("tool_call_id"@, str_value(chat_call_id(call_id))),
            ("content"@, str_value(content)),
        ],
    )
}

/// The tool results of the blocks, from position `start` on: each is a message of its own.
pub open spec fn result_messages(blocks: Seq<ContentBlockModel>, start: int) -> Seq<JsonModel>
    decreases blocks.len() - start,
{
    if start < 0 || start >= blocks.len() {
        Seq::empty()
    } else {
        match blocks[start] {
            ContentBlockModel::ToolResult { tool_result } => seq![
                result_message(tool_result.call_id, tool_result.content),
            ] + result_messages(blocks, start + 1),
            _ => result_messages(blocks, start + 1),
        }
    }
}

pub open spec fn metadata_details(metadata: ProviderMetadataModel) -> Option<JsonModel> {
    match metadata.chat {
        Some(chat) => chat.reasoning_details,
        None => None,
    }
}

/// The reasoning details of the first reasoning block that has some, from position `start` on.
pub open spec fn block_details(blocks: Seq<ContentBlockModel>, start: int) -> Option<JsonModel>
    decreases blocks.len() - start,
{
    if start < 0 || start >= blocks.len() {
        None
    } else {
        let own = match blocks[start] {
            ContentBlockModel::Reasoning { reasoning } => match reasoning.replay {
                Some(replay) => metadata_details(replay),
                None => None,
            },
            _ => None,
        };
        match own {
            Some(details) => Some(details),
            None => block_details(blocks, start + 1),
        }
    }
}

/// The details that a message hands back: its own, or else those of its reasoning.
pub open spec fn message_details(message: MessageModel) -> Option<JsonModel> {
    match metadata_details(message.provider_metadata) {
        Some(details) => Some(details),
        None => block_details(message.content, 0),
    }
}

/// The member with one more line of reasoning.
pub open spec fn extended_member(value: JsonModel, text: Seq<char>) -> JsonModel {
    match value {
        JsonModel::Str(existing) => JsonModel::Str(existing + "\n"@ + text),
        other => other,
    }
}

/// The first position, from `start` on, of the member `key`.
pub open spec fn member_position(
    members: Seq<(Seq<char>, JsonModel)>,
    key: Seq<char>,
    start: int,
) -> int
    decreases members.len() - start,
{
    if start >= members.len() || members[start].0 == key {
        start
    } else {
        member_position(members, key, start + 1)
    }
}

/// The members with reasoning text under `key`: a new member, or one more line of it.
pub open spec fn with_reasoning(
    members: Seq<(Seq<char>, JsonModel)>,
    key: Seq<char>,
    text: Seq<char>,
) -> Seq<(Seq<char>, JsonModel)> {
    let at = member_position(members, key, 0);
    if at < members.len() {
        members.update(at, (key, extended_member(members[at].1, text)))
    } else {
        members.push((key, str_value(text)))
    }
}

/// The member and the text by which a block hands its reasoning back.
pub open spec fn handed_back(block: ContentBlockModel) -> Option<(ChatReasoningField, Seq<char>)> {
    match block {
        ContentBlockModel::Reasoning { reasoning } => if reasoning.display.len() == 0 {
            None
        } else {
            match reasoning.replay {
                Some(replay) => match replay.chat {
                    Some(chat) => match chat.reasoning_field {
                        Some(field) => Some((field, reasoning.display)),
                        None => None,
                    },
                    None => None,
                },
                None => None,
            }
        },
        _ => None,
    }
}

/// The members with the reasoning of the blocks, from position `start` on.
pub open spec fn with_reasonings(
    members: Seq<(Seq<char>, JsonModel)>,
    blocks: Seq<ContentBlockModel>,
    start: int,
) -> Seq<(Seq<char>, JsonModel)>
    decreases blocks.len() - start,
{
    if start < 0 || start >= blocks.len() {
        members
    } else {
        match handed_back(blocks[start]) {
            Some((field, text)) => with_reasonings(
                with_reasoning(members, reasoning_field_name(field), text),
                blocks,
                start + 1,
            ),
            None => with_reasonings(members, blocks, start + 1),
        }
    }
}

/// The message itself, but for its tool results.
pub open spec fn message_object(message: MessageModel, policy: SystemRolePolicy) -> JsonModel {
    let text = joined_text(message.content, 0);
    let calls = call_values(message.content, 0);
    let base = seq![("role"@, str_value(chat_role(message.role, policy)))];
    let with_text = with_member(
        base,
        "content"@,
        if text.len() == 0 {
            None
        } else {
            Some(str_value(text))
        },
    );
    let with_calls = with_member(
        with_text,
        "tool_calls"@,
        if calls.len() == 0 {
            None
        } else {
            Some(JsonModel::Array(calls))
        },
    );
    let with_details = with_member(with_calls, "reasoning_details"@, message_details(message));
    JsonModel::Object(with_reasonings(with_details, message.content, 0))
}

/// The wire messages of a message. A tool message stands for its results alone.
pub open spec fn chat_messages(message: MessageModel, policy: SystemRolePolicy) -> Seq<JsonModel> {
    let results = result_messages(message.content, 0);
    if message.role == Role::Tool && results.len() > 0 {
        results
    } else {
        seq![message_object(message, policy)] + results
    }
}

fn text_of(blocks: &Vec<ContentBlock>) -> (text: String)
    ensures
        text@ == joined_text(blocks.deep_view(), 0),
{
    let ghost all = blocks.deep_view();
    let mut text = String::new();
    let mut i: usize = 0;
    proof {
        assert(Seq::<char>::empty() + joined_text(all, 0) =~= joined_text(all, 0));
    }
    while i < blocks.len()
        invariant
            all == blocks.deep_view(),
            i <= blocks.len(),
            text@ + joined_text(all, i as int) == joined_text(all, 0),
        decreases blocks.len() - i,
    {
        let ghost before = text@;
        proof {
            assert(all[i as int] == blocks@[i as int].deep_view());
        }
        match &blocks[i] {
            ContentBlock::Text { text: more, .. } => {
                text.append(more.as_str());
                proof {
                    let rest = joined_text(all, i + 1);
                    assert(before + (more@ + rest) =~= (before + more@) + rest);
                }
            },
            _ => {},
        }
        i += 1;
    }
    proof {
        assert(text@ =~= joined_text(all, 0));
    }
    text
}

fn call_json(id: &str, name: &str, arguments: &str) -> (value: Json)
    ensures
        value.deep_view() == call_value(id@, name@, arguments@),
{
    let mut function: Vec<(String, Json)> = Vec::new();
    put_string(&mut function, "name", name);
    put_string(&mut function, "arguments", arguments);
    proof {
        assert(function.deep_view() =~= seq![
            ("name"@, str_value(name@)),
            ("arguments"@, str_value(arguments@)),
        ]);
    }
    let mut members: Vec<(String, Json)> = Vec::new();
    put_string(&mut members, "id", normalize_chat_call_id(id).as_str());
    put_string(&mut members, "type", "function");
    put_member(&mut members, "function", object_value(function));
    let value = object_value(members);
    proof {
        assert(value.deep_view()->Object_0 =~= call_value(id@, name@, arguments@)->Object_0);
    }
    value
}

fn calls_of(blocks: &Vec<ContentBlock>) -> (calls: Vec<Json>)
    ensures
        calls.deep_view() == call_values(blocks.deep_view(), 0),
{
    let ghost all = blocks.deep_view();
    let mut calls: Vec<Json> = Vec::new();
    let mut i: usize = 0;
    proof {
        assert(Seq::<JsonModel>::empty() + call_values(all, 0) =~= call_values(all, 0));
    }
    while i < blocks.len()
        invariant
            all == blocks.deep_view(),
            i <= blocks.len(),
            calls.deep_view() + call_values(all, i as int) == call_values(all, 0),
        decreases blocks.len() - i,
    {
        let ghost before = calls.deep_view();
        proof {
            assert(all[i as int] == blocks@[i as int].deep_view());
        }
        match &blocks[i] {
            ContentBlock::ToolCall { tool_call } => {
                let value = call_json(
                    tool_call.id.as_str(),
                    tool_call.name.as_str(),
                    tool_call.raw_arguments.as_str(),
                );
                let ghost model = value.deep_view();
                calls.push(value);
                proof {
                    let rest = call_values(all, i + 1);
                    assert(before + (seq![model] + rest) =~= before.push(model) + rest);
                }
            },
            _ => {},
        }
        i += 1;
    }
    proof {
        assert(calls.deep_view() =~= call_values(all, 0));
    }
    calls
}

fn result_json(call_id: &str, content: &str) -> (value: Json)
    ensures
        value.deep_view() == result_message(call_id@, content@),
{
    let mut members: Vec<(String, Json)> = Vec::new();
    put_string(&mut members, "role", "tool");
    put_string(&mut members, "tool_call_id", normalize_chat_call_id(call_id).as_str());
    put_string(&mut members, "content", content);
    let value = object_value(members);
    proof {
        assert(value.deep_view()->Object_0 =~= result_message(call_id@, content@)->Object_0);
    }
    value
}

fn results_of(blocks: &Vec<ContentBlock>) -> (results: Vec<Json>)
    ensures
        results.deep_view() == result_messages(blocks.deep_view(), 0),
{
    let ghost all = blocks.deep_view();
    let mut results: Vec<Json> = Vec::new();
    let mut i: usize = 0;
    proof {
        assert(Seq::<JsonModel>::empty() + result_messages(all, 0) =~= result_messages(all, 0));
    }
    while i < blocks.len()
        invariant
            all == blocks.deep_view(),
            i <= blocks.len(),
            results.deep_view() + result_messages(all, i as int) == result_messages(all, 0),
        decreases blocks.len() - i,
    {
        let ghost before = results.deep_view();
        proof {
            assert(all[i as int] == blocks@[i as int].deep_view());
        }
        match &blocks[i] {
            ContentBlock::ToolResult { tool_result } => {
                let value = result_json(
                    tool_result.call_id.as_str(),
                    tool_result.content.as_str(),
                );
                let ghost model = value.deep_view();
                results.push(value);
                proof {
                    let rest = result_messages(all, i + 1);
                    assert(before + (seq![model] + rest) =~= before.push(model) + rest);
                }
            },
            _ => {},
        }
        i += 1;
    }
    proof {
        assert(results.deep_view() =~= result_messages(all, 0));
    }
    results
}

fn details_in(metadata: &ProviderMetadata) -> (details: Option<Json>)
    ensures
        details.deep_view() == metadata_details(metadata.deep_view()),
{
    match &metadata.chat {
        Some(chat) => chat.reasoning_details.clone(),
        None => None,
    }
}

fn details_of(message: &Message) -> (details: Option<Json>)
    ensures
        details.deep_view() == message_details(message.deep_view()),
{
    match details_in(&message.provider_metadata) {
        Some(details) => {
            return Some(details);
        },
        None => {},
    }
    let ghost all = message.content.deep_view();
    let mut i: usize = 0;
    while i < message.content.len()
        invariant
            all == message.content.deep_view(),
            i <= message.content.len(),
            message_details(message.deep_view()) == block_details(all, i as int),
        decreases message.content.len() - i,
    {
        proof {
            assert(all[i as int] == message.content@[i as int].deep_view());
        }
        match &message.content[i] {
            ContentBlock::Reasoning { reasoning } => match &reasoning.replay {
                Some(replay) => match details_in(replay) {
                    Some(details) => {
                        return Some(details);
                    },
                    None => {},
                },
                None => {},
            },
            _ => {},
        }
        i += 1;
    }
    None
}

fn add_reasoning(members: &mut Vec<(String, Json)>, key: &str, text: &str)
    ensures
        final(members).deep_view() == with_reasoning(old(members).deep_view(), key@, text@),
{
    let ghost before = members.deep_view();
    let mut at: usize = 0;
    while at < members.len() && !same_text(members[at].0.as_str(), key)
        invariant
            before == members.deep_view(),
            *members == *old(members),
            at <= members.len(),
            member_position(before, key@, 0) == member_position(before, key@, at as int),
        decreases members.len() - at,
    {
        proof {
            assert(before[at as int] == members@[at as int].deep_view());
        }
        at += 1;
    }
    if at < members.len() {
        proof {
            assert(before[at as int] == members@[at as int].deep_view());
        }
        let value = match &members[at].1 {
            Json::Str(existing) => {
                let mut line = joined(existing.as_str(), "\n");
                line.append(text);
                Json::Str(line)
            },
            other => other.clone(),
        };
        members.set(at, (key.to_owned(), value));
    } else {
        put_string(members, key, text);
    }
}

fn reasoning_back(block: &ContentBlock) -> (result: Option<(ChatReasoningField, &String)>)
    ensures
        match result {
            Some((field, text)) => handed_back(block.deep_view()) == Some((field, text@)),
            None => handed_back(block.deep_view()) is None,
        },
{
    match block {
        ContentBlock::Reasoning { reasoning } => {
            if reasoning.display.as_str().is_empty() {
                return None;
            }
            match &reasoning.replay {
                Some(replay) => match &replay.chat {
                    Some(chat) => match chat.reasoning_field {
                        Some(field) => Some((field, &reasoning.display)),
                        None => None,
                    },
                    None => None,
                },
                None => None,
            }
        },
        _ => None,
    }
}

pub fn encode_message(message: &Message, compatibility: &CompatibilityProfile) -> (result: Result<
    Vec<Json>,
    GatewayError,
>)
    ensures
        result is Ok,
        result->Ok_0.deep_view() == chat_messages(message.deep_view(), compatibility.system_role),
{
    let ghost model = message.deep_view();
    let text = text_of(&message.content);
    let calls = calls_of(&message.content);
    let mut results = results_of(&message.content);
    let is_tool = match message.role {
        Role::Tool => true,
        _ => false,
    };
    if is_tool && results.len() > 0 {
        return Ok(results);
    }
    let mut members: Vec<(String, Json)> = Vec::new();
    put_string(&mut members, "role", role_name(message.role, compatibility.system_role));
    if !text.as_str().is_empty() {
        put_string(&mut members, "content", text.as_str());
    }
    if calls.len() > 0 {
        put_member(&mut members, "tool_calls", array_value(calls));
    }
    match details_of(message) {
        Some(details) => {
            put_member(&mut members, "reasoning_details", details);
        },
        None => {},
    }
    proof {
        assert(message_object(model, compatibility.system_role)->Object_0 == with_reasonings(
            members.deep_view(),
            model.content,
            0,
        ));
    }
    let mut i: usize = 0;
    while i < message.content.len()
        invariant
            model == message.deep_view(),
            i <= message.content.len(),
            message_object(model, compatibility.system_role)->Object_0 == with_reasonings(
                members.deep_view(),
                model.content,
                i as int,
            ),
        decreases message.content.len() - i,
    {
        proof {
            assert(model.content[i as int] == message.content@[i as int].deep_view());
        }
        match reasoning_back(&message.content[i]) {
            Some((field, text)) => {
                add_reasoning(&mut members, field.as_str(), text.as_str());
            },
            None => {},
        }
        i += 1;
    }
    let mut messages: Vec<Json> = Vec::new();
    messages.push(object_value(members));
    proof {
        assert(messages.deep_view() =~= seq![message_object(model, compatibility.system_role)]);
    }
    messages.append(&mut results);
    Ok(messages)
}

/// The wire messages of the history, from the message at `start` on.
pub open spec fn history(messages: Seq<MessageModel>, policy: SystemRolePolicy, start: int) -> Seq<
    JsonModel,
>
    decreases messages.len() - start,
{
    if start < 0 || start >= messages.len() {
        Seq::empty()
    } else {
        chat_messages(messages[start], policy) + history(messages, policy, start + 1)
    }
}

pub open spec fn chat_tool(tool: ToolDefinitionModel) -> JsonModel {
    JsonModel::Object(
        seq![
            ("type"@, str_value("function"@)),
            (
                "function"@,
                JsonModel::Object(
                    seq![
                        ("name"@, str_value(tool.name)),
                        ("description"@, str_value(tool.description)),
                        ("parameters"@, tool.parameters),
                    ],
                ),
            ),
        ],
    )
}

pub open spec fn chat_tools(tools: Seq<ToolDefinitionModel>) -> Seq<JsonModel> {
    Seq::new(tools.len(), |i: int| chat_tool(tools[i]))
}

/// The body of a request.
pub open spec fn request_members(
    compatibility: CompatibilityProfile,
    request: GenerateRequestModel,
) -> Seq<(Seq<char>, JsonModel)> {
    let base = seq![
        ("model"@, str_value(request.model)),
        (
            "messages"@,
            JsonModel::Array(history(request.messages, compatibility.system_role, 0)),
        ),
        ("stream"@, JsonModel::Bool(true)),
    ];
    let with_options = with_member(
        base,
        "stream_options"@,
        if compatibility.include_stream_usage {
            Some(JsonModel::Object(seq![("include_usage"@, JsonModel::Bool(true))]))
        } else {
            None
        },
    );
    let with_tools = with_member(
        with_options,
        "tools"@,
        if request.tools.len() == 0 {
            None
        } else {
            Some(JsonModel::Array(chat_tools(request.tools)))
        },
    );
    let with_limit = with_member(
        with_tools,
        max_tokens_key(compatibility.max_tokens_field),
        match request.max_output_tokens {
            Some(max) => Some(JsonModel::Number(NumberModel::Unsigned(max))),
            None => None,
        },
    );
    with_member(
        with_limit,
        "temperature"@,
        match request.temperature {
            Some(temperature) => Some(JsonModel::Number(temperature)),
            None => None,
        },
    )
}

/// The body of a request, or why there is none.
pub open spec fn encoded_request(
    compatibility: CompatibilityProfile,
    request: GenerateRequestModel,
) -> Result<JsonModel, GatewayErrorModel> {
    if is_blank(request.model) {
        Err(protocol_error("model must not be empty"@))
    } else if !valid_messages(request.messages) {
        Err(unsupported_block_error())
    } else {
        Ok(JsonModel::Object(request_members(compatibility, request)))
    }
}

fn tool_json(tool: &ToolDefinition) -> (value: Json)
    ensures
        value.deep_view() == chat_tool(tool.deep_view()),
{
    let mut function: Vec<(String, Json)> = Vec::new();
    put_string(&mut function, "name", tool.name.as_str());
    put_string(&mut function, "description", tool.description.as_str());
    put_member(&mut function, "parameters", tool.parameters.clone());
    proof {
        assert(function.deep_view() =~= seq![
            ("name"@, str_value(tool.name@)),
            ("description"@, str_value(tool.description@)),
            ("parameters"@, tool.parameters.deep_view()),
        ]);
    }
    let mut members: Vec<(String, Json)> = Vec::new();
    put_string(&mut members, "type", "function");
    put_member(&mut members, "function", object_value(function));
    let value = object_value(members);
    proof {
        assert(value.deep_view()->Object_0 =~= chat_tool(tool.deep_view())->Object_0);
    }
    value
}

fn encode_tools(tools: &Vec<ToolDefinition>) -> (items: Vec<Json>)
    ensures
        items.deep_view() == chat_tools(tools.deep_view()),
{
    let ghost all = chat_tools(tools.deep_view());
    let mut items: Vec<Json> = Vec::new();
    let mut i: usize = 0;
    while i < tools.len()
        invariant
            all == chat_tools(tools.deep_view()),
            i <= tools.len(),
            items.deep_view() == all.take(i as int),
        decreases tools.len() - i,
    {
        items.push(tool_json(&tools[i]));
        proof {
            assert(all[i as int] == chat_tool(tools@[i as int].deep_view()));
            assert(all.take(i + 1) =~= all.take(i as int).push(all[i as int]));
        }
        i += 1;
    }
    proof {
        assert(all.take(i as int) =~= all);
    }
    items
}

fn encode_history(messages: &Vec<Message>, compatibility: &CompatibilityProfile) -> (result: Result<
    Vec<Json>,
    GatewayError,
>)
    ensures
        result is Ok,
        result->Ok_0.deep_view() == history(messages.deep_view(), compatibility.system_role, 0),
{
    let ghost models = messages.deep_view();
    let ghost all = history(models, compatibility.system_role, 0);
    let mut items: Vec<Json> = Vec::new();
    let mut i: usize = 0;
    proof {
        assert(Seq::<JsonModel>::empty() + all =~= all);
    }
    while i < messages.len()
        invariant
            models == messages.deep_view(),
            i <= messages.len(),
            items.deep_view() + history(models, compatibility.system_role, i as int) == all,
        decreases messages.len() - i,
    {
        let ghost before = items.deep_view();
        proof {
            assert(models[i as int] == messages@[i as int].deep_view());
        }
        let mut more = match encode_message(&messages[i], compatibility) {
            Ok(more) => more,
            Err(error) => {
                return Err(error);
            },
        };
        let ghost added = more.deep_view();
        items.append(&mut more);
        proof {
            let rest = history(models, compatibility.system_role, i + 1);
            assert(before + (added + rest) =~= (before + added) + rest);
        }
        i += 1;
    }
    proof {
        assert(items.deep_view() =~= all);
    }
    Ok(items)
}

impl ChatCompletionsSession {
    /// The body of a request for this session.
    pub fn encode_request(&self, request: &GenerateRequest) -> (result: Result<Json, GatewayError>)
        ensures
            match result {
                Ok(body) => encoded_request(
                    self.deep_view().compatibility,
                    request.deep_view(),
                ) == Ok::<JsonModel, GatewayErrorModel>(body.deep_view()),
                Err(error) => encoded_request(
                    self.deep_view().compatibility,
                    request.deep_view(),
                ) == Err::<JsonModel, GatewayErrorModel>(error.deep_view()),
            },
    {
        if blank(request.model.as_str()) {
            return Err(GatewayError::protocol("model must not be empty"));
        }
        match validate_messages(&request.messages) {
            Ok(()) => {},
            Err(error) => {
                return Err(error);
            },
        }
        let compatibility = self.compatibility;
        let messages = match encode_history(&request.messages, &compatibility) {
            Ok(messages) => messages,
            Err(error) => {
                return Err(error);
            },
        };
        let mut members: Vec<(String, Json)> = Vec::new();
        put_string(&mut members, "model", request.model.as_str());
        put_member(&mut members, "messages", array_value(messages));
        put_member(&mut members, "stream", Json::Bool(true));
        if compatibility.include_stream_usage {
            let mut options: Vec<(String, Json)> = Vec::new();
            put_member(&mut options, "include_usage", Json::Bool(true));
            proof {
                assert(options.deep_view() =~= seq![("include_usage"@, JsonModel::Bool(true))]);
            }
            put_member(&mut members, "stream_options", object_value(options));
        }
        if request.tools.len() > 0 {
            put_member(&mut members, "tools", array_value(encode_tools(&request.tools)));
        }
        match request.max_output_tokens {
            Some(max) => {
                put_member(
                    &mut members,
                    compatibility.max_tokens_field.as_str(),
                    number_value(max),
                );
            },
            None => {},
        }
        match &request.temperature {
            Some(temperature) => {
                put_member(&mut members, "temperature", Json::Number(temperature.clone()));
            },
            None => {},
        }
        proof {
            assert(members.deep_view() =~= request_members(compatibility, request.deep_view()));
        }
        Ok(object_value(members))
    }
}

} // verus!
