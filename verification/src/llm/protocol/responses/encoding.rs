//! The encoding of requests and of message history for the Responses API.

use vstd::prelude::*;
use vstd::string::*;

use crate::json::{
    array_value, number_value, object_value, put_member, put_string, string_value, Json, JsonModel,
    NumberModel, with_member,
};
use crate::llm::error::{protocol_error, GatewayError, GatewayErrorModel};
use crate::llm::model::{
    ContentBlock, ContentBlockModel, GenerateRequest, GenerateRequestModel, Message, MessageModel,
    ProviderMetadata, ProviderMetadataModel, Role, ToolDefinition, ToolDefinitionModel,
};
use crate::llm::protocol::responses::state::ResponsesSession;
use crate::llm::protocol::{
    unsupported_block_error, valid_messages, validate_messages, CompatibilityProfile,
    ResponsesInstructionsPolicy,
};
use crate::text::{
    blank, chars_of, decimal, decimal_digits, is_blank, join, join_texts, joined,
    lemma_without_trailing, starts_with, string_of, trim_trailing, without_trailing,
};

verus! {

broadcast use crate::deep::group_models;

/// Characters that a provider accepts in an identifier.
pub open spec fn is_id_char(c: char) -> bool {
    ||| 'a' <= c <= 'z'
    ||| 'A' <= c <= 'Z'
    ||| '0' <= c <= '9'
    ||| c == '_'
    ||| c == '-'
}

pub open spec fn id_char(c: char) -> char {
    if is_id_char(c) {
        c
    } else {
        '_'
    }
}

/// The first 64 characters, with those that a provider rejects replaced.
pub open spec fn accepted_chars(id: Seq<char>) -> Seq<char> {
    Seq::new(
        if id.len() < 64 {
            id.len()
        } else {
            64
        },
        |i: int| id_char(id[i]),
    )
}

/// The characters of an identifier that a provider accepts.
pub open spec fn squeezed_id(id: Seq<char>) -> Seq<char> {
    without_trailing(accepted_chars(id), '_')
}

pub open spec fn normalized_id(id: Seq<char>) -> Seq<char> {
    let squeezed = squeezed_id(id);
    if squeezed.len() == 0 {
        "call_nostra"@
    } else {
        squeezed
    }
}

/// An identifier that begins with `prefix`.
pub open spec fn prefixed_id(id: Seq<char>, prefix: Seq<char>) -> Seq<char> {
    let normalized = normalized_id(id);
    if prefix.is_prefix_of(normalized) {
        normalized
    } else {
        normalized_id(prefix + normalized)
    }
}

/// What is accepted of an identifier, without a fallback for an empty one.
pub fn squeeze_id(id: &str) -> (normalized: String)
    ensures
        normalized@ == squeezed_id(id@),
{
    let chars = chars_of(id);
    let mut kept: Vec<char> = Vec::new();
    let mut i: usize = 0;
    while i < chars.len() && i < 64
        invariant
            i <= chars.len(),
            i <= 64,
            chars@ == id@,
            kept@ == accepted_chars(id@).take(i as int),
        decreases chars.len() - i,
    {
        let c = chars[i];
        let accepted = ('a' <= c && c <= 'z') || ('A' <= c && c <= 'Z') || ('0' <= c && c <= '9')
            || c == '_' || c == '-';
        kept.push(
            if accepted {
                c
            } else {
                '_'
            },
        );
        i += 1;
        proof {
            assert(accepted_chars(id@).take(i as int) =~= accepted_chars(id@).take(i - 1).push(
                accepted_chars(id@)[i - 1],
            ));
        }
    }
    proof {
        assert(accepted_chars(id@).take(i as int) =~= accepted_chars(id@));
    }
    trim_trailing(string_of(&kept).as_str(), '_')
}

pub fn normalize_id_part(id: &str) -> (normalized: String)
    ensures
        normalized@ == normalized_id(id@),
{
    let squeezed = squeeze_id(id);
    if squeezed.as_str().is_empty() {
        "call_nostra".to_owned()
    } else {
        squeezed
    }
}

fn normalize_with_prefix(id: &str, prefix: &str) -> (normalized: String)
    ensures
        normalized@ == prefixed_id(id@, prefix@),
{
    let normalized = normalize_id_part(id);
    if starts_with(normalized.as_str(), prefix) {
        normalized
    } else {
        normalize_id_part(joined(prefix, normalized.as_str()).as_str())
    }
}

pub fn normalize_function_item_id(id: &str) -> (normalized: String)
    ensures
        normalized@ == prefixed_id(id@, "fc_"@),
{
    normalize_with_prefix(id, "fc_")
}

pub fn normalize_reasoning_item_id(id: &str) -> (normalized: String)
    ensures
        normalized@ == prefixed_id(id@, "rs_"@),
{
    normalize_with_prefix(id, "rs_")
}

pub fn normalize_message_id(id: &str) -> (normalized: String)
    ensures
        normalized@ == prefixed_id(id@, "msg_"@),
{
    normalize_with_prefix(id, "msg_")
}

/// What is accepted of an identifier has at most 64 characters, all of them accepted by providers,
/// and does not end in an underscore.
pub proof fn lemma_squeezed_is_accepted(id: Seq<char>)
    ensures
        squeezed_id(id).len() <= 64,
        forall|i: int| 0 <= i < squeezed_id(id).len() ==> is_id_char(#[trigger] squeezed_id(id)[i]),
        squeezed_id(id).len() > 0 ==> squeezed_id(id).last() != '_',
{
    lemma_without_trailing(accepted_chars(id), '_');
    let squeezed = squeezed_id(id);
    assert forall|i: int| 0 <= i < squeezed.len() implies is_id_char(#[trigger] squeezed[i]) by {
        assert(squeezed[i] == accepted_chars(id)[i]);
    }
}

/// A normalized identifier is never empty, has at most 64 characters, all of them accepted by
/// providers, and does not end in an underscore.
pub proof fn normalized_ids_are_accepted(id: Seq<char>)
    ensures
        1 <= normalized_id(id).len() <= 64,
        forall|i: int| 0 <= i < normalized_id(id).len() ==> is_id_char(#[trigger] normalized_id(id)[i]),
        normalized_id(id).last() != '_',
{
    lemma_squeezed_is_accepted(id);
    reveal_strlit("call_nostra");
}

/// Normalizing an identifier a second time changes nothing.
pub proof fn normalizing_is_idempotent(id: Seq<char>)
    ensures
        normalized_id(normalized_id(id)) == normalized_id(id),
{
    normalized_ids_are_accepted(id);
    let normalized = normalized_id(id);
    assert(accepted_chars(normalized) =~= normalized);
}

pub open spec fn str_value(text: Seq<char>) -> JsonModel {
    JsonModel::Str(text)
}

/// The role of a message on the wire. Tool results are sent on behalf of the user.
pub open spec fn wire_role(role: Role) -> Seq<char> {
    match role {
        Role::System => "system"@,
        Role::Developer => "developer"@,
        Role::User => "user"@,
        Role::Assistant => "assistant"@,
        Role::Tool => "user"@,
    }
}

fn role_name(role: Role) -> (name: &'static str)
    ensures
        name@ == wire_role(role),
{
    match role {
        Role::System => "system",
        Role::Developer => "developer",
        Role::User => "user",
        Role::Assistant => "assistant",
        Role::Tool => "user",
    }
}

pub open spec fn text_part(kind: Seq<char>, text: Seq<char>) -> JsonModel {
    JsonModel::Object(seq![("type"@, str_value(kind)), ("text"@, str_value(text))])
}

/// The text blocks from position `start` on, as input.
pub open spec fn input_parts(blocks: Seq<ContentBlockModel>, start: int) -> Seq<JsonModel>
    decreases blocks.len() - start,
{
    if start < 0 || start >= blocks.len() {
        Seq::empty()
    } else {
        match blocks[start] {
            ContentBlockModel::Text { text, .. } => seq![text_part("input_text"@, text)]
                + input_parts(blocks, start + 1),
            _ => input_parts(blocks, start + 1),
        }
    }
}

/// The item that a block other than text becomes, if it becomes one.
pub open spec fn non_text_item(block: ContentBlockModel) -> Option<JsonModel> {
    match block {
        ContentBlockModel::ToolCall { tool_call } => {
            let call_id = match tool_call.provider_metadata.responses {
                Some(metadata) => match metadata.call_id {
                    Some(id) => id,
                    None => tool_call.id,
                },
                None => tool_call.id,
            };
            let members = seq![
                ("type"@, str_value("function_call"@)),
                ("call_id"@, str_value(normalized_id(call_id))),
                ("name"@, str_value(tool_call.name)),
                ("arguments"@, str_value(tool_call.raw_arguments)),
            ];
            let item_id = match tool_call.provider_metadata.responses {
                Some(metadata) => metadata.item_id,
                None => None,
            };
            Some(
                JsonModel::Object(
                    match item_id {
                        Some(id) => members.push(("id"@, str_value(prefixed_id(id, "fc_"@)))),
                        None => members,
                    },
                ),
            )
        },
        ContentBlockModel::ToolResult { tool_result } => Some(
            JsonModel::Object(
                seq![
                    ("type"@, str_value("function_call_output"@)),
                    ("call_id"@, str_value(normalized_id(tool_result.call_id))),
                    ("output"@, str_value(tool_result.content)),
                ],
            ),
        ),
        ContentBlockModel::Reasoning { reasoning } => match reasoning.replay {
            Some(replay) => match replay.responses {
                Some(metadata) => match metadata.encrypted_reasoning {
                    Some(encrypted) => {
                        let members = seq![
                            ("type"@, str_value("reasoning"@)),
                            ("encrypted_content"@, str_value(encrypted)),
                        ];
                        Some(
                            JsonModel::Object(
                                match metadata.item_id {
                                    Some(id) => members.push(
                                        ("id"@, str_value(prefixed_id(id, "rs_"@))),
                                    ),
                                    None => members,
                                },
                            ),
                        )
                    },
                    None => None,
                },
                None => None,
            },
            None => None,
        },
        ContentBlockModel::Text { .. } => None,
    }
}

/// The items of the blocks other than text, from position `start` on.
pub open spec fn non_text_items(blocks: Seq<ContentBlockModel>, start: int) -> Seq<JsonModel>
    decreases blocks.len() - start,
{
    if start < 0 || start >= blocks.len() {
        Seq::empty()
    } else {
        match non_text_item(blocks[start]) {
            Some(item) => seq![item] + non_text_items(blocks, start + 1),
            None => non_text_items(blocks, start + 1),
        }
    }
}

/// The identifier of a text block of an earlier answer: the provider's, or one made from the
/// position of the message and of the text in it.
pub open spec fn assistant_text_id(
    metadata: ProviderMetadataModel,
    message_index: usize,
    text_index: nat,
) -> Seq<char> {
    let own = match metadata.responses {
        Some(responses) => responses.message_id,
        None => None,
    };
    match own {
        Some(id) => prefixed_id(id, "msg_"@),
        None => if text_index == 0 {
            "msg_nostra_"@ + decimal_digits(message_index as nat)
        } else {
            "msg_nostra_"@ + decimal_digits(message_index as nat) + "_"@ + decimal_digits(
                text_index,
            )
        },
    }
}

pub open spec fn assistant_text_item(text: Seq<char>, id: Seq<char>) -> JsonModel {
    JsonModel::Object(
        seq![
            ("type"@, str_value("message"@)),
            ("role"@, str_value("assistant"@)),
            ("content"@, JsonModel::Array(seq![text_part("output_text"@, text)])),
            ("status"@, str_value("completed"@)),
            ("id"@, str_value(id)),
        ],
    )
}

/// The items of an earlier answer, block by block from position `start` on.
pub open spec fn assistant_items(
    blocks: Seq<ContentBlockModel>,
    message_index: usize,
    start: int,
    text_index: nat,
) -> Seq<JsonModel>
    decreases blocks.len() - start,
{
    if start < 0 || start >= blocks.len() {
        Seq::empty()
    } else {
        match blocks[start] {
            ContentBlockModel::Text { text, provider_metadata } => seq![
                assistant_text_item(
                    text,
                    assistant_text_id(provider_metadata, message_index, text_index),
                ),
            ] + assistant_items(blocks, message_index, start + 1, text_index + 1),
            _ => match non_text_item(blocks[start]) {
                Some(item) => seq![item] + assistant_items(
                    blocks,
                    message_index,
                    start + 1,
                    text_index,
                ),
                None => assistant_items(blocks, message_index, start + 1, text_index),
            },
        }
    }
}

/// The input items of a message.
pub open spec fn message_items(message: MessageModel, message_index: usize) -> Seq<JsonModel> {
    if message.role == Role::Assistant {
        assistant_items(message.content, message_index, 0, 0)
    } else {
        let parts = input_parts(message.content, 0);
        let texts = if parts.len() == 0 {
            Seq::empty()
        } else {
            seq![
                JsonModel::Object(
                    seq![
                        ("type"@, str_value("message"@)),
                        ("role"@, str_value(wire_role(message.role))),
                        ("content"@, JsonModel::Array(parts)),
                    ],
                ),
            ]
        };
        texts + non_text_items(message.content, 0)
    }
}

fn text_part_value(kind: &str, text: &str) -> (value: Json)
    ensures
        value.deep_view() == text_part(kind@, text@),
{
    let mut members: Vec<(String, Json)> = Vec::new();
    put_string(&mut members, "type", kind);
    put_string(&mut members, "text", text);
    proof {
        assert(members.deep_view() =~= seq![("type"@, str_value(kind@)), ("text"@, str_value(text@))]);
    }
    object_value(members)
}

pub fn encode_message_items(message: &Message, message_index: usize) -> (items: Vec<Json>)
    ensures
        items.deep_view() == message_items(message.deep_view(), message_index),
{
    match message.role {
        Role::Assistant => {
            return encode_assistant_items(message, message_index);
        },
        _ => {},
    }
    let ghost blocks = message.content.deep_view();
    let mut content: Vec<Json> = Vec::new();
    let mut i: usize = 0;
    proof {
        assert(Seq::<JsonModel>::empty() + input_parts(blocks, 0) =~= input_parts(blocks, 0));
    }
    while i < message.content.len()
        invariant
            blocks == message.content.deep_view(),
            i <= message.content.len(),
            content.deep_view() + input_parts(blocks, i as int) == input_parts(blocks, 0),
        decreases message.content.len() - i,
    {
        proof {
            assert(blocks[i as int] == message.content@[i as int].deep_view());
        }
        match &message.content[i] {
            ContentBlock::Text { text, .. } => {
                let ghost before = content.deep_view();
                content.push(text_part_value("input_text", text.as_str()));
                proof {
                    let rest = input_parts(blocks, i + 1);
                    let part = text_part("input_text"@, text@);
                    assert(before + (seq![part] + rest) =~= before.push(part) + rest);
                }
            },
            _ => {},
        }
        i += 1;
    }
    proof {
        assert(content.deep_view() =~= input_parts(blocks, 0));
    }
    let mut items: Vec<Json> = Vec::new();
    if content.len() > 0 {
        let mut members: Vec<(String, Json)> = Vec::new();
        put_string(&mut members, "type", "message");
        put_string(&mut members, "role", role_name(message.role));
        put_member(&mut members, "content", array_value(content));
        proof {
            assert(members.deep_view() =~= seq![
                ("type"@, str_value("message"@)),
                ("role"@, str_value(wire_role(message.role))),
                ("content"@, JsonModel::Array(input_parts(blocks, 0))),
            ]);
        }
        items.push(object_value(members));
    }
    let ghost texts = items.deep_view();
    let mut j: usize = 0;
    proof {
        assert(texts + non_text_items(blocks, 0) =~= message_items(
            message.deep_view(),
            message_index,
        ));
    }
    while j < message.content.len()
        invariant
            blocks == message.content.deep_view(),
            j <= message.content.len(),
            items.deep_view() + non_text_items(blocks, j as int) == message_items(
                message.deep_view(),
                message_index,
            ),
        decreases message.content.len() - j,
    {
        let ghost before = items.deep_view();
        proof {
            assert(blocks[j as int] == message.content@[j as int].deep_view());
        }
        push_non_text_item(&message.content[j], &mut items);
        proof {
            let rest = non_text_items(blocks, j + 1);
            match non_text_item(blocks[j as int]) {
                Some(item) => {
                    assert(before + (seq![item] + rest) =~= before.push(item) + rest);
                },
                None => {},
            }
        }
        j += 1;
    }
    proof {
        assert(items.deep_view() =~= message_items(message.deep_view(), message_index));
    }
    items
}

fn own_message_id(metadata: &ProviderMetadata) -> (id: Option<&String>)
    ensures
        id.deep_view() == (match metadata.deep_view().responses {
            Some(responses) => responses.message_id,
            None => None,
        }),
{
    match &metadata.responses {
        Some(responses) => match &responses.message_id {
            Some(id) => Some(id),
            None => None,
        },
        None => None,
    }
}

fn text_item_id(metadata: &ProviderMetadata, message_index: usize, text_index: usize) -> (id: String)
    ensures
        id@ == assistant_text_id(metadata.deep_view(), message_index, text_index as nat),
{
    match own_message_id(metadata) {
        Some(id) => normalize_message_id(id.as_str()),
        None => {
            let mut id = joined("msg_nostra_", decimal(message_index as u64).as_str());
            if text_index > 0 {
                id.append("_");
                id.append(decimal(text_index as u64).as_str());
            }
            id
        },
    }
}

fn text_item(text: &str, id: &str) -> (item: Json)
    ensures
        item.deep_view() == assistant_text_item(text@, id@),
{
    let mut content: Vec<Json> = Vec::new();
    content.push(text_part_value("output_text", text));
    let mut members: Vec<(String, Json)> = Vec::new();
    put_string(&mut members, "type", "message");
    put_string(&mut members, "role", "assistant");
    proof {
        assert(content.deep_view() =~= seq![text_part("output_text"@, text@)]);
    }
    put_member(&mut members, "content", array_value(content));
    put_string(&mut members, "status", "completed");
    put_string(&mut members, "id", id);
    let item = object_value(members);
    proof {
        assert(item.deep_view()->Object_0 =~= assistant_text_item(text@, id@)->Object_0);
    }
    item
}

pub fn encode_assistant_items(message: &Message, message_index: usize) -> (items: Vec<Json>)
    ensures
        items.deep_view() == assistant_items(
            message.deep_view().content,
            message_index,
            0,
            0,
        ),
{
    let ghost blocks = message.content.deep_view();
    let ghost all = assistant_items(blocks, message_index, 0, 0);
    let mut items: Vec<Json> = Vec::new();
    let mut text_index: usize = 0;
    let mut i: usize = 0;
    proof {
        assert(Seq::<JsonModel>::empty() + all =~= all);
    }
    while i < message.content.len()
        invariant
            blocks == message.content.deep_view(),
            i <= message.content.len(),
            text_index <= i,
            items.deep_view() + assistant_items(blocks, message_index, i as int, text_index as nat)
                == all,
        decreases message.content.len() - i,
    {
        let ghost before = items.deep_view();
        proof {
            assert(blocks[i as int] == message.content@[i as int].deep_view());
        }
        match &message.content[i] {
            ContentBlock::Text { text, provider_metadata } => {
                let id = text_item_id(provider_metadata, message_index, text_index);
                let item = text_item(text.as_str(), id.as_str());
                let ghost model = item.deep_view();
                items.push(item);
                proof {
                    let rest = assistant_items(
                        blocks,
                        message_index,
                        i + 1,
                        (text_index + 1) as nat,
                    );
                    assert(before + (seq![model] + rest) =~= before.push(model) + rest);
                }
                text_index += 1;
            },
            _ => {
                push_non_text_item(&message.content[i], &mut items);
                proof {
                    let rest = assistant_items(blocks, message_index, i + 1, text_index as nat);
                    match non_text_item(blocks[i as int]) {
                        Some(item) => {
                            assert(before + (seq![item] + rest) =~= before.push(item) + rest);
                        },
                        None => {},
                    }
                }
            },
        }
        i += 1;
    }
    proof {
        assert(items.deep_view() =~= all);
    }
    items
}

pub fn push_non_text_item(block: &ContentBlock, items: &mut Vec<Json>)
    ensures
        final(items).deep_view() == (match non_text_item(block.deep_view()) {
            Some(item) => old(items).deep_view().push(item),
            None => old(items).deep_view(),
        }),
{
    match block {
        ContentBlock::ToolCall { tool_call } => {
            let call_id = match &tool_call.provider_metadata.responses {
                Some(metadata) => match &metadata.call_id {
                    Some(id) => id,
                    None => &tool_call.id,
                },
                None => &tool_call.id,
            };
            let mut members: Vec<(String, Json)> = Vec::new();
            put_string(&mut members, "type", "function_call");
            put_string(&mut members, "call_id", normalize_id_part(call_id.as_str()).as_str());
            put_string(&mut members, "name", tool_call.name.as_str());
            put_string(&mut members, "arguments", tool_call.raw_arguments.as_str());
            match &tool_call.provider_metadata.responses {
                Some(metadata) => match &metadata.item_id {
                    Some(id) => {
                        put_string(
                            &mut members,
                            "id",
                            normalize_function_item_id(id.as_str()).as_str(),
                        );
                    },
                    None => {},
                },
                None => {},
            }
            let item = object_value(members);
            proof {
                assert(item.deep_view()->Object_0 =~= non_text_item(block.deep_view())->0->Object_0);
            }
            items.push(item);
        },
        ContentBlock::ToolResult { tool_result } => {
            let mut members: Vec<(String, Json)> = Vec::new();
            put_string(&mut members, "type", "function_call_output");
            put_string(
                &mut members,
                "call_id",
                normalize_id_part(tool_result.call_id.as_str()).as_str(),
            );
            put_string(&mut members, "output", tool_result.content.as_str());
            let item = object_value(members);
            proof {
                assert(item.deep_view()->Object_0 =~= non_text_item(block.deep_view())->0->Object_0);
            }
            items.push(item);
        },
        ContentBlock::Reasoning { reasoning } => match &reasoning.replay {
            Some(replay) => match &replay.responses {
                Some(metadata) => match &metadata.encrypted_reasoning {
                    Some(encrypted) => {
                        let mut members: Vec<(String, Json)> = Vec::new();
                        put_string(&mut members, "type", "reasoning");
                        put_string(&mut members, "encrypted_content", encrypted.as_str());
                        match &metadata.item_id {
                            Some(id) => {
                                put_string(
                                    &mut members,
                                    "id",
                                    normalize_reasoning_item_id(id.as_str()).as_str(),
                                );
                            },
                            None => {},
                        }
                        let item = object_value(members);
                        proof {
                            assert(item.deep_view()->Object_0 =~= non_text_item(
                                block.deep_view(),
                            )->0->Object_0);
                        }
                        items.push(item);
                    },
                    None => {},
                },
                None => {},
            },
            None => {},
        },
        ContentBlock::Text { .. } => {},
    }
}

/// Whether messages of the role become instructions of the request.
pub open spec fn is_instruction(compatibility: CompatibilityProfile, role: Role) -> bool {
    (role == Role::System || role == Role::Developer) && compatibility.responses_instructions
        == ResponsesInstructionsPolicy::TopLevel
}

/// The texts of the blocks, from position `start` on.
pub open spec fn block_texts(blocks: Seq<ContentBlockModel>, start: int) -> Seq<Seq<char>>
    decreases blocks.len() - start,
{
    if start < 0 || start >= blocks.len() {
        Seq::empty()
    } else {
        match blocks[start] {
            ContentBlockModel::Text { text, .. } => seq![text] + block_texts(blocks, start + 1),
            _ => block_texts(blocks, start + 1),
        }
    }
}

/// The texts of the instructions, from the message at `start` on.
pub open spec fn instruction_texts(
    compatibility: CompatibilityProfile,
    messages: Seq<MessageModel>,
    start: int,
) -> Seq<Seq<char>>
    decreases messages.len() - start,
{
    if start < 0 || start >= messages.len() {
        Seq::empty()
    } else if is_instruction(compatibility, messages[start].role) {
        block_texts(messages[start].content, 0) + instruction_texts(
            compatibility,
            messages,
            start + 1,
        )
    } else {
        instruction_texts(compatibility, messages, start + 1)
    }
}

/// The input items of the messages that are no instructions, from the message at `start` on.
pub open spec fn input_items(
    compatibility: CompatibilityProfile,
    messages: Seq<MessageModel>,
    start: int,
) -> Seq<JsonModel>
    decreases messages.len() - start,
{
    if start < 0 || start >= messages.len() {
        Seq::empty()
    } else if is_instruction(compatibility, messages[start].role) {
        input_items(compatibility, messages, start + 1)
    } else {
        message_items(messages[start], start as usize) + input_items(
            compatibility,
            messages,
            start + 1,
        )
    }
}

pub open spec fn tool_item(tool: ToolDefinitionModel) -> JsonModel {
    JsonModel::Object(
        seq![
            ("type"@, str_value("function"@)),
            ("name"@, str_value(tool.name)),
            ("description"@, str_value(tool.description)),
            ("parameters"@, tool.parameters),
        ],
    )
}

pub open spec fn tool_items(tools: Seq<ToolDefinitionModel>) -> Seq<JsonModel> {
    Seq::new(tools.len(), |i: int| tool_item(tools[i]))
}

/// The body of a request.
pub open spec fn request_members(
    compatibility: CompatibilityProfile,
    request: GenerateRequestModel,
) -> Seq<(Seq<char>, JsonModel)> {
    let instructions = instruction_texts(compatibility, request.messages, 0);
    let base = seq![
        ("model"@, str_value(request.model)),
        ("input"@, JsonModel::Array(input_items(compatibility, request.messages, 0))),
        ("stream"@, JsonModel::Bool(true)),
        ("store"@, JsonModel::Bool(compatibility.responses_store)),
    ];
    let with_include = with_member(
        base,
        "include"@,
        if compatibility.responses_include_encrypted_reasoning {
            Some(JsonModel::Array(seq![str_value("reasoning.encrypted_content"@)]))
        } else {
            None
        },
    );
    let with_instructions = with_member(
        with_include,
        "instructions"@,
        if instructions.len() == 0 {
            None
        } else {
            Some(str_value(join_texts(instructions, "\n"@)))
        },
    );
    let with_limit = with_member(
        with_instructions,
        "max_output_tokens"@,
        match request.max_output_tokens {
            Some(max) => Some(JsonModel::Number(NumberModel::Unsigned(max))),
            None => None,
        },
    );
    let with_temperature = with_member(
        with_limit,
        "temperature"@,
        match request.temperature {
            Some(temperature) => Some(JsonModel::Number(temperature)),
            None => None,
        },
    );
    with_member(
        with_temperature,
        "tools"@,
        if request.tools.len() == 0 {
            None
        } else {
            Some(JsonModel::Array(tool_items(request.tools)))
        },
    )
}

/// The body of a request, or why there is none.
pub open spec fn encoded_request(
    compatibility: CompatibilityProfile,
    request: GenerateRequestModel,
) -> Result<JsonModel, GatewayErrorModel> {
    if is_blank(request.model) {
        Err(protocol_error("model must not be empty"@))
    } else if !valid_messages(request.messages) {
        Err(unsupported_block_error())
    } else {
        Ok(JsonModel::Object(request_members(compatibility, request)))
    }
}

fn push_texts(message: &Message, texts: &mut Vec<String>)
    ensures
        final(texts).deep_view() == old(texts).deep_view() + block_texts(
            message.deep_view().content,
            0,
        ),
{
    let ghost blocks = message.content.deep_view();
    let ghost all = old(texts).deep_view() + block_texts(blocks, 0);
    let mut i: usize = 0;
    while i < message.content.len()
        invariant
            blocks == message.content.deep_view(),
            i <= message.content.len(),
            texts.deep_view() + block_texts(blocks, i as int) == all,
        decreases message.content.len() - i,
    {
        let ghost before = texts.deep_view();
        proof {
            assert(blocks[i as int] == message.content@[i as int].deep_view());
        }
        match &message.content[i] {
            ContentBlock::Text { text, .. } => {
                texts.push(text.clone());
                proof {
                    let rest = block_texts(blocks, i + 1);
                    assert(before + (seq![text@] + rest) =~= before.push(text@) + rest);
                }
            },
            _ => {},
        }
        i += 1;
    }
    proof {
        assert(texts.deep_view() =~= all);
    }
}

fn encode_tools(tools: &Vec<ToolDefinition>) -> (items: Vec<Json>)
    ensures
        items.deep_view() == tool_items(tools.deep_view()),
{
    let mut items: Vec<Json> = Vec::new();
    let mut i: usize = 0;
    while i < tools.len()
        invariant
            i <= tools.len(),
            items.deep_view() == tool_items(tools.deep_view()).take(i as int),
        decreases tools.len() - i,
    {
        let tool = &tools[i];
        let mut members: Vec<(String, Json)> = Vec::new();
        put_string(&mut members, "type", "function");
        put_string(&mut members, "name", tool.name.as_str());
        put_string(&mut members, "description", tool.description.as_str());
        put_member(&mut members, "parameters", tool.parameters.clone());
        let item = object_value(members);
        proof {
            assert(item.deep_view()->Object_0 =~= tool_item(tool.deep_view())->Object_0);
            let all = tool_items(tools.deep_view());
            assert(all.take(i + 1) =~= all.take(i as int).push(all[i as int]));
        }
        items.push(item);
        i += 1;
    }
    proof {
        assert(tool_items(tools.deep_view()).take(i as int) =~= tool_items(tools.deep_view()));
    }
    items
}

impl ResponsesSession {
    /// The body of a request for this session.
    pub fn encode_request(&self, request: &GenerateRequest) -> (result: Result<Json, GatewayError>)
        ensures
            match result {
                Ok(body) => encoded_request(
                    self.deep_view().compatibility,
                    request.deep_view(),
                ) == Ok::<JsonModel, GatewayErrorModel>(body.deep_view()),
                Err(error) => encoded_request(
                    self.deep_view().compatibility,
                    request.deep_view(),
                ) == Err::<JsonModel, GatewayErrorModel>(error.deep_view()),
            },
    {
        if blank(request.model.as_str()) {
            return Err(GatewayError::protocol("model must not be empty"));
        }
        match validate_messages(&request.messages) {
            Ok(()) => {},
            Err(error) => {
                return Err(error);
            },
        }
        let compatibility = self.compatibility;
        let ghost messages = request.messages.deep_view();
        let ghost all_items = input_items(compatibility, messages, 0);
        let ghost all_texts = instruction_texts(compatibility, messages, 0);
        let mut input: Vec<Json> = Vec::new();
        let mut instructions: Vec<String> = Vec::new();
        let mut i: usize = 0;
        proof {
            assert(Seq::<JsonModel>::empty() + all_items =~= all_items);
            assert(Seq::<Seq<char>>::empty() + all_texts =~= all_texts);
        }
        while i < request.messages.len()
            invariant
                messages == request.messages.deep_view(),
                i <= request.messages.len(),
                input.deep_view() + input_items(compatibility, messages, i as int) == all_items,
                instructions.deep_view() + instruction_texts(compatibility, messages, i as int)
                    == all_texts,
            decreases request.messages.len() - i,
        {
            let message = &request.messages[i];
            let ghost items_before = input.deep_view();
            let ghost texts_before = instructions.deep_view();
            proof {
                assert(messages[i as int] == message.deep_view());
            }
            let is_system = match message.role {
                Role::System | Role::Developer => true,
                _ => false,
            };
            let top_level = match compatibility.responses_instructions {
                ResponsesInstructionsPolicy::TopLevel => true,
                ResponsesInstructionsPolicy::InputItems => false,
            };
            if is_system && top_level {
                push_texts(message, &mut instructions);
                proof {
                    let rest = instruction_texts(compatibility, messages, i + 1);
                    let texts = block_texts(message.deep_view().content, 0);
                    assert(texts_before + (texts + rest) =~= (texts_before + texts) + rest);
                }
            } else {
                let mut items = encode_message_items(message, i);
                let ghost models = items.deep_view();
                input.append(&mut items);
                proof {
                    let rest = input_items(compatibility, messages, i + 1);
                    assert(items_before + (models + rest) =~= (items_before + models) + rest);
                }
            }
            i += 1;
        }
        proof {
            assert(input.deep_view() =~= all_items);
            assert(instructions.deep_view() =~= all_texts);
        }
        let mut members: Vec<(String, Json)> = Vec::new();
        put_string(&mut members, "model", request.model.as_str());
        put_member(&mut members, "input", array_value(input));
        put_member(&mut members, "stream", Json::Bool(true));
        put_member(&mut members, "store", Json::Bool(compatibility.responses_store));
        if compatibility.responses_include_encrypted_reasoning {
            let mut extras: Vec<Json> = Vec::new();
            extras.push(string_value("reasoning.encrypted_content"));
            proof {
                assert(extras.deep_view() =~= seq![str_value("reasoning.encrypted_content"@)]);
            }
            put_member(&mut members, "include", array_value(extras));
        }
        if instructions.len() > 0 {
            put_string(&mut members, "instructions", join(&instructions, "\n").as_str());
        }
        match request.max_output_tokens {
            Some(max) => {
                put_member(&mut members, "max_output_tokens", number_value(max));
            },
            None => {},
        }
        match &request.temperature {
            Some(temperature) => {
                put_member(&mut members, "temperature", Json::Number(temperature.clone()));
            },
            None => {},
        }
        if request.tools.len() > 0 {
            put_member(&mut members, "tools", array_value(encode_tools(&request.tools)));
        }
        proof {
            assert(members.deep_view() =~= request_members(compatibility, request.deep_view()));
        }
        Ok(object_value(members))
    }
}

} // verus!
