//! What a provider reads in a Responses request.

use vstd::prelude::*;

use crate::json::{an_added_member_is_found, find_member, with_member, JsonModel, NumberModel};
use crate::llm::model::{
    ContentBlockModel, GenerateRequestModel, MessageModel, Role, ToolCallModel, ToolDefinitionModel,
    ToolResultModel,
};
use crate::llm::protocol::responses::encoding::{
    accepted_chars, assistant_items, assistant_text_id, assistant_text_item, block_texts,
    encoded_request, input_items, input_parts, instruction_texts, is_id_char, is_instruction,
    message_items, non_text_item, non_text_items, normalized_id, prefixed_id, request_members,
    squeezed_id, str_value, text_part, tool_item, tool_items, wire_role,
};
use crate::llm::protocol::{CompatibilityProfile, ResponsesInstructionsPolicy};
use crate::text::{join_texts, lemma_without_trailing, without_trailing};

verus! {

/// What a provider reads in an input item.
pub enum Reading {
    /// A text, said under a role.
    Said(Seq<char>, Seq<char>),
    /// A tool call: its name and its arguments.
    Called(Seq<char>, Seq<char>),
    /// What a tool answered.
    Answered(Seq<char>),
    /// Reasoning that only the provider can read.
    Thought(Seq<char>),
    /// Something else.
    Other,
}

pub open spec fn text_of(part: JsonModel) -> Seq<char> {
    match part.str_at("text"@) {
        Some(text) => text,
        None => Seq::empty(),
    }
}

pub open spec fn texts_read(role: Seq<char>, parts: Seq<JsonModel>) -> Seq<Reading> {
    Seq::new(parts.len(), |k: int| Reading::Said(role, text_of(parts[k])))
}

/// What a provider reads in one item.
pub open spec fn item_read(item: JsonModel) -> Seq<Reading> {
    let kind = item.str_at("type"@);
    if kind == Some("message"@) {
        match (item.str_at("role"@), item.array_at("content"@)) {
            (Some(role), Some(parts)) => texts_read(role, parts),
            _ => seq![Reading::Other],
        }
    } else if kind == Some("function_call"@) {
        match (item.str_at("name"@), item.str_at("arguments"@)) {
            (Some(name), Some(arguments)) => seq![Reading::Called(name, arguments)],
            _ => seq![Reading::Other],
        }
    } else if kind == Some("function_call_output"@) {
        match item.str_at("output"@) {
            Some(output) => seq![Reading::Answered(output)],
            None => seq![Reading::Other],
        }
    } else if kind == Some("reasoning"@) {
        match item.str_at("encrypted_content"@) {
            Some(encrypted) => seq![Reading::Thought(encrypted)],
            None => seq![Reading::Other],
        }
    } else {
        seq![Reading::Other]
    }
}

/// What a provider reads in items, one after the other.
pub open spec fn items_read(items: Seq<JsonModel>) -> Seq<Reading>
    decreases items.len(),
{
    if items.len() == 0 {
        Seq::empty()
    } else {
        items_read(items.drop_last()) + item_read(items.last())
    }
}

/// What a block of a conversation is to be read as.
pub open spec fn block_meant(role: Seq<char>, block: ContentBlockModel) -> Seq<Reading> {
    match block {
        ContentBlockModel::Text { text, .. } => seq![Reading::Said(role, text)],
        ContentBlockModel::ToolCall { tool_call } => seq![
            Reading::Called(tool_call.name, tool_call.raw_arguments),
        ],
        ContentBlockModel::ToolResult { tool_result } => seq![
            Reading::Answered(tool_result.content),
        ],
        ContentBlockModel::Reasoning { reasoning } => match reasoning.replay {
            Some(replay) => match replay.responses {
                Some(responses) => match responses.encrypted_reasoning {
                    Some(encrypted) => seq![Reading::Thought(encrypted)],
                    None => Seq::empty(),
                },
                None => Seq::empty(),
            },
            None => Seq::empty(),
        },
    }
}

/// What blocks are to be read as, of those that are texts or of those that are not.
pub open spec fn blocks_meant(
    role: Seq<char>,
    blocks: Seq<ContentBlockModel>,
    texts: bool,
    others: bool,
) -> Seq<Reading>
    decreases blocks.len(),
{
    if blocks.len() == 0 {
        Seq::empty()
    } else {
        let before = blocks_meant(role, blocks.drop_last(), texts, others);
        if if blocks.last() is Text {
            texts
        } else {
            others
        } {
            before + block_meant(role, blocks.last())
        } else {
            before
        }
    }
}

/// What a message is to be read as. An answer is told block by block. Of another message the texts
/// come first, as one item.
pub open spec fn message_meant(message: MessageModel) -> Seq<Reading> {
    let role = match message.role {
        Role::System => "system"@,
        Role::Developer => "developer"@,
        Role::Assistant => "assistant"@,
        Role::User => "user"@,
        Role::Tool => "user"@,
    };
    if message.role == Role::Assistant {
        blocks_meant(role, message.content, true, true)
    } else {
        blocks_meant(role, message.content, true, false) + blocks_meant(
            role,
            message.content,
            false,
            true,
        )
    }
}

proof fn lemma_read_joined(a: Seq<JsonModel>, b: Seq<JsonModel>)
    ensures
        items_read(a + b) == items_read(a) + items_read(b),
    decreases b.len(),
{
    if b.len() > 0 {
        lemma_read_joined(a, b.drop_last());
        assert((a + b).drop_last() =~= a + b.drop_last());
        assert((items_read(a) + items_read(b.drop_last())) + item_read(b.last()) =~= items_read(a)
            + (items_read(b.drop_last()) + item_read(b.last())));
    } else {
        assert(a + b =~= a);
        assert(items_read(a) + Seq::<Reading>::empty() =~= items_read(a));
    }
}

proof fn lemma_read_one(item: JsonModel)
    ensures
        items_read(seq![item]) == item_read(item),
{
    reveal_with_fuel(items_read, 2);
    assert(seq![item].drop_last() =~= Seq::<JsonModel>::empty());
    assert(Seq::<Reading>::empty() + item_read(item) =~= item_read(item));
}

proof fn lemma_literals()
    ensures
        "type"@.len() == 4,
        "role"@.len() == 4,
        "type"@ != "role"@,
        "text"@.len() == 4,
        "type"@ != "text"@,
        "content"@.len() == 7,
        "status"@.len() == 6,
        "id"@.len() == 2,
        "call_id"@.len() == 7,
        "content"@ != "call_id"@,
        "name"@.len() == 4,
        "name"@ != "type"@,
        "arguments"@.len() == 9,
        "output"@.len() == 6,
        "encrypted_content"@.len() == 17,
        "message"@.len() == 7,
        "function_call"@.len() == 13,
        "function_call_output"@.len() == 20,
        "reasoning"@.len() == 9,
{
    reveal_strlit("type");
    reveal_strlit("role");
    reveal_strlit("text");
    reveal_strlit("content");
    reveal_strlit("status");
    reveal_strlit("id");
    reveal_strlit("call_id");
    reveal_strlit("name");
    reveal_strlit("arguments");
    reveal_strlit("output");
    reveal_strlit("encrypted_content");
    reveal_strlit("message");
    reveal_strlit("function_call");
    reveal_strlit("function_call_output");
    reveal_strlit("reasoning");
    assert("type"@[0] == 't' && "role"@[0] == 'r' && "name"@[0] == 'n');
    assert("type"@[1] == 'y' && "text"@[1] == 'e');
    assert("content"@[1] == 'o' && "call_id"@[1] == 'a');
}

proof fn lemma_text_part(kind: Seq<char>, text: Seq<char>)
    ensures
        text_of(text_part(kind, text)) == text,
        text_part(kind, text).str_at("type"@) == Some(kind),
{
    lemma_literals();
    reveal_with_fuel(find_member, 3);
    let members = text_part(kind, text)->Object_0;
    assert(members.drop_first()[0] == members[1]);
}

proof fn lemma_answer_item(text: Seq<char>, id: Seq<char>)
    ensures
        item_read(assistant_text_item(text, id)) == seq![Reading::Said("assistant"@, text)],
{
    lemma_literals();
    reveal_with_fuel(find_member, 6);
    let item = assistant_text_item(text, id);
    let members = item->Object_0;
    assert(members.drop_first()[0] == members[1]);
    assert(members.drop_first().drop_first()[0] == members[2]);
    lemma_text_part("output_text"@, text);
    assert(item_read(item) =~= seq![Reading::Said("assistant"@, text)]);
}

#[verifier::rlimit(40)]
proof fn lemma_other_item(role: Seq<char>, block: ContentBlockModel)
    requires
        !(block is Text),
    ensures
        match non_text_item(block) {
            Some(item) => item_read(item) == block_meant(role, block),
            None => block_meant(role, block).len() == 0,
        },
{
    lemma_literals();
    reveal_with_fuel(find_member, 6);
    match non_text_item(block) {
        Some(item) => {
            let members = item->Object_0;
            assert(members.drop_first()[0] == members[1]);
            if members.len() > 2 {
                assert(members.drop_first().drop_first()[0] == members[2]);
            }
            if members.len() > 3 {
                assert(members.drop_first().drop_first().drop_first()[0] == members[3]);
            }
            assert(item_read(item) =~= block_meant(role, block));
        },
        None => {},
    }
}

proof fn lemma_answer(
    blocks: Seq<ContentBlockModel>,
    message_index: usize,
    start: int,
    text_index: nat,
)
    requires
        0 <= start <= blocks.len(),
    ensures
        blocks_meant("assistant"@, blocks.take(start), true, true) + items_read(
            assistant_items(blocks, message_index, start, text_index),
        ) == blocks_meant("assistant"@, blocks, true, true),
    decreases blocks.len() - start,
{
    let before = blocks_meant("assistant"@, blocks.take(start), true, true);
    if start < blocks.len() {
        let longer = blocks.take(start + 1);
        assert(longer.drop_last() =~= blocks.take(start));
        assert(longer.last() == blocks[start]);
        let meant = block_meant("assistant"@, blocks[start]);
        match blocks[start] {
            ContentBlockModel::Text { text, provider_metadata } => {
                let id = assistant_text_id(provider_metadata, message_index, text_index);
                let item = assistant_text_item(text, id);
                let rest = assistant_items(blocks, message_index, start + 1, text_index + 1);
                lemma_answer(blocks, message_index, start + 1, text_index + 1);
                lemma_answer_item(text, id);
                lemma_read_joined(seq![item], rest);
                lemma_read_one(item);
                assert(before + (meant + items_read(rest)) =~= (before + meant) + items_read(rest));
            },
            _ => {
                let rest = assistant_items(blocks, message_index, start + 1, text_index);
                lemma_answer(blocks, message_index, start + 1, text_index);
                lemma_other_item("assistant"@, blocks[start]);
                match non_text_item(blocks[start]) {
                    Some(item) => {
                        lemma_read_joined(seq![item], rest);
                        lemma_read_one(item);
                    },
                    None => {},
                }
                assert(before + (meant + items_read(rest)) =~= (before + meant) + items_read(rest));
                assert(meant.len() == 0 ==> before + meant =~= before);
            },
        }
    } else {
        assert(blocks.take(start) =~= blocks);
        assert(before + Seq::<Reading>::empty() =~= before);
    }
}

proof fn lemma_parts(role: Seq<char>, blocks: Seq<ContentBlockModel>, start: int)
    requires
        0 <= start <= blocks.len(),
    ensures
        blocks_meant(role, blocks.take(start), true, false) + texts_read(
            role,
            input_parts(blocks, start),
        ) == blocks_meant(role, blocks, true, false),
    decreases blocks.len() - start,
{
    let before = blocks_meant(role, blocks.take(start), true, false);
    if start < blocks.len() {
        lemma_parts(role, blocks, start + 1);
        let longer = blocks.take(start + 1);
        assert(longer.drop_last() =~= blocks.take(start));
        assert(longer.last() == blocks[start]);
        match blocks[start] {
            ContentBlockModel::Text { text, .. } => {
                let rest = input_parts(blocks, start + 1);
                let part = text_part("input_text"@, text);
                lemma_text_part("input_text"@, text);
                assert(before + texts_read(role, seq![part] + rest) =~= (before + seq![
                    Reading::Said(role, text),
                ]) + texts_read(role, rest));
            },
            _ => {},
        }
    } else {
        assert(blocks.take(start) =~= blocks);
        assert(before + texts_read(role, Seq::empty()) =~= before);
    }
}

proof fn lemma_others(role: Seq<char>, blocks: Seq<ContentBlockModel>, start: int)
    requires
        0 <= start <= blocks.len(),
    ensures
        blocks_meant(role, blocks.take(start), false, true) + items_read(
            non_text_items(blocks, start),
        ) == blocks_meant(role, blocks, false, true),
    decreases blocks.len() - start,
{
    let before = blocks_meant(role, blocks.take(start), false, true);
    if start < blocks.len() {
        lemma_others(role, blocks, start + 1);
        let longer = blocks.take(start + 1);
        assert(longer.drop_last() =~= blocks.take(start));
        assert(longer.last() == blocks[start]);
        let rest = non_text_items(blocks, start + 1);
        if !(blocks[start] is Text) {
            let meant = block_meant(role, blocks[start]);
            lemma_other_item(role, blocks[start]);
            match non_text_item(blocks[start]) {
                Some(item) => {
                    lemma_read_joined(seq![item], rest);
                    lemma_read_one(item);
                },
                None => {},
            }
            assert(before + (meant + items_read(rest)) =~= (before + meant) + items_read(rest));
            assert(meant.len() == 0 ==> before + meant =~= before);
        }
    } else {
        assert(blocks.take(start) =~= blocks);
        assert(before + Seq::<Reading>::empty() =~= before);
    }
}

/// A provider reads in the items of a message what the message says: every text under its role,
/// every tool call under its name and with its arguments, every result, and the reasoning that goes
/// back to the provider, in order.
pub proof fn messages_are_read_as_they_are_meant(message: MessageModel, message_index: usize)
    ensures
        items_read(message_items(message, message_index)) == message_meant(message),
{
    let blocks = message.content;
    let none = blocks.take(0);
    assert(none.len() == 0);
    if message.role == Role::Assistant {
        lemma_answer(blocks, message_index, 0, 0);
        let read = items_read(assistant_items(blocks, message_index, 0, 0));
        assert(Seq::<Reading>::empty() + read =~= read);
    } else {
        let role = wire_role(message.role);
        lemma_parts(role, blocks, 0);
        lemma_others(role, blocks, 0);
        let parts = input_parts(blocks, 0);
        let others = items_read(non_text_items(blocks, 0));
        assert(Seq::<Reading>::empty() + texts_read(role, parts) =~= texts_read(role, parts));
        assert(Seq::<Reading>::empty() + others =~= others);
        if parts.len() > 0 {
            let item = JsonModel::Object(
                seq![
                    ("type"@, str_value("message"@)),
                    ("role"@, str_value(role)),
                    ("content"@, JsonModel::Array(parts)),
                ],
            );
            lemma_read_joined(seq![item], non_text_items(blocks, 0));
            lemma_read_one(item);
            lemma_literals();
            reveal_with_fuel(find_member, 4);
            let members = item->Object_0;
            assert(members.drop_first()[0] == members[1]);
            assert(members.drop_first().drop_first()[0] == members[2]);
        } else {
            assert(Seq::<JsonModel>::empty() + non_text_items(blocks, 0) =~= non_text_items(
                blocks,
                0,
            ));
            assert(texts_read(role, parts) =~= Seq::<Reading>::empty());
        }
    }
}

/// Whether a message goes out at the top of the request.
pub open spec fn goes_to_the_top(compatibility: CompatibilityProfile, message: MessageModel) -> bool {
    &&& compatibility.responses_instructions == ResponsesInstructionsPolicy::TopLevel
    &&& message.role == Role::System || message.role == Role::Developer
}

/// What the messages of a conversation are to be read as, but for those at the top.
pub open spec fn conversation_meant(
    compatibility: CompatibilityProfile,
    messages: Seq<MessageModel>,
) -> Seq<Reading>
    decreases messages.len(),
{
    if messages.len() == 0 {
        Seq::empty()
    } else {
        let before = conversation_meant(compatibility, messages.drop_last());
        if goes_to_the_top(compatibility, messages.last()) {
            before
        } else {
            before + message_meant(messages.last())
        }
    }
}

proof fn lemma_input(
    compatibility: CompatibilityProfile,
    messages: Seq<MessageModel>,
    start: int,
)
    requires
        0 <= start <= messages.len(),
    ensures
        conversation_meant(compatibility, messages.take(start)) + items_read(
            input_items(compatibility, messages, start),
        ) == conversation_meant(compatibility, messages),
    decreases messages.len() - start,
{
    let before = conversation_meant(compatibility, messages.take(start));
    if start < messages.len() {
        lemma_input(compatibility, messages, start + 1);
        let longer = messages.take(start + 1);
        assert(longer.drop_last() =~= messages.take(start));
        assert(longer.last() == messages[start]);
        if !is_instruction(compatibility, messages[start].role) {
            let rest = input_items(compatibility, messages, start + 1);
            let items = message_items(messages[start], start as usize);
            messages_are_read_as_they_are_meant(messages[start], start as usize);
            lemma_read_joined(items, rest);
            assert(before + (items_read(items) + items_read(rest)) =~= (before + items_read(items))
                + items_read(rest));
        }
    } else {
        assert(messages.take(start) =~= messages);
        assert(before + Seq::<Reading>::empty() =~= before);
    }
}

/// The texts of the text blocks.
pub open spec fn texts_among(blocks: Seq<ContentBlockModel>) -> Seq<Seq<char>>
    decreases blocks.len(),
{
    if blocks.len() == 0 {
        Seq::empty()
    } else {
        match blocks.last() {
            ContentBlockModel::Text { text, .. } => texts_among(blocks.drop_last()).push(text),
            _ => texts_among(blocks.drop_last()),
        }
    }
}

/// The texts of the messages at the top.
pub open spec fn top_texts(
    compatibility: CompatibilityProfile,
    messages: Seq<MessageModel>,
) -> Seq<Seq<char>>
    decreases messages.len(),
{
    if messages.len() == 0 {
        Seq::empty()
    } else {
        let before = top_texts(compatibility, messages.drop_last());
        if goes_to_the_top(compatibility, messages.last()) {
            before + texts_among(messages.last().content)
        } else {
            before
        }
    }
}

/// Texts, one to a line.
pub open spec fn one_to_a_line(texts: Seq<Seq<char>>) -> Seq<char>
    decreases texts.len(),
{
    if texts.len() == 0 {
        Seq::empty()
    } else if texts.len() == 1 {
        texts[0]
    } else {
        (one_to_a_line(texts.drop_last()).push('\n')) + texts.last()
    }
}

proof fn lemma_lines(texts: Seq<Seq<char>>)
    ensures
        join_texts(texts, "\n"@) == one_to_a_line(texts),
    decreases texts.len(),
{
    reveal_strlit("\n");
    if texts.len() > 1 {
        lemma_lines(texts.drop_last());
        let before = one_to_a_line(texts.drop_last());
        assert(before + "\n"@ =~= before.push('\n'));
    }
}

proof fn lemma_texts(blocks: Seq<ContentBlockModel>, start: int)
    requires
        0 <= start <= blocks.len(),
    ensures
        texts_among(blocks.take(start)) + block_texts(blocks, start) == texts_among(blocks),
    decreases blocks.len() - start,
{
    let before = texts_among(blocks.take(start));
    if start < blocks.len() {
        lemma_texts(blocks, start + 1);
        let longer = blocks.take(start + 1);
        assert(longer.drop_last() =~= blocks.take(start));
        assert(longer.last() == blocks[start]);
        match blocks[start] {
            ContentBlockModel::Text { text, .. } => {
                let rest = block_texts(blocks, start + 1);
                assert(before + (seq![text] + rest) =~= before.push(text) + rest);
            },
            _ => {},
        }
    } else {
        assert(blocks.take(start) =~= blocks);
        assert(before + Seq::<Seq<char>>::empty() =~= before);
    }
}

proof fn lemma_top(compatibility: CompatibilityProfile, messages: Seq<MessageModel>, start: int)
    requires
        0 <= start <= messages.len(),
    ensures
        top_texts(compatibility, messages.take(start)) + instruction_texts(
            compatibility,
            messages,
            start,
        ) == top_texts(compatibility, messages),
    decreases messages.len() - start,
{
    let before = top_texts(compatibility, messages.take(start));
    if start < messages.len() {
        lemma_top(compatibility, messages, start + 1);
        let longer = messages.take(start + 1);
        assert(longer.drop_last() =~= messages.take(start));
        assert(longer.last() == messages[start]);
        if is_instruction(compatibility, messages[start].role) {
            let blocks = messages[start].content;
            let rest = instruction_texts(compatibility, messages, start + 1);
            lemma_texts(blocks, 0);
            assert(blocks.take(0).len() == 0);
            assert(Seq::<Seq<char>>::empty() + block_texts(blocks, 0) =~= block_texts(blocks, 0));
            assert(before + (block_texts(blocks, 0) + rest) =~= (before + block_texts(blocks, 0))
                + rest);
        }
    } else {
        assert(messages.take(start) =~= messages);
        assert(before + Seq::<Seq<char>>::empty() =~= before);
    }
}

proof fn lemma_body(
    compatibility: CompatibilityProfile,
    request: GenerateRequestModel,
    key: Seq<char>,
)
    ensures
        ({
            let instructions = instruction_texts(compatibility, request.messages, 0);
            find_member(request_members(compatibility, request), key) == if key == "model"@ {
                Some(str_value(request.model))
            } else if key == "input"@ {
                Some(JsonModel::Array(input_items(compatibility, request.messages, 0)))
            } else if key == "stream"@ {
                Some(JsonModel::Bool(true))
            } else if key == "store"@ {
                Some(JsonModel::Bool(compatibility.responses_store))
            } else if key == "include"@ {
                if compatibility.responses_include_encrypted_reasoning {
                    Some(JsonModel::Array(seq![str_value("reasoning.encrypted_content"@)]))
                } else {
                    None
                }
            } else if key == "instructions"@ {
                if instructions.len() == 0 {
                    None
                } else {
                    Some(str_value(join_texts(instructions, "\n"@)))
                }
            } else if key == "max_output_tokens"@ {
                match request.max_output_tokens {
                    Some(max) => Some(JsonModel::Number(NumberModel::Unsigned(max))),
                    None => None,
                }
            } else if key == "temperature"@ {
                match request.temperature {
                    Some(temperature) => Some(JsonModel::Number(temperature)),
                    None => None,
                }
            } else if key == "tools"@ {
                if request.tools.len() == 0 {
                    None
                } else {
                    Some(JsonModel::Array(tool_items(request.tools)))
                }
            } else {
                None
            }
        }),
{
    lemma_body_keys();
    let instructions = instruction_texts(compatibility, request.messages, 0);
    let base = seq![
        ("model"@, str_value(request.model)),
        ("input"@, JsonModel::Array(input_items(compatibility, request.messages, 0))),
        ("stream"@, JsonModel::Bool(true)),
        ("store"@, JsonModel::Bool(compatibility.responses_store)),
    ];
    let included = if compatibility.responses_include_encrypted_reasoning {
        Some(JsonModel::Array(seq![str_value("reasoning.encrypted_content"@)]))
    } else {
        None
    };
    let top = if instructions.len() == 0 {
        None
    } else {
        Some(str_value(join_texts(instructions, "\n"@)))
    };
    let limit = match request.max_output_tokens {
        Some(max) => Some(JsonModel::Number(NumberModel::Unsigned(max))),
        None => None,
    };
    let temperature = match request.temperature {
        Some(temperature) => Some(JsonModel::Number(temperature)),
        None => None,
    };
    let tools = if request.tools.len() == 0 {
        None
    } else {
        Some(JsonModel::Array(tool_items(request.tools)))
    };
    let a = with_member(base, "include"@, included);
    let b = with_member(a, "instructions"@, top);
    let c = with_member(b, "max_output_tokens"@, limit);
    let d = with_member(c, "temperature"@, temperature);
    an_added_member_is_found(base, "include"@, included, key);
    an_added_member_is_found(a, "instructions"@, top, key);
    an_added_member_is_found(b, "max_output_tokens"@, limit, key);
    an_added_member_is_found(c, "temperature"@, temperature, key);
    an_added_member_is_found(d, "tools"@, tools, key);
    reveal_with_fuel(find_member, 5);
    assert(base.drop_first()[0] == base[1]);
    assert(base.drop_first().drop_first()[0] == base[2]);
    assert(base.drop_first().drop_first().drop_first()[0] == base[3]);
    assert(base.drop_first().drop_first().drop_first().drop_first().len() == 0);
}

proof fn lemma_body_keys()
    ensures
        "model"@.len() == 5,
        "input"@.len() == 5,
        "store"@.len() == 5,
        "tools"@.len() == 5,
        "model"@ != "input"@,
        "model"@ != "store"@,
        "model"@ != "tools"@,
        "input"@ != "store"@,
        "input"@ != "tools"@,
        "store"@ != "tools"@,
        "stream"@.len() == 6,
        "include"@.len() == 7,
        "instructions"@.len() == 12,
        "max_output_tokens"@.len() == 17,
        "temperature"@.len() == 11,
{
    reveal_strlit("model");
    reveal_strlit("input");
    reveal_strlit("stream");
    reveal_strlit("store");
    reveal_strlit("include");
    reveal_strlit("instructions");
    reveal_strlit("max_output_tokens");
    reveal_strlit("temperature");
    reveal_strlit("tools");
    assert("model"@[0] == 'm' && "input"@[0] == 'i' && "store"@[0] == 's' && "tools"@[0] == 't');
}

/// What the provider is told of a conversation is all of it: the texts of system and developer
/// messages stand at the top, where that is the policy, one to a line, and are missing only where
/// there are none; and the input is read as everything else is meant, in the order of the
/// conversation.
pub proof fn bodies_tell_the_whole_conversation(
    compatibility: CompatibilityProfile,
    request: GenerateRequestModel,
)
    ensures
        match encoded_request(compatibility, request) {
            Err(_) => true,
            Ok(body) => {
                let top = top_texts(compatibility, request.messages);
                &&& top.len() > 0 ==> body.str_at("instructions"@) == Some(one_to_a_line(top))
                &&& top.len() == 0 ==> body.get("instructions"@) is None
                &&& body.array_at("input"@) is Some
                &&& items_read(body.array_at("input"@)->0) == conversation_meant(
                    compatibility,
                    request.messages,
                )
            },
        },
{
    lemma_body(compatibility, request, "instructions"@);
    lemma_body(compatibility, request, "input"@);
    lemma_body_keys();
    lemma_top(compatibility, request.messages, 0);
    lemma_input(compatibility, request.messages, 0);
    assert(request.messages.take(0).len() == 0);
    let top = instruction_texts(compatibility, request.messages, 0);
    let read = items_read(input_items(compatibility, request.messages, 0));
    assert(Seq::<Seq<char>>::empty() + top =~= top);
    assert(Seq::<Reading>::empty() + read =~= read);
    lemma_lines(top);
}

/// Whether a wire value is the definition of a tool.
pub open spec fn is_tool(wire: JsonModel, tool: ToolDefinitionModel) -> bool {
    &&& wire.str_at("type"@) == Some("function"@)
    &&& wire.str_at("name"@) == Some(tool.name)
    &&& wire.str_at("description"@) == Some(tool.description)
    &&& wire.get("parameters"@) == Some(tool.parameters)
}

proof fn lemma_tool(tool: ToolDefinitionModel)
    ensures
        is_tool(tool_item(tool), tool),
{
    lemma_literals();
    reveal_strlit("description");
    reveal_strlit("parameters");
    reveal_with_fuel(find_member, 5);
    let members = tool_item(tool)->Object_0;
    assert("description"@.len() == 11 && "parameters"@.len() == 10);
    assert(members.drop_first()[0] == members[1]);
    assert(members.drop_first().drop_first()[0] == members[2]);
    assert(members.drop_first().drop_first().drop_first()[0] == members[3]);
}

/// A request body asks for what the request asks for: its model, a stream, whether the provider may
/// store the response, its encrypted reasoning where that is wanted, its limit, its temperature and
/// its tools one by one. What is not asked for is not there.
pub proof fn bodies_ask_for_what_is_asked(
    compatibility: CompatibilityProfile,
    request: GenerateRequestModel,
)
    ensures
        match encoded_request(compatibility, request) {
            Err(_) => true,
            Ok(body) => {
                &&& body.str_at("model"@) == Some(request.model)
                &&& body.get("stream"@) == Some(JsonModel::Bool(true))
                &&& body.get("store"@) == Some(JsonModel::Bool(compatibility.responses_store))
                &&& compatibility.responses_include_encrypted_reasoning ==> body.array_at("include"@)
                    == Some(seq![JsonModel::Str("reasoning.encrypted_content"@)])
                &&& !compatibility.responses_include_encrypted_reasoning ==> body.get(
                    "include"@,
                ) is None
                &&& body.get("max_output_tokens"@) == match request.max_output_tokens {
                    Some(max) => Some(JsonModel::Number(NumberModel::Unsigned(max))),
                    None => None,
                }
                &&& body.get("temperature"@) == match request.temperature {
                    Some(temperature) => Some(JsonModel::Number(temperature)),
                    None => None,
                }
                &&& request.tools.len() == 0 ==> body.get("tools"@) is None
                &&& request.tools.len() > 0 ==> {
                    let tools = body.array_at("tools"@);
                    &&& tools is Some
                    &&& tools->0.len() == request.tools.len()
                    &&& forall|k: int|
                        0 <= k < request.tools.len() ==> is_tool(
                            #[trigger] tools->0[k],
                            request.tools[k],
                        )
                }
            },
        },
{
    lemma_body_keys();
    lemma_body(compatibility, request, "model"@);
    lemma_body(compatibility, request, "stream"@);
    lemma_body(compatibility, request, "store"@);
    lemma_body(compatibility, request, "include"@);
    lemma_body(compatibility, request, "max_output_tokens"@);
    lemma_body(compatibility, request, "temperature"@);
    lemma_body(compatibility, request, "tools"@);
    assert forall|k: int| 0 <= k < request.tools.len() implies is_tool(
        #[trigger] tool_items(request.tools)[k],
        request.tools[k],
    ) by {
        lemma_tool(request.tools[k]);
    }
}

/// An identifier keeps its characters, in their places, as far as they are accepted: another one
/// leaves an underscore, and nothing is left out but what comes after the first 64 and underscores
/// at the end.
pub proof fn identifiers_keep_their_characters(id: Seq<char>)
    ensures
        ({
            let kept = squeezed_id(id);
            &&& kept.len() <= id.len()
            &&& forall|i: int|
                0 <= i < kept.len() ==> #[trigger] kept[i] == if is_id_char(id[i]) {
                    id[i]
                } else {
                    '_'
                }
            &&& forall|i: int|
                kept.len() <= i < id.len() && i < 64 ==> #[trigger] id[i] == '_' || !is_id_char(
                    id[i],
                )
        }),
{
    let all = accepted_chars(id);
    lemma_without_trailing(all, '_');
    lemma_cut_is_trailing(all);
    let kept = squeezed_id(id);
    assert forall|i: int| 0 <= i < kept.len() implies #[trigger] kept[i] == if is_id_char(id[i]) {
        id[i]
    } else {
        '_'
    } by {
        assert(kept[i] == all[i]);
    }
    assert forall|i: int| kept.len() <= i < id.len() && i < 64 implies #[trigger] id[i] == '_'
        || !is_id_char(id[i]) by {
        assert(all[i] == '_');
    }
}

proof fn lemma_cut_is_trailing(text: Seq<char>)
    ensures
        forall|i: int|
            without_trailing(text, '_').len() <= i < text.len() ==> #[trigger] text[i]
                == '_',
    decreases text.len(),
{
    if text.len() > 0 && text.last() == '_' {
        let shorter = text.drop_last();
        lemma_cut_is_trailing(shorter);
        assert forall|i: int|
            without_trailing(text, '_').len() <= i < text.len() implies #[trigger] text[i]
            == '_' by {
            if i < shorter.len() {
                assert(shorter[i] == text[i]);
            }
        }
    }
}

/// A result goes out under the identifier that its call goes out under, and so does a call whose
/// provider gave it one of its own.
pub proof fn a_result_names_its_call(
    call: ToolCallModel,
    result: ToolResultModel,
)
    requires
        result.call_id == match call.provider_metadata.responses {
            Some(responses) => match responses.call_id {
                Some(own) => own,
                None => call.id,
            },
            None => call.id,
        },
    ensures
        ({
            let asked = non_text_item(ContentBlockModel::ToolCall { tool_call: call });
            let answered = non_text_item(ContentBlockModel::ToolResult { tool_result: result });
            &&& asked is Some && answered is Some
            &&& asked->0.str_at("call_id"@) is Some
            &&& asked->0.str_at("call_id"@) == answered->0.str_at("call_id"@)
            &&& asked->0.str_at("call_id"@) == Some(normalized_id(result.call_id))
        }),
{
    lemma_literals();
    reveal_with_fuel(find_member, 6);
    let asked = non_text_item(ContentBlockModel::ToolCall { tool_call: call })->0->Object_0;
    let answered = non_text_item(ContentBlockModel::ToolResult { tool_result: result })->0->Object_0;
    assert(asked.drop_first()[0] == asked[1]);
    assert(answered.drop_first()[0] == answered[1]);
}

/// An identifier that already begins with the prefix, and that a provider accepts, goes out as it
/// is.
pub proof fn accepted_identifiers_stay(id: Seq<char>, prefix: Seq<char>)
    requires
        1 <= id.len() <= 64,
        forall|i: int| 0 <= i < id.len() ==> is_id_char(#[trigger] id[i]),
        id.last() != '_',
    ensures
        normalized_id(id) == id,
        prefix.is_prefix_of(id) ==> prefixed_id(id, prefix) == id,
{
    assert(accepted_chars(id) =~= id);
}

} // verus!
