//! The identifiers and the forms under which content goes back in a Responses request.

use vstd::prelude::*;

use crate::json::{a_key_gives_its_first_member, an_absent_key_gives_nothing, JsonModel};
use crate::llm::model::{
    ContentBlockModel, MessageModel, ProviderMetadataModel, ReasoningContentModel, Role,
    ToolCallModel,
};
use crate::llm::protocol::responses::encoding::{
    accepted_chars, assistant_items, assistant_text_id, assistant_text_item, input_parts,
    message_items, non_text_item, non_text_items, normalized_id, prefixed_id, squeezed_id,
    text_part,
};
use crate::text::{decimal_digits, decimal_notation_reads_back, is_digit, without_trailing};

verus! {

/// An identifier that begins with a letter or a digit goes out with the prefix of its kind.
pub proof fn identifiers_carry_their_prefix(id: Seq<char>, prefix: Seq<char>)
    requires
        id.len() > 0,
        'a' <= id[0] <= 'z' || 'A' <= id[0] <= 'Z' || '0' <= id[0] <= '9',
        prefix == "fc_"@ || prefix == "rs_"@ || prefix == "msg_"@,
    ensures
        prefix.is_prefix_of(prefixed_id(id, prefix)),
        prefixed_id(id, prefix).len() > prefix.len() || prefixed_id(id, prefix)
            == normalized_id(id),
{
    reveal_strlit("fc_");
    reveal_strlit("rs_");
    reveal_strlit("msg_");
    lemma_kept_to(accepted_chars(id), 0);
    let normalized = normalized_id(id);
    assert(normalized[0] == id[0]);
    if !prefix.is_prefix_of(normalized) {
        let whole = prefix + normalized;
        let accepted = accepted_chars(whole);
        assert forall|i: int| 0 <= i < prefix.len() implies #[trigger] accepted[i] == prefix[i] by {
            assert(whole[i] == prefix[i]);
        }
        assert(accepted[prefix.len() as int] == whole[prefix.len() as int]);
        assert(whole[prefix.len() as int] == normalized[0]);
        lemma_kept_to(accepted, prefix.len() as int);
        let kept = squeezed_id(whole);
        assert(prefix =~= kept.subrange(0, prefix.len() as int));
    }
}

proof fn lemma_kept_to(text: Seq<char>, at: int)
    requires
        0 <= at < text.len(),
        text[at] != '_',
    ensures
        without_trailing(text, '_').len() > at,
        without_trailing(text, '_').is_prefix_of(text),
        forall|i: int| 0 <= i <= at ==> #[trigger] without_trailing(text, '_')[i] == text[i],
    decreases text.len(),
{
    if text.last() == '_' {
        lemma_kept_to(text.drop_last(), at);
    }
}

proof fn lemma_keys()
    ensures
        "type"@.len() == 4,
        "role"@.len() == 4,
        "type"@ != "role"@,
        "name"@.len() == 4,
        "type"@ != "name"@,
        "content"@.len() == 7,
        "call_id"@.len() == 7,
        "content"@ != "call_id"@,
        "status"@.len() == 6,
        "id"@.len() == 2,
        "arguments"@.len() == 9,
        "encrypted_content"@.len() == 17,
        "output"@.len() == 6,
        "message"@.len() == 7,
        "function_call"@.len() == 13,
        "function_call_output"@.len() == 20,
        "reasoning"@.len() == 9,
{
    reveal_strlit("type");
    reveal_strlit("role");
    reveal_strlit("name");
    reveal_strlit("content");
    reveal_strlit("call_id");
    reveal_strlit("status");
    reveal_strlit("id");
    reveal_strlit("arguments");
    reveal_strlit("encrypted_content");
    reveal_strlit("output");
    reveal_strlit("message");
    reveal_strlit("function_call");
    reveal_strlit("function_call_output");
    reveal_strlit("reasoning");
    assert("type"@[0] == 't' && "role"@[0] == 'r' && "name"@[0] == 'n');
    assert("content"@[1] == 'o' && "call_id"@[1] == 'a');
}

/// A tool call and reasoning go back under the identifier of the item that they came in, with the
/// prefix of their kind, and without one where they came without.
pub proof fn items_go_back_under_their_identifier(
    tool_call: ToolCallModel,
    reasoning: ReasoningContentModel,
)
    ensures
        ({
            let item = non_text_item(ContentBlockModel::ToolCall { tool_call });
            let own = tool_call.provider_metadata.responses;
            let id = if own is Some {
                own->0.item_id
            } else {
                None
            };
            &&& item is Some
            &&& item->0.str_at("type"@) == Some("function_call"@)
            &&& id is None ==> item->0.get("id"@) is None
            &&& id is Some ==> item->0.str_at("id"@) == Some(prefixed_id(id->0, "fc_"@))
        }),
        reasoning.replay is Some && reasoning.replay->0.responses is Some
            && reasoning.replay->0.responses->0.encrypted_reasoning is Some ==> {
            let item = non_text_item(ContentBlockModel::Reasoning { reasoning });
            let id = reasoning.replay->0.responses->0.item_id;
            &&& item is Some
            &&& item->0.str_at("type"@) == Some("reasoning"@)
            &&& item->0.str_at("encrypted_content"@)
                == reasoning.replay->0.responses->0.encrypted_reasoning
            &&& id is None ==> item->0.get("id"@) is None
            &&& id is Some ==> item->0.str_at("id"@) == Some(prefixed_id(id->0, "rs_"@))
        },
{
    lemma_keys();
    let members = non_text_item(ContentBlockModel::ToolCall { tool_call })->0->Object_0;
    a_key_gives_its_first_member(members, 0);
    if members.len() == 5 {
        a_key_gives_its_first_member(members, 4);
    } else {
        an_absent_key_gives_nothing(members, "id"@);
    }
    if reasoning.replay is Some && reasoning.replay->0.responses is Some
        && reasoning.replay->0.responses->0.encrypted_reasoning is Some {
        let members = non_text_item(ContentBlockModel::Reasoning { reasoning })->0->Object_0;
        a_key_gives_its_first_member(members, 0);
        a_key_gives_its_first_member(members, 1);
        if members.len() == 3 {
            a_key_gives_its_first_member(members, 2);
        } else {
            an_absent_key_gives_nothing(members, "id"@);
        }
    }
}

/// Whether an item, if it is a message, is a finished one of the assistant that holds output text.
pub open spec fn is_past_answer(item: JsonModel) -> bool {
    item.str_at("type"@) == Some("message"@) ==> {
        &&& item.str_at("role"@) == Some("assistant"@)
        &&& item.str_at("status"@) == Some("completed"@)
        &&& item.str_at("id"@) is Some
        &&& item.array_at("content"@) is Some
        &&& item.array_at("content"@)->0.len() == 1
        &&& item.array_at("content"@)->0[0].str_at("type"@) == Some("output_text"@)
    }
}

/// Whether an item, if it is a message, holds input text.
pub open spec fn is_past_input(item: JsonModel) -> bool {
    item.str_at("type"@) == Some("message"@) ==> {
        let parts = item.array_at("content"@);
        &&& parts is Some
        &&& forall|k: int|
            0 <= k < parts->0.len() ==> (#[trigger] parts->0[k]).str_at("type"@) == Some(
                "input_text"@,
            )
    }
}

proof fn lemma_part_type(kind: Seq<char>, text: Seq<char>)
    ensures
        text_part(kind, text).str_at("type"@) == Some(kind),
{
    a_key_gives_its_first_member(text_part(kind, text)->Object_0, 0);
}

proof fn lemma_answer(text: Seq<char>, id: Seq<char>)
    ensures
        is_past_answer(assistant_text_item(text, id)),
        assistant_text_item(text, id).str_at("id"@) == Some(id),
{
    lemma_keys();
    let members = assistant_text_item(text, id)->Object_0;
    a_key_gives_its_first_member(members, 0);
    a_key_gives_its_first_member(members, 1);
    a_key_gives_its_first_member(members, 2);
    a_key_gives_its_first_member(members, 3);
    a_key_gives_its_first_member(members, 4);
    lemma_part_type("output_text"@, text);
}

proof fn lemma_no_message(block: ContentBlockModel)
    requires
        non_text_item(block) is Some,
    ensures
        non_text_item(block)->0.str_at("type"@) != Some("message"@),
{
    lemma_keys();
    a_key_gives_its_first_member(non_text_item(block)->0->Object_0, 0);
}

proof fn lemma_answers(
    blocks: Seq<ContentBlockModel>,
    message_index: usize,
    start: int,
    text_index: nat,
)
    requires
        0 <= start <= blocks.len(),
    ensures
        ({
            let items = assistant_items(blocks, message_index, start, text_index);
            forall|k: int| 0 <= k < items.len() ==> is_past_answer(#[trigger] items[k])
        }),
    decreases blocks.len() - start,
{
    if start < blocks.len() {
        let items = assistant_items(blocks, message_index, start, text_index);
        match blocks[start] {
            ContentBlockModel::Text { text, provider_metadata } => {
                let id = assistant_text_id(provider_metadata, message_index, text_index);
                lemma_answer(text, id);
                lemma_answers(blocks, message_index, start + 1, text_index + 1);
                let rest = assistant_items(blocks, message_index, start + 1, text_index + 1);
                assert forall|k: int| 0 <= k < items.len() implies is_past_answer(
                    #[trigger] items[k],
                ) by {
                    if k > 0 {
                        assert(items[k] == rest[k - 1]);
                    }
                }
            },
            _ => {
                lemma_answers(blocks, message_index, start + 1, text_index);
                let rest = assistant_items(blocks, message_index, start + 1, text_index);
                if non_text_item(blocks[start]) is Some {
                    lemma_no_message(blocks[start]);
                    assert forall|k: int| 0 <= k < items.len() implies is_past_answer(
                        #[trigger] items[k],
                    ) by {
                        if k > 0 {
                            assert(items[k] == rest[k - 1]);
                        }
                    }
                }
            },
        }
    }
}

proof fn lemma_input_parts(blocks: Seq<ContentBlockModel>, start: int)
    requires
        0 <= start <= blocks.len(),
    ensures
        ({
            let parts = input_parts(blocks, start);
            forall|k: int|
                0 <= k < parts.len() ==> (#[trigger] parts[k]).str_at("type"@) == Some(
                    "input_text"@,
                )
        }),
    decreases blocks.len() - start,
{
    if start < blocks.len() {
        lemma_input_parts(blocks, start + 1);
        let parts = input_parts(blocks, start);
        let rest = input_parts(blocks, start + 1);
        match blocks[start] {
            ContentBlockModel::Text { text, .. } => {
                lemma_part_type("input_text"@, text);
                assert forall|k: int| 0 <= k < parts.len() implies (#[trigger] parts[k]).str_at(
                    "type"@,
                ) == Some("input_text"@) by {
                    if k > 0 {
                        assert(parts[k] == rest[k - 1]);
                    }
                }
            },
            _ => {},
        }
    }
}

proof fn lemma_no_messages(blocks: Seq<ContentBlockModel>, start: int)
    requires
        0 <= start <= blocks.len(),
    ensures
        ({
            let items = non_text_items(blocks, start);
            forall|k: int|
                0 <= k < items.len() ==> (#[trigger] items[k]).str_at("type"@) != Some("message"@)
        }),
    decreases blocks.len() - start,
{
    if start < blocks.len() {
        lemma_no_messages(blocks, start + 1);
        let items = non_text_items(blocks, start);
        let rest = non_text_items(blocks, start + 1);
        if non_text_item(blocks[start]) is Some {
            lemma_no_message(blocks[start]);
            assert forall|k: int| 0 <= k < items.len() implies (#[trigger] items[k]).str_at(
                "type"@,
            ) != Some("message"@) by {
                if k > 0 {
                    assert(items[k] == rest[k - 1]);
                }
            }
        }
    }
}

/// What the assistant said goes back as finished output, each text under an identifier; what
/// others said goes back as input.
pub proof fn texts_go_back_as_output_or_input(message: MessageModel, message_index: usize)
    ensures
        ({
            let items = message_items(message, message_index);
            &&& message.role == Role::Assistant ==> forall|k: int|
                0 <= k < items.len() ==> is_past_answer(#[trigger] items[k])
            &&& message.role != Role::Assistant ==> forall|k: int|
                0 <= k < items.len() ==> is_past_input(#[trigger] items[k])
        }),
{
    let items = message_items(message, message_index);
    if message.role == Role::Assistant {
        lemma_answers(message.content, message_index, 0, 0);
    } else {
        lemma_keys();
        lemma_input_parts(message.content, 0);
        lemma_no_messages(message.content, 0);
        let parts = input_parts(message.content, 0);
        let others = non_text_items(
            message.content,
            0,
        );
        assert forall|k: int| 0 <= k < items.len() implies is_past_input(#[trigger] items[k]) by {
            if parts.len() > 0 && k == 0 {
                a_key_gives_its_first_member(items[0]->Object_0, 0);
                a_key_gives_its_first_member(items[0]->Object_0, 2);
            } else if parts.len() > 0 {
                assert(items[k] == others[k - 1]);
            } else {
                assert(items[k] == others[k]);
            }
        }
    }
}

/// A text goes back under the identifier that it came with, and, where it came without one, under
/// one that no other such text of the conversation has.
pub proof fn texts_go_back_under_their_identifier(
    metadata: ProviderMetadataModel,
    message_index: usize,
    text_index: nat,
    other_message: usize,
    other_text: nat,
)
    ensures
        metadata.responses is Some && metadata.responses->0.message_id is Some
            ==> assistant_text_id(metadata, message_index, text_index) == prefixed_id(
            metadata.responses->0.message_id->0,
            "msg_"@,
        ),
        metadata.responses is None ==> {
            let id = assistant_text_id(metadata, message_index, text_index);
            let other = assistant_text_id(metadata, other_message, other_text);
            &&& "msg_nostra_"@.is_prefix_of(id)
            &&& id == other <==> message_index == other_message && text_index == other_text
        },
{
    if metadata.responses is None {
        let prefix = "msg_nostra_"@;
        let id = assistant_text_id(metadata, message_index, text_index);
        let other = assistant_text_id(metadata, other_message, other_text);
        assert(prefix =~= id.subrange(0, prefix.len() as int));
        if id == other {
            let mine = number_tail(message_index as nat, text_index);
            let theirs = number_tail(other_message as nat, other_text);
            reveal_strlit("_");
            assert("_"@ =~= seq!['_']);
            assert(id =~= prefix + mine);
            assert(other =~= prefix + theirs);
            assert(mine =~= id.skip(prefix.len() as int));
            assert(theirs =~= other.skip(prefix.len() as int));
            lemma_tails(message_index as nat, text_index, other_message as nat, other_text);
        }
    }
}

spec fn number_tail(message: nat, text: nat) -> Seq<char> {
    if text == 0 {
        decimal_digits(message)
    } else {
        decimal_digits(message) + seq!['_'] + decimal_digits(text)
    }
}

proof fn lemma_tails(a: nat, s: nat, b: nat, t: nat)
    requires
        number_tail(a, s) == number_tail(b, t),
    ensures
        a == b,
        s == t,
{
    decimal_notation_reads_back(a);
    decimal_notation_reads_back(b);
    decimal_notation_reads_back(s);
    decimal_notation_reads_back(t);
    let x = decimal_digits(a);
    let y = decimal_digits(b);
    let mine = number_tail(a, s);
    let theirs = number_tail(b, t);
    if x.len() < y.len() {
        assert(mine[x.len() as int] == '_' || s == 0);
        assert(theirs[x.len() as int] == y[x.len() as int]);
        assert(is_digit(y[x.len() as int]));
        assert(s == 0 ==> mine.len() == x.len() && theirs.len() >= y.len());
        assert(false);
    }
    if y.len() < x.len() {
        assert(theirs[y.len() as int] == '_' || t == 0);
        assert(mine[y.len() as int] == x[y.len() as int]);
        assert(is_digit(x[y.len() as int]));
        assert(t == 0 ==> theirs.len() == y.len() && mine.len() >= x.len());
        assert(false);
    }
    assert(x =~= y) by {
        assert(mine.subrange(0, x.len() as int) =~= x);
        assert(theirs.subrange(0, y.len() as int) =~= y);
    }
    if s > 0 && t > 0 {
        assert(decimal_digits(s) =~= mine.skip(x.len() as int + 1));
        assert(decimal_digits(t) =~= theirs.skip(y.len() as int + 1));
    } else if s > 0 {
        assert(mine.len() > x.len() && theirs.len() == y.len());
    } else if t > 0 {
        assert(theirs.len() > y.len() && mine.len() == x.len());
    }
}

/// Letters and digits of the English alphabet, the hyphen and the underscore are kept in
/// identifiers; any other character becomes an underscore, and at most sixty-four are kept.
pub proof fn plain_characters_are_kept(id: Seq<char>, i: int)
    requires
        0 <= i < id.len(),
        i < 64,
    ensures
        ({
            let c = id[i];
            let plain = 'a' <= c <= 'z' || 'A' <= c <= 'Z' || '0' <= c <= '9' || c == '_' || c == '-';
            &&& accepted_chars(id).len() <= 64
            &&& accepted_chars(id).len() == id.len() || accepted_chars(id).len() == 64
            &&& accepted_chars(id)[i] == if plain {
                c
            } else {
                '_'
            }
        }),
        normalized_id(Seq::empty()) == "call_nostra"@,
{
    assert(accepted_chars(Seq::empty()) =~= Seq::<char>::empty());
}

} // verus!
