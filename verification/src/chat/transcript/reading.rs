//! What is read from a transcript: its title, the text to copy, the history to send.

use vstd::prelude::*;

use crate::chat::transcript::model::{canonical_blocks, PartModel, PartSourceModel, Role, TurnModel};
use crate::chat::transcript::transcript::{
    first_readable, first_text, first_user_turn, history_turns, is_readable, messages_title,
    one_line, prose_of, readable_text, replayable_messages, title_of, turns_title,
};
use crate::llm;
use crate::llm::model::{ContentBlockModel, MessageModel};
use crate::text::{is_white_space, join_texts};

verus! {

/// Whether the characters of `line` from its first on are those of `text`, with spaces where the
/// text breaks its lines.
pub open spec fn repeats(line: Seq<char>, text: Seq<char>, count: int) -> bool {
    forall|i: int|
        0 <= i < count ==> #[trigger] line[i] == if text[i] == '\n' {
            ' '
        } else {
            text[i]
        }
}

/// Whether a text holds something to read.
pub open spec fn says_something(text: Seq<char>) -> bool {
    exists|i: int| 0 <= i < text.len() && !is_white_space(#[trigger] text[i])
}

/// A title is the text on one line. Of a text of more than forty characters it is the first
/// thirty-seven, with three full stops behind them. A text without anything to read gives the
/// title that stands for none.
pub proof fn titles_begin_as_their_text(text: Seq<char>, default_title: Seq<char>)
    ensures
        ({
            let title = title_of(text, default_title);
            &&& text.len() > 40 ==> {
                &&& title.len() == 40
                &&& repeats(title, text, 37)
                &&& title[37] == '.' && title[38] == '.' && title[39] == '.'
            }
            &&& text.len() <= 40 && says_something(text) ==> {
                &&& title.len() == text.len()
                &&& repeats(title, text, text.len() as int)
            }
            &&& text.len() <= 40 && !says_something(text) ==> title == default_title
        }),
{
    reveal_strlit("...");
    let line = one_line(text);
    if text.len() > 40 {
        let short = line.take(37) + "..."@;
        assert(short[37] == '.' && !is_white_space(short[37]));
    } else if says_something(text) {
        let i = choose|i: int| 0 <= i < text.len() && !is_white_space(#[trigger] text[i]);
        assert(text[i] != '\n' && line[i] == text[i]);
    } else {
        assert forall|i: int| 0 <= i < line.len() implies is_white_space(#[trigger] line[i]) by {
            assert(is_white_space(text[i]));
        }
    }
}

/// Whether a part is prose that holds something to read.
pub open spec fn reads(part: PartModel) -> bool {
    part.source is Prose && says_something(part.source->Prose_text)
}

/// The title of a conversation is that of the first text to read in the first turn of the user.
pub proof fn titles_come_from_the_first_question(
    turns: Seq<TurnModel>,
    i: int,
    j: int,
    default_title: Seq<char>,
)
    requires
        0 <= i < turns.len(),
        turns[i].role == Role::User,
        forall|k: int| 0 <= k < i ==> (#[trigger] turns[k]).role != Role::User,
        0 <= j < turns[i].parts.len(),
        reads(turns[i].parts[j]),
        forall|k: int| 0 <= k < j ==> !reads(#[trigger] turns[i].parts[k]),
    ensures
        turns_title(turns, default_title) == Some(
            title_of(turns[i].parts[j].source->Prose_text, default_title),
        ),
{
    lemma_user_turn(turns, 0, i);
    lemma_readable_part(turns[i].parts, 0, j);
}

proof fn lemma_user_turn(turns: Seq<TurnModel>, start: int, i: int)
    requires
        0 <= start <= i < turns.len(),
        turns[i].role == Role::User,
        forall|k: int| start <= k < i ==> (#[trigger] turns[k]).role != Role::User,
    ensures
        first_user_turn(turns, start) == Some(turns[i]),
    decreases i - start,
{
    if start < i {
        assert(turns[start].role != Role::User);
        lemma_user_turn(turns, start + 1, i);
    }
}

proof fn lemma_reads(part: PartModel)
    ensures
        is_readable(part) == reads(part),
{
}

proof fn lemma_readable_part(parts: Seq<PartModel>, start: int, j: int)
    requires
        0 <= start <= j < parts.len(),
        reads(parts[j]),
        forall|k: int| start <= k < j ==> !reads(#[trigger] parts[k]),
    ensures
        first_readable(parts, start) == Some(parts[j].source->Prose_text),
    decreases j - start,
{
    lemma_reads(parts[start]);
    if start < j {
        assert(!reads(parts[start]));
        lemma_readable_part(parts, start + 1, j);
    }
}

/// A conversation in which the user has not spoken has no title, and neither has one whose first
/// turn of the user holds nothing to read.
pub proof fn nothing_asked_gives_no_title(turns: Seq<TurnModel>, i: int, default_title: Seq<char>)
    requires
        0 <= i <= turns.len(),
        forall|k: int| 0 <= k < i ==> (#[trigger] turns[k]).role != Role::User,
        i < turns.len() ==> turns[i].role == Role::User && forall|k: int|
            0 <= k < turns[i].parts.len() ==> !reads(#[trigger] turns[i].parts[k]),
    ensures
        turns_title(turns, default_title) is None,
{
    if i < turns.len() {
        lemma_user_turn(turns, 0, i);
        lemma_nothing_readable(turns[i].parts, 0);
    } else {
        lemma_no_user_turn(turns, 0);
    }
}

proof fn lemma_no_user_turn(turns: Seq<TurnModel>, start: int)
    requires
        0 <= start <= turns.len(),
        forall|k: int| start <= k < turns.len() ==> (#[trigger] turns[k]).role != Role::User,
    ensures
        first_user_turn(turns, start) is None,
    decreases turns.len() - start,
{
    if start < turns.len() {
        assert(turns[start].role != Role::User);
        lemma_no_user_turn(turns, start + 1);
    }
}

proof fn lemma_nothing_readable(parts: Seq<PartModel>, start: int)
    requires
        0 <= start <= parts.len(),
        forall|k: int| start <= k < parts.len() ==> !reads(#[trigger] parts[k]),
    ensures
        first_readable(parts, start) is None,
    decreases parts.len() - start,
{
    if start < parts.len() {
        lemma_reads(parts[start]);
        assert(!reads(parts[start]));
        lemma_nothing_readable(parts, start + 1);
    }
}

/// Whether a block is text that holds something to read.
pub open spec fn block_reads(block: ContentBlockModel) -> bool {
    block is Text && says_something(block->Text_text)
}

/// Whether a message is one of the user that holds something to read.
pub open spec fn asks(message: MessageModel) -> bool {
    message.role == llm::model::Role::User && exists|k: int|
        0 <= k < message.content.len() && block_reads(#[trigger] message.content[k])
}

/// The title of a conversation that is stored as messages is that of the first text to read in
/// the first message of the user that holds one.
pub proof fn stored_titles_come_from_the_first_question(
    messages: Seq<MessageModel>,
    i: int,
    j: int,
    default_title: Seq<char>,
)
    requires
        0 <= i < messages.len(),
        messages[i].role == llm::model::Role::User,
        forall|k: int| 0 <= k < i ==> !asks(#[trigger] messages[k]),
        0 <= j < messages[i].content.len(),
        block_reads(messages[i].content[j]),
        forall|k: int| 0 <= k < j ==> !block_reads(#[trigger] messages[i].content[k]),
    ensures
        messages_title(messages, 0, default_title) == Some(
            title_of(messages[i].content[j]->Text_text, default_title),
        ),
{
    lemma_first_asking(messages, 0, i, j, default_title);
}

proof fn lemma_first_asking(
    messages: Seq<MessageModel>,
    start: int,
    i: int,
    j: int,
    default_title: Seq<char>,
)
    requires
        0 <= start <= i < messages.len(),
        messages[i].role == llm::model::Role::User,
        forall|k: int| start <= k < i ==> !asks(#[trigger] messages[k]),
        0 <= j < messages[i].content.len(),
        block_reads(messages[i].content[j]),
        forall|k: int| 0 <= k < j ==> !block_reads(#[trigger] messages[i].content[k]),
    ensures
        messages_title(messages, start, default_title) == Some(
            title_of(messages[i].content[j]->Text_text, default_title),
        ),
    decreases i - start,
{
    if start < i {
        assert(!asks(messages[start]));
        if messages[start].role == llm::model::Role::User {
            lemma_no_text(messages[start].content, 0);
        }
        lemma_first_asking(messages, start + 1, i, j, default_title);
    } else {
        lemma_text(messages[i].content, 0, j);
    }
}

proof fn lemma_no_text(blocks: Seq<ContentBlockModel>, start: int)
    requires
        0 <= start <= blocks.len(),
        forall|k: int| 0 <= k < blocks.len() ==> !block_reads(#[trigger] blocks[k]),
    ensures
        first_text(blocks, start) is None,
    decreases blocks.len() - start,
{
    if start < blocks.len() {
        assert(!block_reads(blocks[start]));
        lemma_no_text(blocks, start + 1);
    }
}

proof fn lemma_text(blocks: Seq<ContentBlockModel>, start: int, j: int)
    requires
        0 <= start <= j < blocks.len(),
        block_reads(blocks[j]),
        forall|k: int| 0 <= k < j ==> !block_reads(#[trigger] blocks[k]),
    ensures
        first_text(blocks, start) == Some(blocks[j]->Text_text),
    decreases j - start,
{
    if start < j {
        assert(!block_reads(blocks[start]));
        lemma_text(blocks, start + 1, j);
    }
}

/// Without a message of the user that holds something to read, stored messages have no title.
pub proof fn nothing_asked_gives_no_stored_title(
    messages: Seq<MessageModel>,
    start: int,
    default_title: Seq<char>,
)
    requires
        0 <= start <= messages.len(),
        forall|k: int| start <= k < messages.len() ==> !asks(#[trigger] messages[k]),
    ensures
        messages_title(messages, start, default_title) is None,
    decreases messages.len() - start,
{
    if start < messages.len() {
        assert(!asks(messages[start]));
        if messages[start].role == llm::model::Role::User {
            lemma_no_text(messages[start].content, 0);
        }
        nothing_asked_gives_no_stored_title(messages, start + 1, default_title);
    }
}

/// The texts to read among parts, in their order.
pub open spec fn texts_to_read(parts: Seq<PartModel>) -> Seq<Seq<char>>
    decreases parts.len(),
{
    if parts.len() == 0 {
        Seq::empty()
    } else if reads(parts.last()) {
        texts_to_read(parts.drop_last()).push(parts.last().source->Prose_text)
    } else {
        texts_to_read(parts.drop_last())
    }
}

/// What is copied of a turn are its texts to read, whole, in their order, each on a line of its
/// own.
pub proof fn copies_hold_every_text(parts: Seq<PartModel>)
    ensures
        readable_text(parts, 0, Seq::empty()) == join_texts(texts_to_read(parts), seq!['\n']),
{
    assert(parts.take(0) =~= Seq::<PartModel>::empty());
    lemma_copies(parts, 0, Seq::empty());
}

proof fn lemma_texts_are_long(parts: Seq<PartModel>)
    ensures
        texts_to_read(parts).len() > 0 ==> join_texts(texts_to_read(parts), seq!['\n']).len() > 0,
    decreases parts.len(),
{
    if parts.len() > 0 {
        let rest = texts_to_read(parts.drop_last());
        lemma_texts_are_long(parts.drop_last());
        if reads(parts.last()) {
            assert(texts_to_read(parts).drop_last() =~= rest);
        }
    }
}

proof fn lemma_copies(parts: Seq<PartModel>, start: int, before: Seq<char>)
    requires
        0 <= start <= parts.len(),
        before == join_texts(texts_to_read(parts.take(start)), seq!['\n']),
    ensures
        readable_text(parts, start, before) == join_texts(texts_to_read(parts), seq!['\n']),
    decreases parts.len() - start,
{
    if start >= parts.len() {
        assert(parts.take(start) =~= parts);
    } else {
        let so_far = texts_to_read(parts.take(start));
        let next = parts.take(start + 1);
        assert(next.drop_last() =~= parts.take(start));
        assert(next.last() == parts[start]);
        lemma_reads(parts[start]);
        lemma_texts_are_long(parts.take(start));
        if reads(parts[start]) {
            let text = prose_of(parts[start]);
            assert(texts_to_read(next) == so_far.push(text));
            assert(so_far.push(text).drop_last() =~= so_far);
            if so_far.len() == 0 {
                assert(before + text =~= text);
                assert(so_far.push(text)[0] == text);
            } else {
                assert(before.push('\n') + text =~= before + seq!['\n'] + text);
            }
            let line = if before.len() == 0 {
                before
            } else {
                before.push('\n')
            };
            lemma_copies(parts, start + 1, line + text);
        } else {
            lemma_copies(parts, start + 1, before);
        }
    }
}

/// The history of a conversation cut in two is that of the two, one after the other.
pub proof fn histories_are_told_in_order(first: Seq<TurnModel>, second: Seq<TurnModel>)
    ensures
        replayable_messages(first + second, 0) == replayable_messages(first, 0)
            + replayable_messages(second, 0),
{
    lemma_history_cut(first, second, 0);
    lemma_history_of_rest(first, second, 0);
}

proof fn lemma_history_cut(first: Seq<TurnModel>, second: Seq<TurnModel>, start: int)
    requires
        0 <= start <= first.len(),
    ensures
        replayable_messages(first + second, start) == replayable_messages(first, start)
            + replayable_messages(first + second, first.len() as int),
    decreases first.len() - start,
{
    if start < first.len() {
        lemma_history_cut(first, second, start + 1);
        assert((first + second)[start] == first[start]);
        assert(replayable_messages(first + second, start) =~= replayable_messages(first, start)
            + replayable_messages(first + second, first.len() as int));
    } else {
        assert(replayable_messages(first + second, start) =~= Seq::<MessageModel>::empty()
            + replayable_messages(first + second, first.len() as int));
    }
}

proof fn lemma_history_of_rest(first: Seq<TurnModel>, second: Seq<TurnModel>, start: int)
    requires
        0 <= start <= second.len(),
    ensures
        replayable_messages(first + second, first.len() + start) == replayable_messages(
            second,
            start,
        ),
    decreases second.len() - start,
{
    if start < second.len() {
        lemma_history_of_rest(first, second, start + 1);
        assert((first + second)[first.len() + start] == second[start]);
    }
}

/// A turn goes into the history as one message with its role and its metadata. Only an answer
/// without content is left out.
pub proof fn turns_are_sent_again(turn: TurnModel)
    ensures
        ({
            let sent = replayable_messages(seq![turn], 0);
            let content = canonical_blocks(turn.parts, 0);
            if turn.role == Role::Assistant && content.len() == 0 {
                sent.len() == 0
            } else {
                &&& sent.len() == 1
                &&& sent[0].content == content
                &&& sent[0].provider_metadata == turn.provider_metadata
                &&& turn.role == Role::User <==> sent[0].role == llm::model::Role::User
                &&& turn.role == Role::Assistant <==> sent[0].role == llm::model::Role::Assistant
                &&& turn.role == Role::Tool <==> sent[0].role == llm::model::Role::Tool
            }
        }),
{
    reveal_with_fuel(replayable_messages, 2);
}

/// The content of parts cut in two is that of the two, one after the other.
pub proof fn contents_are_told_in_order(first: Seq<PartModel>, second: Seq<PartModel>)
    ensures
        canonical_blocks(first + second, 0) == canonical_blocks(first, 0) + canonical_blocks(
            second,
            0,
        ),
{
    lemma_content_cut(first, second, 0);
    lemma_content_of_rest(first, second, 0);
}

proof fn lemma_content_cut(first: Seq<PartModel>, second: Seq<PartModel>, start: int)
    requires
        0 <= start <= first.len(),
    ensures
        canonical_blocks(first + second, start) == canonical_blocks(first, start)
            + canonical_blocks(first + second, first.len() as int),
    decreases first.len() - start,
{
    if start < first.len() {
        lemma_content_cut(first, second, start + 1);
        assert((first + second)[start] == first[start]);
        assert(canonical_blocks(first + second, start) =~= canonical_blocks(first, start)
            + canonical_blocks(first + second, first.len() as int));
    } else {
        assert(canonical_blocks(first + second, start) =~= Seq::<ContentBlockModel>::empty()
            + canonical_blocks(first + second, first.len() as int));
    }
}

proof fn lemma_content_of_rest(first: Seq<PartModel>, second: Seq<PartModel>, start: int)
    requires
        0 <= start <= second.len(),
    ensures
        canonical_blocks(first + second, first.len() + start) == canonical_blocks(second, start),
    decreases second.len() - start,
{
    if start < second.len() {
        lemma_content_of_rest(first, second, start + 1);
        assert((first + second)[first.len() + start] == second[start]);
    }
}

/// A part gives its content as it stands: prose its text, reasoning what it shows and what is to
/// be handed back, a finished tool call the call, a result the result. Empty prose, reasoning
/// without either and a tool call that has not finished give nothing.
pub proof fn parts_are_sent_as_they_stand(part: PartModel)
    ensures
        ({
            let content = canonical_blocks(seq![part], 0);
            match part.source {
                PartSourceModel::Prose { text, replay, .. } => if text.len() == 0 {
                    content.len() == 0
                } else {
                    content == seq![
                        ContentBlockModel::Text { text, provider_metadata: replay },
                    ]
                },
                PartSourceModel::Reasoning { reasoning, .. } => if reasoning.display.len() == 0
                    && reasoning.replay is None {
                    content.len() == 0
                } else {
                    content == seq![ContentBlockModel::Reasoning { reasoning }]
                },
                PartSourceModel::ToolCall { tool_call: Some(tool_call), .. } => content == seq![
                    ContentBlockModel::ToolCall { tool_call },
                ],
                PartSourceModel::ToolCall { tool_call: None, .. } => content.len() == 0,
                PartSourceModel::ToolResult(tool_result) => content == seq![
                    ContentBlockModel::ToolResult { tool_result },
                ],
            }
        }),
{
    reveal_with_fuel(canonical_blocks, 2);
}

/// Only an answer that has not begun and has not failed is kept back from the history, and only
/// where it is the last turn.
pub proof fn only_a_waiting_answer_is_kept_back(turns: Seq<TurnModel>, last: TurnModel)
    ensures
        history_turns(Seq::empty()) == Seq::<TurnModel>::empty(),
        last.role == Role::Assistant && last.parts.len() == 0 && last.error is None
            ==> history_turns(turns.push(last)) == turns,
        last.role != Role::Assistant || last.parts.len() > 0 || last.error is Some
            ==> history_turns(turns.push(last)) == turns.push(last),
{
    assert(turns.push(last).drop_last() =~= turns);
}

} // verus!
