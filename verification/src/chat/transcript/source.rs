//! Pages of turns out of stored messages.

use vstd::prelude::*;

use crate::chat::transcript::model::{
    allocate_turn_id, next_id, turn_of_message, Turn, TurnId, TurnModel,
};
use crate::llm::model::{Message, MessageModel};
use crate::text::same_text;

verus! {

broadcast use crate::deep::group_models;

/// Where an earlier page ends: the entry of the earliest message that is held.
#[derive(Debug, PartialEq, Eq)]
pub struct TranscriptCursor {
    pub entry_id: String,
}

/// What a [`TranscriptCursor`] stands for.
pub struct TranscriptCursorModel {
    pub entry_id: Seq<char>,
}

impl DeepView for TranscriptCursor {
    type V = TranscriptCursorModel;

    open spec fn deep_view(&self) -> TranscriptCursorModel {
        TranscriptCursorModel {
            entry_id: self.entry_id@,
        }
    }
}

impl Clone for TranscriptCursor {
    fn clone(&self) -> (copy: Self)
        ensures
            copy.deep_view() == self.deep_view(),
    {
        TranscriptCursor {
            entry_id: self.entry_id.clone(),
        }
    }
}

/// Turns out of a source, and where the page before them ends.
#[derive(PartialEq)]
pub struct TranscriptPage {
    pub turns: Vec<Turn>,
    pub cursor_before: Option<TranscriptCursor>,
}

/// What a [`TranscriptPage`] stands for.
pub struct TranscriptPageModel {
    pub turns: Seq<TurnModel>,
    pub cursor_before: Option<TranscriptCursorModel>,
}

impl DeepView for TranscriptPage {
    type V = TranscriptPageModel;

    open spec fn deep_view(&self) -> TranscriptPageModel {
        TranscriptPageModel {
            turns: self.turns.deep_view(),
            cursor_before: self.cursor_before.deep_view(),
        }
    }
}

impl Clone for TranscriptPage {
    fn clone(&self) -> (copy: Self)
        ensures
            copy.deep_view() == self.deep_view(),
    {
        let copy = TranscriptPage {
            turns: self.turns.clone(),
            cursor_before: self.cursor_before.clone(),
        };
        proof {
            assert(copy.turns.deep_view() =~= self.turns.deep_view());
        }
        copy
    }
}

/// A stored message and its entry.
#[derive(PartialEq)]
pub struct ResolvedMessage {
    pub entry_id: String,
    pub message: Message,
}

/// What a [`ResolvedMessage`] stands for.
pub struct ResolvedMessageModel {
    pub entry_id: Seq<char>,
    pub message: MessageModel,
}

impl DeepView for ResolvedMessage {
    type V = ResolvedMessageModel;

    open spec fn deep_view(&self) -> ResolvedMessageModel {
        ResolvedMessageModel {
            entry_id: self.entry_id@,
            message: self.message.deep_view(),
        }
    }
}

/// The turns of the messages from `start` up to `end`, with identifiers of their own.
pub open spec fn page_turns(
    messages: Seq<ResolvedMessageModel>,
    start: int,
    end: int,
    next_turn: u64,
    next_part: u64,
) -> Seq<TurnModel>
    decreases end - start,
{
    if start < 0 || start >= end {
        Seq::empty()
    } else {
        let (turn, after) = turn_of_message(messages[start].message, TurnId(next_turn), next_part);
        seq![turn] + page_turns(messages, start + 1, end, next_id(next_turn), after)
    }
}

/// The page of the messages from `start` up to `end`.
pub open spec fn page_of(messages: Seq<ResolvedMessageModel>, start: int, end: int) -> TranscriptPageModel {
    TranscriptPageModel {
        turns: page_turns(messages, start, end, 1, 1),
        cursor_before: if start > 0 {
            Some(TranscriptCursorModel { entry_id: messages[start].entry_id })
        } else {
            None
        },
    }
}

/// The start of a page of at most `turns` messages that ends at `end`.
pub open spec fn page_start(end: int, turns: usize) -> int {
    if turns == usize::MAX || end <= turns {
        0
    } else {
        end - turns
    }
}

/// The first message with the entry, from position `start` on, or the number of messages.
pub open spec fn entry_position(
    messages: Seq<ResolvedMessageModel>,
    entry_id: Seq<char>,
    start: int,
) -> int
    decreases messages.len() - start,
{
    if start >= messages.len() || messages[start].entry_id == entry_id {
        start
    } else {
        entry_position(messages, entry_id, start + 1)
    }
}

/// The page before a cursor. A cursor that names no message leads to an empty page that keeps it,
/// so that a loader stops there.
pub open spec fn page_before(
    messages: Seq<ResolvedMessageModel>,
    cursor: TranscriptCursorModel,
    turns: usize,
) -> TranscriptPageModel {
    let at = entry_position(messages, cursor.entry_id, 0);
    if at >= messages.len() {
        TranscriptPageModel { turns: Seq::empty(), cursor_before: Some(cursor) }
    } else {
        page_of(messages, page_start(at, turns), at)
    }
}

proof fn lemma_page_len(
    messages: Seq<ResolvedMessageModel>,
    start: int,
    end: int,
    next_turn: u64,
    next_part: u64,
)
    requires
        0 <= start <= end,
    ensures
        page_turns(messages, start, end, next_turn, next_part).len() == end - start,
    decreases end - start,
{
    if start < end {
        let (_, after) = turn_of_message(messages[start].message, TurnId(next_turn), next_part);
        lemma_page_len(messages, start + 1, end, next_id(next_turn), after);
    }
}

/// A page holds as many turns as asked for, or all that there are, and says whether more come
/// before it.
pub proof fn pages_are_complete(messages: Seq<ResolvedMessageModel>, turns: usize)
    requires
        turns > 0,
    ensures
        ({
            let page = page_of(
                messages,
                page_start(messages.len() as int, turns),
                messages.len() as int,
            );
            &&& page.turns.len() == if messages.len() <= turns || turns == usize::MAX {
                messages.len()
            } else {
                turns as nat
            }
            &&& page.cursor_before.is_some() == (page.turns.len() < messages.len())
        }),
{
    let end = messages.len() as int;
    lemma_page_len(messages, page_start(end, turns), end, 1, 1);
}

proof fn lemma_entry_position(
    messages: Seq<ResolvedMessageModel>,
    entry_id: Seq<char>,
    start: int,
    at: int,
)
    requires
        0 <= start <= at < messages.len(),
        messages[at].entry_id == entry_id,
        forall|i: int| start <= i < at ==> (#[trigger] messages[i]).entry_id != entry_id,
    ensures
        entry_position(messages, entry_id, start) == at,
    decreases at - start,
{
    if start < at {
        assert(messages[start].entry_id != entry_id);
        lemma_entry_position(messages, entry_id, start + 1, at);
    }
}

/// Whether entries are told apart by their identifiers.
pub open spec fn told_apart(messages: Seq<ResolvedMessageModel>) -> bool {
    forall|i: int, j: int|
        0 <= i < j < messages.len() ==> messages[i].entry_id != messages[j].entry_id
}

/// The page before a cursor goes on where the page with the cursor began, wherever that one ended,
/// as long as entries are told apart by their identifiers.
pub proof fn pages_follow_each_other(
    messages: Seq<ResolvedMessageModel>,
    start: int,
    end: int,
    turns: usize,
)
    requires
        0 < start < messages.len(),
        told_apart(messages),
    ensures
        page_of(messages, start, end).cursor_before is Some,
        page_before(messages, page_of(messages, start, end).cursor_before->0, turns) == page_of(
            messages,
            page_start(start, turns),
            start,
        ),
{
    lemma_entry_position(messages, messages[start].entry_id, 0, start);
}

/// The turns of a page and of the pages before it, the earliest turn first. `sizes` says how many
/// messages are asked for, page by page from position `at` on, until there are no more.
pub open spec fn paged_back(
    messages: Seq<ResolvedMessageModel>,
    page: TranscriptPageModel,
    sizes: Seq<usize>,
    at: int,
) -> Seq<TurnModel>
    decreases sizes.len() - at,
{
    match page.cursor_before {
        Some(cursor) => if 0 <= at < sizes.len() {
            let earlier = page_before(messages, cursor, sizes[at]);
            paged_back(messages, earlier, sizes, at + 1) + page.turns
        } else {
            page.turns
        },
        None => page.turns,
    }
}

/// Whether a turn is that of a message, under whatever identifiers.
pub open spec fn is_turn_of(turn: TurnModel, message: MessageModel) -> bool {
    exists|id: u64, part: u64| turn == #[trigger] turn_of_message(message, TurnId(id), part).0
}

/// Whether turns are those of the messages from `start` up to `end`, each once and in their order.
pub open spec fn are_turns_of(
    turns: Seq<TurnModel>,
    messages: Seq<ResolvedMessageModel>,
    start: int,
    end: int,
) -> bool {
    &&& turns.len() == end - start
    &&& forall|k: int|
        0 <= k < turns.len() ==> is_turn_of(#[trigger] turns[k], messages[start + k].message)
}

proof fn lemma_page_turns(
    messages: Seq<ResolvedMessageModel>,
    start: int,
    end: int,
    next_turn: u64,
    next_part: u64,
)
    requires
        0 <= start <= end,
    ensures
        are_turns_of(page_turns(messages, start, end, next_turn, next_part), messages, start, end),
    decreases end - start,
{
    let turns = page_turns(messages, start, end, next_turn, next_part);
    if start < end {
        let (turn, after) = turn_of_message(messages[start].message, TurnId(next_turn), next_part);
        lemma_page_turns(messages, start + 1, end, next_id(next_turn), after);
        let rest = page_turns(messages, start + 1, end, next_id(next_turn), after);
        assert forall|k: int| 0 <= k < turns.len() implies is_turn_of(
            #[trigger] turns[k],
            messages[start + k].message,
        ) by {
            if k > 0 {
                assert(turns[k] == rest[k - 1]);
            } else {
                assert(turns[0] == turn_of_message(
                    messages[start].message,
                    TurnId(next_turn),
                    next_part,
                ).0);
            }
        }
    }
}

/// A page holds the turns of its messages, each once and in their order.
pub proof fn pages_hold_their_messages(
    messages: Seq<ResolvedMessageModel>,
    start: int,
    end: int,
)
    requires
        0 <= start <= end,
    ensures
        are_turns_of(page_of(messages, start, end).turns, messages, start, end),
{
    lemma_page_turns(messages, start, end, 1, 1);
}

proof fn lemma_paged_back(
    messages: Seq<ResolvedMessageModel>,
    start: int,
    end: int,
    sizes: Seq<usize>,
    at: int,
)
    requires
        0 <= start <= end <= messages.len(),
        0 < start ==> start < messages.len(),
        told_apart(messages),
        0 <= at <= sizes.len(),
        start <= sizes.len() - at,
        forall|k: int| 0 <= k < sizes.len() ==> #[trigger] sizes[k] > 0,
    ensures
        are_turns_of(
            paged_back(messages, page_of(messages, start, end), sizes, at),
            messages,
            0,
            end,
        ),
    decreases sizes.len() - at,
{
    let page = page_of(messages, start, end);
    pages_hold_their_messages(messages, start, end);
    if start > 0 {
        let before = page_start(start, sizes[at]);
        pages_follow_each_other(messages, start, end, sizes[at]);
        lemma_paged_back(messages, before, start, sizes, at + 1);
        let earlier = paged_back(messages, page_of(messages, before, start), sizes, at + 1);
        let all = earlier + page.turns;
        assert forall|k: int| 0 <= k < all.len() implies is_turn_of(
            #[trigger] all[k],
            messages[0 + k].message,
        ) by {
            if k < start {
                assert(all[k] == earlier[k]);
            } else {
                assert(all[k] == page.turns[k - start]);
            }
        }
    }
}

/// Paging back to the start gives every message once, in their order: from the page that ends with
/// the last message, with as many pages before it as it takes, whatever their sizes.
pub proof fn paging_back_gives_every_message_once(
    messages: Seq<ResolvedMessageModel>,
    turns: usize,
    sizes: Seq<usize>,
)
    requires
        told_apart(messages),
        turns > 0,
        page_start(messages.len() as int, turns) <= sizes.len(),
        forall|k: int| 0 <= k < sizes.len() ==> #[trigger] sizes[k] > 0,
    ensures
        ({
            let end = messages.len() as int;
            let tail = page_of(messages, page_start(end, turns), end);
            are_turns_of(paged_back(messages, tail, sizes, 0), messages, 0, end)
        }),
{
    let end = messages.len() as int;
    lemma_paged_back(messages, page_start(end, turns), end, sizes, 0);
}

/// Stored messages as a source of turns.
pub struct ResolvedStateSource {
    pub messages: Vec<ResolvedMessage>,
}

impl ResolvedStateSource {
    #[must_use]
    pub fn new(messages: Vec<ResolvedMessage>) -> (source: Self)
        ensures
            source.messages == messages,
    {
        ResolvedStateSource { messages }
    }

    fn page(&self, start: usize, end: usize) -> (page: TranscriptPage)
        requires
            start <= end <= self.messages@.len(),
            0 < start ==> start < self.messages@.len(),
        ensures
            page.deep_view() == page_of(self.messages.deep_view(), start as int, end as int),
    {
        let ghost messages = self.messages.deep_view();
        let ghost all = page_turns(messages, start as int, end as int, 1, 1);
        let mut next_turn_id: u64 = 1;
        let mut next_part_id: u64 = 1;
        let mut turns: Vec<Turn> = Vec::new();
        let mut i: usize = start;
        proof {
            assert(turns.deep_view() =~= Seq::<TurnModel>::empty());
            assert(Seq::<TurnModel>::empty() + all =~= all);
        }
        while i < end
            invariant
                messages == self.messages.deep_view(),
                start <= i <= end <= self.messages@.len(),
                turns.deep_view() + page_turns(
                    messages,
                    i as int,
                    end as int,
                    next_turn_id,
                    next_part_id,
                ) == all,
            decreases end - i,
        {
            let ghost before = turns.deep_view();
            proof {
                assert(messages[i as int] == self.messages@[i as int].deep_view());
            }
            let turn_id = allocate_turn_id(&mut next_turn_id);
            let turn = Turn::from_llm(
                self.messages[i].message.clone(),
                turn_id,
                &mut next_part_id,
            );
            let ghost model = turn.deep_view();
            turns.push(turn);
            proof {
                let rest = page_turns(messages, i + 1, end as int, next_turn_id, next_part_id);
                assert(before + (seq![model] + rest) =~= before.push(model) + rest);
            }
            i += 1;
        }
        proof {
            assert(turns.deep_view() =~= all);
        }
        let cursor_before = if start > 0 {
            proof {
                assert(messages[start as int] == self.messages@[start as int].deep_view());
            }
            Some(TranscriptCursor { entry_id: self.messages[start].entry_id.clone() })
        } else {
            None
        };
        TranscriptPage { turns, cursor_before }
    }

    /// The number of turns that there are in all.
    pub fn total_hint(&self) -> (total: Option<usize>)
        ensures
            total == Some(self.messages@.len() as usize),
    {
        Some(self.messages.len())
    }

    /// The last turns, at most so many.
    pub fn load_tail(&self, turns: usize) -> (page: TranscriptPage)
        requires
            turns > 0 || self.messages@.len() == 0,
        ensures
            page.deep_view() == page_of(
                self.messages.deep_view(),
                page_start(self.messages@.len() as int, turns),
                self.messages@.len() as int,
            ),
    {
        let count = self.messages.len();
        let start = if turns == usize::MAX {
            0
        } else {
            count.saturating_sub(turns)
        };
        self.page(start, count)
    }

    /// The turns before a cursor, at most so many.
    pub fn load_before(&self, cursor: &TranscriptCursor, turns: usize) -> (page: TranscriptPage)
        ensures
            page.deep_view() == page_before(
                self.messages.deep_view(),
                cursor.deep_view(),
                turns,
            ),
    {
        let ghost messages = self.messages.deep_view();
        let mut at: usize = 0;
        while at < self.messages.len() && !same_text(
            self.messages[at].entry_id.as_str(),
            cursor.entry_id.as_str(),
        )
            invariant
                messages == self.messages.deep_view(),
                at <= self.messages@.len(),
                entry_position(messages, cursor.entry_id@, 0) == entry_position(
                    messages,
                    cursor.entry_id@,
                    at as int,
                ),
            decreases self.messages@.len() - at,
        {
            at += 1;
        }
        if at >= self.messages.len() {
            let turns: Vec<Turn> = Vec::new();
            proof {
                assert(turns.deep_view() =~= Seq::<TurnModel>::empty());
            }
            return TranscriptPage { turns, cursor_before: Some(cursor.clone()) };
        }
        let start = if turns == usize::MAX {
            0
        } else {
            at.saturating_sub(turns)
        };
        self.page(start, at)
    }
}

} // verus!
