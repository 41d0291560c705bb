//! The order of parts, and the replacement of streamed parts by those of the final message.

use vstd::prelude::*;

use crate::chat::transcript::model::{
    allocate_part_id, next_id, part_of_block, role_of, Part, PartId, PartModel, PartSource,
    PartSourceModel, Role, Turn, TurnModel,
};
use crate::llm::event::{
    IndexedContentBlock, IndexedContentBlockModel, IndexedMessage, IndexedMessageModel,
};
use crate::llm::model::{ContentBlock, ContentBlockModel};

verus! {

broadcast use crate::deep::group_models;

/// The first position, from `start` on, of a part with a greater content index.
pub open spec fn place(parts: Seq<PartModel>, content_index: usize, start: int) -> int
    decreases parts.len() - start,
{
    if start >= parts.len() || parts[start].content_index > content_index {
        start
    } else {
        place(parts, content_index, start + 1)
    }
}

/// The parts with one more, after those of its content index and below.
pub open spec fn placed(parts: Seq<PartModel>, part: PartModel) -> Seq<PartModel> {
    parts.insert(place(parts, part.content_index, 0), part)
}

/// The parts in the order of their content indices. Parts of one index keep their order.
pub open spec fn in_content_order(parts: Seq<PartModel>) -> Seq<PartModel>
    decreases parts.len(),
{
    if parts.len() == 0 {
        Seq::empty()
    } else {
        placed(in_content_order(parts.drop_last()), parts.last())
    }
}

/// Whether content indices never decrease.
pub open spec fn ordered(parts: Seq<PartModel>) -> bool {
    forall|i: int, j: int|
        0 <= i < j < parts.len() ==> parts[i].content_index <= parts[j].content_index
}

proof fn lemma_place(parts: Seq<PartModel>, content_index: usize, start: int)
    requires
        0 <= start <= parts.len(),
    ensures
        start <= place(parts, content_index, start) <= parts.len(),
        forall|i: int| start <= i < place(parts, content_index, start) ==> (
        #[trigger] parts[i]).content_index <= content_index,
        place(parts, content_index, start) < parts.len() ==> parts[place(
            parts,
            content_index,
            start,
        )].content_index > content_index,
    decreases parts.len() - start,
{
    if start < parts.len() && parts[start].content_index <= content_index {
        lemma_place(parts, content_index, start + 1);
    }
}

proof fn lemma_placed_is_ordered(parts: Seq<PartModel>, part: PartModel)
    requires
        ordered(parts),
    ensures
        ordered(placed(parts, part)),
        placed(parts, part).len() == parts.len() + 1,
{
    lemma_place(parts, part.content_index, 0);
    let at = place(parts, part.content_index, 0);
    let all = placed(parts, part);
    assert forall|i: int, j: int| 0 <= i < j < all.len() implies all[i].content_index
        <= all[j].content_index by {
        let before = |k: int| if k < at { k } else { k - 1 };
        if i != at {
            assert(all[i] == parts[before(i)]);
        }
        if j != at {
            assert(all[j] == parts[before(j)]);
        }
        if i == at && at < parts.len() {
            assert(parts[at].content_index <= parts[before(j)].content_index);
        }
    }
}

/// Sorting puts parts in the order of their content indices.
pub proof fn sorted_parts_are_ordered(parts: Seq<PartModel>)
    ensures
        ordered(in_content_order(parts)),
        in_content_order(parts).len() == parts.len(),
    decreases parts.len(),
{
    if parts.len() > 0 {
        sorted_parts_are_ordered(parts.drop_last());
        lemma_placed_is_ordered(in_content_order(parts.drop_last()), parts.last());
    }
}

/// Sorting neither adds nor loses a part.
pub proof fn sorting_keeps_the_parts(parts: Seq<PartModel>)
    ensures
        in_content_order(parts).to_multiset() == parts.to_multiset(),
    decreases parts.len(),
{
    broadcast use vstd::seq_lib::group_to_multiset_ensures;

    if parts.len() > 0 {
        let rest = parts.drop_last();
        let done = in_content_order(rest);
        sorting_keeps_the_parts(rest);
        sorted_parts_are_ordered(rest);
        lemma_place(done, parts.last().content_index, 0);
        let at = place(done, parts.last().content_index, 0);
        vstd::seq_lib::to_multiset_insert(done, at, parts.last());
        assert(parts =~= rest.push(parts.last()));
    }
}

/// Parts that are in order stay as they are.
pub proof fn sorting_ordered_parts_changes_nothing(parts: Seq<PartModel>)
    requires
        ordered(parts),
    ensures
        in_content_order(parts) == parts,
    decreases parts.len(),
{
    if parts.len() > 0 {
        let rest = parts.drop_last();
        assert(ordered(rest)) by {
            assert forall|i: int, j: int| 0 <= i < j < rest.len() implies rest[i].content_index
                <= rest[j].content_index by {
                assert(rest[i] == parts[i]);
                assert(rest[j] == parts[j]);
            }
        }
        sorting_ordered_parts_changes_nothing(rest);
        lemma_place(rest, parts.last().content_index, 0);
        let at = place(rest, parts.last().content_index, 0);
        if at < rest.len() {
            assert(rest[at] == parts[at]);
        }
        assert(placed(rest, parts.last()) =~= parts);
    }
}

fn seek_place(parts: &Vec<Part>, content_index: usize) -> (at: usize)
    ensures
        at == place(parts.deep_view(), content_index, 0),
        at <= parts@.len(),
{
    let ghost all = parts.deep_view();
    let mut at: usize = 0;
    while at < parts.len() && parts[at].content_index <= content_index
        invariant
            all == parts.deep_view(),
            at <= parts@.len(),
            place(all, content_index, 0) == place(all, content_index, at as int),
        decreases parts@.len() - at,
    {
        at += 1;
    }
    at
}

/// Sorts parts by content index.
pub fn sort_parts(parts: Vec<Part>) -> (result: Vec<Part>)
    ensures
        result.deep_view() == in_content_order(parts.deep_view()),
{
    let ghost all = parts.deep_view();
    let mut result: Vec<Part> = Vec::new();
    let mut i: usize = 0;
    proof {
        assert(result.deep_view() =~= Seq::<PartModel>::empty());
        assert(all.take(0) =~= Seq::<PartModel>::empty());
    }
    while i < parts.len()
        invariant
            all == parts.deep_view(),
            i <= parts@.len(),
            result.deep_view() == in_content_order(all.take(i as int)),
        decreases parts@.len() - i,
    {
        let part = parts[i].clone();
        let at = seek_place(&result, part.content_index);
        proof {
            assert(all.take(i + 1).drop_last() =~= all.take(i as int));
            assert(all.take(i + 1).last() == all[i as int]);
            assert(all[i as int] == parts@[i as int].deep_view());
        }
        result.insert(at, part);
        i += 1;
    }
    proof {
        assert(all.take(i as int) =~= all);
    }
    result
}

/// Whether a streamed part becomes a block of the final message: they are of one kind, and
/// reasoning has a text to show.
pub open spec fn continues(source: PartSourceModel, block: ContentBlockModel) -> bool {
    match (source, block) {
        (PartSourceModel::Prose { .. }, ContentBlockModel::Text { .. }) => true,
        (PartSourceModel::Reasoning { .. }, ContentBlockModel::Reasoning { reasoning }) => {
            reasoning.display.len() > 0
        },
        (PartSourceModel::ToolCall { .. }, ContentBlockModel::ToolCall { .. }) => true,
        _ => false,
    }
}

/// The content of a streamed part once the final message is there.
pub open spec fn final_source(source: PartSourceModel, block: ContentBlockModel) -> PartSourceModel {
    match (source, block) {
        (
            PartSourceModel::Prose { stream_id, .. },
            ContentBlockModel::Text { text, provider_metadata },
        ) => PartSourceModel::Prose { text, replay: provider_metadata, stream_id },
        (
            PartSourceModel::Reasoning { stream_id, .. },
            ContentBlockModel::Reasoning { reasoning },
        ) => PartSourceModel::Reasoning { reasoning, stream_id },
        (
            PartSourceModel::ToolCall { index, id, name, .. },
            ContentBlockModel::ToolCall { tool_call },
        ) => PartSourceModel::ToolCall {
            index,
            id,
            name: if tool_call.name.len() == 0 {
                name
            } else {
                tool_call.name
            },
            tool_call: Some(tool_call),
        },
        _ => source,
    }
}

/// The part of a block of the final message: the streamed part of its slot, where that continues,
/// or else a new one.
pub open spec fn reconciled(
    content_index: usize,
    old: Option<PartModel>,
    block: ContentBlockModel,
    next: u64,
) -> (PartModel, u64) {
    match old {
        Some(part) => if continues(part.source, block) {
            (
                PartModel {
                    part_id: part.part_id,
                    content_index,
                    source: final_source(part.source, block),
                    finished: true,
                },
                next,
            )
        } else {
            (part_of_block(content_index, block, PartId(next)), next_id(next))
        },
        None => (part_of_block(content_index, block, PartId(next)), next_id(next)),
    }
}

/// The last part with the content index, before position `end`, or -1.
pub open spec fn last_with_index(parts: Seq<PartModel>, content_index: usize, end: int) -> int
    decreases end,
{
    if end <= 0 {
        -1
    } else if parts[end - 1].content_index == content_index {
        end - 1
    } else {
        last_with_index(parts, content_index, end - 1)
    }
}

/// Whether an earlier block, before position `end`, has the content index.
pub open spec fn taken(
    blocks: Seq<IndexedContentBlockModel>,
    content_index: usize,
    end: int,
) -> bool {
    exists|i: int| 0 <= i < end && (#[trigger] blocks[i]).content_index == content_index
}

/// The streamed part that the block at `i` may continue: the last one of its slot, unless an
/// earlier block has taken it.
pub open spec fn previous_part(
    existing: Seq<PartModel>,
    blocks: Seq<IndexedContentBlockModel>,
    i: int,
) -> Option<PartModel> {
    let at = last_with_index(existing, blocks[i].content_index, existing.len() as int);
    if at < 0 || taken(blocks, blocks[i].content_index, i) {
        None
    } else {
        Some(existing[at])
    }
}

/// The parts of the blocks from position `start` on, and the next free identifier.
pub open spec fn reconciled_parts(
    existing: Seq<PartModel>,
    blocks: Seq<IndexedContentBlockModel>,
    start: int,
    next: u64,
) -> (Seq<PartModel>, u64)
    decreases blocks.len() - start,
{
    if start < 0 || start >= blocks.len() {
        (Seq::empty(), next)
    } else {
        let (part, after) = reconciled(
            blocks[start].content_index,
            previous_part(existing, blocks, start),
            blocks[start].block,
            next,
        );
        let (rest, last) = reconciled_parts(existing, blocks, start + 1, after);
        (seq![part] + rest, last)
    }
}

/// A part that streamed and a block that continues it are one part: it keeps its identifier.
pub proof fn continued_parts_keep_their_identifier(
    content_index: usize,
    old: PartModel,
    block: ContentBlockModel,
    next: u64,
)
    requires
        continues(old.source, block),
    ensures
        reconciled(content_index, Some(old), block, next).0.part_id == old.part_id,
        reconciled(content_index, Some(old), block, next).1 == next,
{
}

proof fn lemma_reconciled_len(
    existing: Seq<PartModel>,
    blocks: Seq<IndexedContentBlockModel>,
    start: int,
    next: u64,
)
    requires
        0 <= start <= blocks.len(),
    ensures
        reconciled_parts(existing, blocks, start, next).0.len() == blocks.len() - start,
        forall|i: int|
            0 <= i < blocks.len() - start ==> (#[trigger] reconciled_parts(
                existing,
                blocks,
                start,
                next,
            ).0[i]).content_index == blocks[start + i].content_index,
    decreases blocks.len() - start,
{
    if start < blocks.len() {
        let (part, after) = reconciled(
            blocks[start].content_index,
            previous_part(existing, blocks, start),
            blocks[start].block,
            next,
        );
        lemma_reconciled_len(existing, blocks, start + 1, after);
        let rest = reconciled_parts(existing, blocks, start + 1, after).0;
        let all = reconciled_parts(existing, blocks, start, next).0;
        assert forall|i: int| 0 <= i < blocks.len() - start implies (
        #[trigger] all[i]).content_index == blocks[start + i].content_index by {
            if i > 0 {
                assert(all[i] == rest[i - 1]);
            }
        }
    }
}

/// The final message decides what there is: one part per block, in the order of the blocks, each
/// in its slot.
pub proof fn the_final_message_decides(
    existing: Seq<PartModel>,
    blocks: Seq<IndexedContentBlockModel>,
    next: u64,
)
    ensures
        reconciled_parts(existing, blocks, 0, next).0.len() == blocks.len(),
        forall|i: int|
            0 <= i < blocks.len() ==> (#[trigger] reconciled_parts(existing, blocks, 0, next).0[i]).content_index
                == blocks[i].content_index,
{
    lemma_reconciled_len(existing, blocks, 0, next);
}

pub fn reconcile_one(
    index: usize,
    streamed: Option<&Part>,
    block: ContentBlock,
    next_part_id: &mut u64,
) -> (part: Part)
    ensures
        (part.deep_view(), *final(next_part_id)) == reconciled(
            index,
            streamed.deep_view(),
            block.deep_view(),
            *old(next_part_id),
        ),
{
    match streamed {
        Some(part) => match (&part.source, block) {
            (PartSource::Prose { stream_id, .. }, ContentBlock::Text { text, provider_metadata }) => {
                Part::new(
                    part.part_id,
                    index,
                    PartSource::Prose {
                        text,
                        replay: provider_metadata,
                        stream_id: stream_id.clone(),
                    },
                    true,
                )
            },
            (PartSource::Reasoning { stream_id, .. }, ContentBlock::Reasoning { reasoning }) => {
                if reasoning.display.as_str().is_empty() {
                    Part::from_block(
                        index,
                        ContentBlock::Reasoning { reasoning },
                        allocate_part_id(next_part_id),
                    )
                } else {
                    Part::new(
                        part.part_id,
                        index,
                        PartSource::Reasoning { reasoning, stream_id: stream_id.clone() },
                        true,
                    )
                }
            },
            (
                PartSource::ToolCall { index: call_index, id, name, .. },
                ContentBlock::ToolCall { tool_call },
            ) => {
                let name = if tool_call.name.as_str().is_empty() {
                    name.clone()
                } else {
                    tool_call.name.clone()
                };
                Part::new(
                    part.part_id,
                    index,
                    PartSource::ToolCall {
                        index: *call_index,
                        id: id.clone(),
                        name,
                        tool_call: Some(tool_call),
                    },
                    true,
                )
            },
            (_, block) => Part::from_block(index, block, allocate_part_id(next_part_id)),
        },
        None => Part::from_block(index, block, allocate_part_id(next_part_id)),
    }
}

fn seek_last(parts: &Vec<Part>, content_index: usize) -> (found: Option<usize>)
    ensures
        match found {
            Some(at) => at < parts@.len() && at == last_with_index(
                parts.deep_view(),
                content_index,
                parts@.len() as int,
            ),
            None => last_with_index(parts.deep_view(), content_index, parts@.len() as int) < 0,
        },
{
    let ghost all = parts.deep_view();
    let mut end: usize = parts.len();
    while end > 0
        invariant
            all == parts.deep_view(),
            end <= parts@.len(),
            last_with_index(all, content_index, parts@.len() as int) == last_with_index(
                all,
                content_index,
                end as int,
            ),
        decreases end,
    {
        proof {
            assert(all[end - 1] == parts@[end - 1].deep_view());
        }
        if parts[end - 1].content_index == content_index {
            return Some(end - 1);
        }
        end -= 1;
    }
    None
}

fn is_taken(blocks: &Vec<IndexedContentBlock>, content_index: usize, end: usize) -> (yes: bool)
    requires
        end <= blocks@.len(),
    ensures
        yes == taken(blocks.deep_view(), content_index, end as int),
{
    let ghost all = blocks.deep_view();
    let mut i: usize = 0;
    while i < end
        invariant
            all == blocks.deep_view(),
            i <= end <= blocks@.len(),
            forall|k: int| 0 <= k < i ==> (#[trigger] all[k]).content_index != content_index,
        decreases end - i,
    {
        proof {
            assert(all[i as int] == blocks@[i as int].deep_view());
        }
        if blocks[i].content_index == content_index {
            return true;
        }
        i += 1;
    }
    false
}

/// The parts of the final message. Streamed parts that it continues keep their identifiers.
#[must_use]
pub fn reconcile_parts(
    existing: Vec<Part>,
    blocks: Vec<IndexedContentBlock>,
    next_part_id: &mut u64,
) -> (parts: Vec<Part>)
    ensures
        (parts.deep_view(), *final(next_part_id)) == reconciled_parts(
            existing.deep_view(),
            blocks.deep_view(),
            0,
            *old(next_part_id),
        ),
{
    let ghost streamed = existing.deep_view();
    let ghost content = blocks.deep_view();
    let ghost all = reconciled_parts(streamed, content, 0, *next_part_id);
    let mut parts: Vec<Part> = Vec::new();
    let mut i: usize = 0;
    proof {
        assert(parts.deep_view() =~= Seq::<PartModel>::empty());
        assert(Seq::<PartModel>::empty() + all.0 =~= all.0);
    }
    while i < blocks.len()
        invariant
            streamed == existing.deep_view(),
            content == blocks.deep_view(),
            i <= blocks@.len(),
            parts.deep_view() + reconciled_parts(streamed, content, i as int, *next_part_id).0
                == all.0,
            reconciled_parts(streamed, content, i as int, *next_part_id).1 == all.1,
        decreases blocks@.len() - i,
    {
        let ghost before = parts.deep_view();
        let ghost next = *next_part_id;
        let item = &blocks[i];
        proof {
            assert(content[i as int] == item.deep_view());
        }
        let previous = if is_taken(&blocks, item.content_index, i) {
            None
        } else {
            match seek_last(&existing, item.content_index) {
                Some(at) => Some(&existing[at]),
                None => None,
            }
        };
        proof {
            assert(previous.deep_view() == previous_part(streamed, content, i as int));
        }
        let part = reconcile_one(item.content_index, previous, item.block.clone(), next_part_id);
        let ghost model = part.deep_view();
        parts.push(part);
        proof {
            let rest = reconciled_parts(streamed, content, i + 1, *next_part_id).0;
            assert(before + (seq![model] + rest) =~= before.push(model) + rest);
        }
        i += 1;
    }
    proof {
        assert(parts.deep_view() =~= all.0);
    }
    parts
}

/// A turn with its final message.
pub open spec fn with_message(turn: TurnModel, message: IndexedMessageModel, next: u64) -> (
    TurnModel,
    u64,
) {
    let (parts, after) = reconciled_parts(turn.parts, message.content, 0, next);
    (
        TurnModel {
            parts,
            provider_metadata: message.provider_metadata,
            role: role_of(message.role),
            ..turn
        },
        after,
    )
}

pub fn apply_indexed_message(turn: Turn, message: IndexedMessage, next_part_id: &mut u64) -> (result:
    Turn)
    ensures
        (result.deep_view(), *final(next_part_id)) == with_message(
            turn.deep_view(),
            message.deep_view(),
            *old(next_part_id),
        ),
{
    Turn {
        turn_id: turn.turn_id,
        role: Role::from_llm(message.role),
        parts: reconcile_parts(turn.parts, message.content, next_part_id),
        error: turn.error,
        provider_metadata: message.provider_metadata,
    }
}

} // verus!
