//! What becomes of a transcript when an answer is streamed into it.

use vstd::prelude::*;

use crate::chat::transcript::model::{
    canonical_blocks, canonical_of, find_part, is_asked, is_content, message_of_turn, next_id,
    part_of_block, part_position, parts_of_blocks, turn_of_message, PartId, PartModel,
    PartQueryModel, PartSourceModel, Role, TurnId, TurnModel,
};
use crate::chat::transcript::reconcile::{
    in_content_order, last_with_index, ordered, place, previous_part, reconciled, reconciled_parts,
    sorting_ordered_parts_changes_nothing,
};
use crate::chat::transcript::source::{TranscriptCursorModel, TranscriptPageModel};
use crate::chat::transcript::transcript::{
    adopted_parts, adopted_turns, call_finished, delta_appended, event_applied, loaded,
    part_inserted, snapshot_updated, stream_finished, turn_begun, turn_finished, turn_named,
    turn_position, ConversationStreamEventModel, PartChange, TranscriptEventModel,
    TranscriptModel, TranscriptUpdateModel,
};
use crate::llm;
use crate::llm::error::GatewayErrorModel;
use crate::llm::event::{IndexedContentBlockModel, IndexedMessageModel};
use crate::llm::model::{
    no_metadata, ContentBlockModel, MessageModel, ProviderMetadataModel, ReasoningContentModel,
    ToolCallModel,
};

verus! {

/// Whether a part is the prose, or the reasoning, that a stream writes at an index.
pub open spec fn is_stream(
    part: PartModel,
    thinks: bool,
    content_index: usize,
    id: Seq<char>,
) -> bool {
    &&& part.content_index == content_index
    &&& match part.source {
        PartSourceModel::Prose { stream_id, .. } => !thinks && stream_id == id,
        PartSourceModel::Reasoning { stream_id, .. } => thinks && stream_id == id,
        _ => false,
    }
}

/// Whether `at` is the first part that a stream writes at an index.
pub open spec fn is_first_stream(
    parts: Seq<PartModel>,
    at: int,
    thinks: bool,
    content_index: usize,
    id: Seq<char>,
) -> bool {
    &&& 0 <= at < parts.len()
    &&& is_stream(parts[at], thinks, content_index, id)
    &&& forall|k: int| 0 <= k < at ==> !is_stream(#[trigger] parts[k], thinks, content_index, id)
}

/// Whether no part is one that a stream writes at an index.
pub open spec fn is_new_stream(
    parts: Seq<PartModel>,
    thinks: bool,
    content_index: usize,
    id: Seq<char>,
) -> bool {
    forall|k: int|
        0 <= k < parts.len() ==> !is_stream(#[trigger] parts[k], thinks, content_index, id)
}

/// The text that a part shows.
pub open spec fn shown(part: PartModel) -> Seq<char> {
    match part.source {
        PartSourceModel::Prose { text, .. } => text,
        PartSourceModel::Reasoning { reasoning, .. } => reasoning.display,
        _ => Seq::empty(),
    }
}

/// What is to be handed back with a part.
pub open spec fn handed_back(part: PartModel) -> Option<ProviderMetadataModel> {
    match part.source {
        PartSourceModel::Prose { replay, .. } => Some(replay),
        PartSourceModel::Reasoning { reasoning, .. } => reasoning.replay,
        _ => None,
    }
}

/// Whether two transcripts are the same but for one part of the last turn, for what is streaming
/// and for the revision.
pub open spec fn same_but_part(before: TranscriptModel, after: TranscriptModel, at: int) -> bool {
    let parts = after.turns.last().parts;
    &&& before.turns.len() > 0
    &&& after == (TranscriptModel {
        revision: after.revision,
        streaming: after.streaming,
        turns: after.turns,
        ..before
    })
    &&& after.turns == before.turns.update(
        before.turns.len() - 1,
        TurnModel { parts, ..before.turns.last() },
    )
    &&& parts.len() == before.turns.last().parts.len()
    &&& forall|k: int|
        0 <= k < parts.len() && k != at ==> #[trigger] parts[k] == before.turns.last().parts[k]
}

/// Whether a transcript differs from another by one more part in the last turn, behind the parts
/// with its content index or a smaller one, and before the others.
pub open spec fn one_more_part(
    before: TranscriptModel,
    after: TranscriptModel,
    part: PartModel,
) -> bool {
    let old = before.turns.last().parts;
    &&& before.turns.len() > 0
    &&& after.turns.len() == before.turns.len()
    &&& after.source_cursor == before.source_cursor
    &&& after.next_turn_id == before.next_turn_id
    &&& before.next_part_id < u64::MAX ==> after.next_part_id == before.next_part_id + 1
    &&& part.part_id == PartId(before.next_part_id)
    &&& exists|at: int| #[trigger]
        stands_at(old, part, at) && after.turns == before.turns.update(
            before.turns.len() - 1,
            TurnModel { parts: old.insert(at, part), ..before.turns.last() },
        )
}

/// Whether a part belongs at a place among parts that are in the order of their content.
pub open spec fn stands_at(parts: Seq<PartModel>, part: PartModel, at: int) -> bool {
    &&& 0 <= at <= parts.len()
    &&& forall|k: int| 0 <= k < at ==> (#[trigger] parts[k]).content_index <= part.content_index
    &&& forall|k: int|
        at <= k < parts.len() ==> (#[trigger] parts[k]).content_index > part.content_index
}

/// The event that streams a piece of text.
pub open spec fn delta_event(
    thinks: bool,
    content_index: usize,
    id: Seq<char>,
    delta: Seq<char>,
) -> ConversationStreamEventModel {
    if thinks {
        ConversationStreamEventModel::ReasoningDelta { content_index, id, delta }
    } else {
        ConversationStreamEventModel::TextDelta { content_index, id, delta }
    }
}

/// The event that starts a stream.
pub open spec fn start_event(
    thinks: bool,
    content_index: usize,
    id: Seq<char>,
) -> ConversationStreamEventModel {
    if thinks {
        ConversationStreamEventModel::ReasoningStarted { content_index, id }
    } else {
        ConversationStreamEventModel::TextStarted { content_index, id }
    }
}

/// The event that ends a stream.
pub open spec fn finish_event(
    thinks: bool,
    content_index: usize,
    id: Seq<char>,
    replay: Option<ProviderMetadataModel>,
) -> ConversationStreamEventModel {
    if thinks {
        ConversationStreamEventModel::ReasoningFinished { content_index, id, replay }
    } else {
        ConversationStreamEventModel::TextFinished { content_index, id, replay }
    }
}

spec fn query_of(thinks: bool, content_index: usize, id: Seq<char>) -> PartQueryModel {
    if thinks {
        PartQueryModel::Reasoning(content_index, id)
    } else {
        PartQueryModel::Text(content_index, id)
    }
}

proof fn lemma_found(parts: Seq<PartModel>, query: PartQueryModel, start: int, at: int)
    requires
        0 <= start <= at < parts.len(),
        is_asked(parts[at], query),
        forall|k: int| start <= k < at ==> !is_asked(#[trigger] parts[k], query),
    ensures
        part_position(parts, query, start) == at,
    decreases at - start,
{
    if start < at {
        assert(!is_asked(parts[start], query));
        lemma_found(parts, query, start + 1, at);
    }
}

proof fn lemma_missing(parts: Seq<PartModel>, query: PartQueryModel, start: int)
    requires
        0 <= start <= parts.len(),
        forall|k: int| start <= k < parts.len() ==> !is_asked(#[trigger] parts[k], query),
    ensures
        part_position(parts, query, start) == parts.len(),
    decreases parts.len() - start,
{
    if start < parts.len() {
        assert(!is_asked(parts[start], query));
        lemma_missing(parts, query, start + 1);
    }
}

proof fn lemma_stream_found(
    parts: Seq<PartModel>,
    at: int,
    thinks: bool,
    content_index: usize,
    id: Seq<char>,
)
    requires
        is_first_stream(parts, at, thinks, content_index, id),
    ensures
        find_part(parts, query_of(thinks, content_index, id)) == Some(at),
{
    reveal(find_part);
    let query = query_of(thinks, content_index, id);
    assert forall|k: int| 0 <= k < at implies !is_asked(#[trigger] parts[k], query) by {
        assert(!is_stream(parts[k], thinks, content_index, id));
    }
    lemma_found(parts, query, 0, at);
}

proof fn lemma_stream_missing(
    parts: Seq<PartModel>,
    thinks: bool,
    content_index: usize,
    id: Seq<char>,
)
    requires
        is_new_stream(parts, thinks, content_index, id),
    ensures
        find_part(parts, query_of(thinks, content_index, id)) is None,
{
    reveal(find_part);
    let query = query_of(thinks, content_index, id);
    assert forall|k: int| 0 <= k < parts.len() implies !is_asked(#[trigger] parts[k], query) by {
        assert(!is_stream(parts[k], thinks, content_index, id));
    }
    lemma_missing(parts, query, 0);
}

/// A piece of text is added at the end of the part that its stream writes, which is what streams
/// from then on; nothing else changes, and the update names the part and the piece.
#[verifier::rlimit(40)]
pub proof fn pieces_land_in_their_part(
    before: TranscriptModel,
    at: int,
    thinks: bool,
    content_index: usize,
    id: Seq<char>,
    delta: Seq<char>,
)
    requires
        before.turns.len() > 0,
        is_first_stream(before.turns.last().parts, at, thinks, content_index, id),
        !before.turns.last().parts[at].finished,
        delta.len() > 0,
    ensures
        ({
            let (after, updates) = event_applied(
                before,
                delta_event(thinks, content_index, id, delta),
            );
            let old = before.turns.last().parts[at];
            let new = after.turns.last().parts[at];
            let turn_id = before.turns.last().turn_id;
            &&& same_but_part(before, after, at)
            &&& shown(new) == shown(old) + delta
            &&& handed_back(new) == handed_back(old)
            &&& new.part_id == old.part_id && !new.finished
            &&& is_stream(new, thinks, content_index, id)
            &&& after.streaming == Some((turn_id, old.part_id))
            &&& updates.len() == 1
            &&& updates[0].event == TranscriptEventModel::PartChanged {
                turn_id,
                part_id: old.part_id,
                change: PartChange::Append,
                delta,
            }
        }),
{
    reveal(delta_appended);
    reveal(part_inserted);
    lemma_stream_found(before.turns.last().parts, at, thinks, content_index, id);
}

/// The end of a stream finishes its part and keeps its text. What the end hands over is what is
/// handed back; where it hands nothing over, what the part had stays.
pub proof fn ends_finish_their_part(
    before: TranscriptModel,
    at: int,
    thinks: bool,
    content_index: usize,
    id: Seq<char>,
    replay: Option<ProviderMetadataModel>,
)
    requires
        before.turns.len() > 0,
        is_first_stream(before.turns.last().parts, at, thinks, content_index, id),
    ensures
        ({
            let (after, updates) = event_applied(
                before,
                finish_event(thinks, content_index, id, replay),
            );
            let old = before.turns.last().parts[at];
            let new = after.turns.last().parts[at];
            &&& same_but_part(before, after, at)
            &&& shown(new) == shown(old)
            &&& handed_back(new) == if replay is Some {
                replay
            } else {
                handed_back(old)
            }
            &&& new.part_id == old.part_id && new.finished
            &&& is_stream(new, thinks, content_index, id)
            &&& after.streaming == before.streaming
            &&& updates.len() == 1
            &&& updates[0].event == TranscriptEventModel::PartChanged {
                turn_id: before.turns.last().turn_id,
                part_id: old.part_id,
                change: PartChange::Finished,
                delta: Seq::empty(),
            }
        }),
{
    reveal(stream_finished);
    lemma_stream_found(before.turns.last().parts, at, thinks, content_index, id);
}

/// What ends or replaces a stream that has no part changes nothing, and starting a stream again
/// changes nothing either.
#[verifier::rlimit(40)]
pub proof fn strays_change_nothing(
    before: TranscriptModel,
    at: int,
    thinks: bool,
    content_index: usize,
    id: Seq<char>,
    replay: Option<ProviderMetadataModel>,
    reasoning: ReasoningContentModel,
)
    requires
        before.turns.len() > 0,
    ensures
        is_new_stream(before.turns.last().parts, thinks, content_index, id) ==> event_applied(
            before,
            finish_event(thinks, content_index, id, replay),
        ) == (before, Seq::<TranscriptUpdateModel>::empty()),
        is_new_stream(before.turns.last().parts, true, content_index, id) ==> event_applied(
            before,
            ConversationStreamEventModel::ReasoningSnapshotUpdated { content_index, id, reasoning },
        ) == (before, Seq::<TranscriptUpdateModel>::empty()),
        is_first_stream(before.turns.last().parts, at, thinks, content_index, id)
            ==> event_applied(before, start_event(thinks, content_index, id)) == (
            before,
            Seq::<TranscriptUpdateModel>::empty(),
        ),
        event_applied(before, delta_event(thinks, content_index, id, Seq::empty())) == (
            before,
            Seq::<TranscriptUpdateModel>::empty(),
        ),
{
    reveal(stream_finished);
    reveal(snapshot_updated);
    reveal(part_inserted);
    reveal(delta_appended);
    let parts = before.turns.last().parts;
    if is_new_stream(parts, thinks, content_index, id) {
        lemma_stream_missing(parts, thinks, content_index, id);
    }
    if is_new_stream(parts, true, content_index, id) {
        lemma_stream_missing(parts, true, content_index, id);
    }
    if is_first_stream(parts, at, thinks, content_index, id) {
        lemma_stream_found(parts, at, thinks, content_index, id);
    }
}

/// Reasoning that arrives whole takes the place of finished reasoning.
pub proof fn snapshots_replace_finished_reasoning(
    before: TranscriptModel,
    at: int,
    content_index: usize,
    id: Seq<char>,
    reasoning: ReasoningContentModel,
)
    requires
        before.turns.len() > 0,
        is_first_stream(before.turns.last().parts, at, true, content_index, id),
    ensures
        ({
            let (after, updates) = event_applied(
                before,
                ConversationStreamEventModel::ReasoningSnapshotUpdated {
                    content_index,
                    id,
                    reasoning,
                },
            );
            let old = before.turns.last().parts[at];
            let new = after.turns.last().parts[at];
            if old.finished {
                &&& same_but_part(before, after, at)
                &&& shown(new) == reasoning.display
                &&& handed_back(new) == reasoning.replay
                &&& new.part_id == old.part_id && new.finished
                &&& is_stream(new, true, content_index, id)
                &&& after.streaming == before.streaming
                &&& updates.len() == 1
                &&& updates[0].event == TranscriptEventModel::PartChanged {
                    turn_id: before.turns.last().turn_id,
                    part_id: old.part_id,
                    change: PartChange::Replace,
                    delta: Seq::empty(),
                }
            } else {
                after == before && updates.len() == 0
            }
        }),
{
    reveal(snapshot_updated);
    lemma_stream_found(before.turns.last().parts, at, true, content_index, id);
}

proof fn lemma_stands(parts: Seq<PartModel>, part: PartModel, start: int)
    requires
        ordered(parts),
        0 <= start <= parts.len(),
        forall|k: int|
            0 <= k < start ==> (#[trigger] parts[k]).content_index <= part.content_index,
    ensures
        stands_at(parts, part, place(parts, part.content_index, start)),
    decreases parts.len() - start,
{
    if start < parts.len() && parts[start].content_index <= part.content_index {
        lemma_stands(parts, part, start + 1);
    }
}

proof fn lemma_pushed(parts: Seq<PartModel>, part: PartModel)
    requires
        ordered(parts),
    ensures
        ({
            let at = place(parts, part.content_index, 0);
            &&& stands_at(parts, part, at)
            &&& in_content_order(parts.push(part)) == parts.insert(at, part)
        }),
{
    assert(parts.push(part).drop_last() =~= parts);
    sorting_ordered_parts_changes_nothing(parts);
    lemma_stands(parts, part, 0);
}

/// A stream that starts is given a part of its own, empty and open, where its content belongs;
/// it is what streams from then on.
pub proof fn starts_open_a_part(
    before: TranscriptModel,
    thinks: bool,
    content_index: usize,
    id: Seq<char>,
)
    requires
        before.turns.len() > 0,
        ordered(before.turns.last().parts),
        is_new_stream(before.turns.last().parts, thinks, content_index, id),
    ensures
        ({
            let (after, updates) = event_applied(before, start_event(thinks, content_index, id));
            let part_id = PartId(before.next_part_id);
            let turn_id = before.turns.last().turn_id;
            &&& exists|part: PartModel| #[trigger]
                one_more_part(before, after, part) && is_stream(part, thinks, content_index, id)
                    && shown(part).len() == 0 && !part.finished && handed_back(part) == if thinks {
                    None
                } else {
                    Some(no_metadata())
                }
            &&& after.streaming == Some((turn_id, part_id))
            &&& updates.len() == 1
            &&& updates[0].event == TranscriptEventModel::PartInserted { turn_id, part_id }
        }),
{
    reveal(part_inserted);
    let parts = before.turns.last().parts;
    lemma_stream_missing(parts, thinks, content_index, id);
    let source = if thinks {
        PartSourceModel::Reasoning {
            reasoning: ReasoningContentModel { display: Seq::empty(), replay: None },
            stream_id: id,
        }
    } else {
        PartSourceModel::Prose { text: Seq::empty(), replay: no_metadata(), stream_id: id }
    };
    let part = PartModel {
        part_id: PartId(before.next_part_id),
        content_index,
        source,
        finished: false,
    };
    lemma_pushed(parts, part);
    let after = event_applied(before, start_event(thinks, content_index, id)).0;
    assert(one_more_part(before, after, part));
}

/// Whether a part is a tool call at an index of the content.
pub open spec fn is_call_at(part: PartModel, content_index: usize) -> bool {
    part.content_index == content_index && part.source is ToolCall
}

/// Whether a part is the tool call with an index at an index of the content.
pub open spec fn is_call(part: PartModel, content_index: usize, index: usize) -> bool {
    is_call_at(part, content_index) && part.source->ToolCall_index == index
}

/// A tool call that starts is given a part of its own that names it, unless there is one at that
/// index of the content.
pub proof fn calls_open_a_part(
    before: TranscriptModel,
    content_index: usize,
    index: usize,
    id: Seq<char>,
    name: Seq<char>,
)
    requires
        before.turns.len() > 0,
        ordered(before.turns.last().parts),
    ensures
        ({
            let (after, updates) = event_applied(
                before,
                ConversationStreamEventModel::ToolCallStarted { content_index, index, id, name },
            );
            let parts = before.turns.last().parts;
            let part_id = PartId(before.next_part_id);
            let turn_id = before.turns.last().turn_id;
            let part = PartModel {
                part_id,
                content_index,
                source: PartSourceModel::ToolCall { index, id, name, tool_call: None },
                finished: false,
            };
            if exists|k: int| 0 <= k < parts.len() && is_call_at(#[trigger] parts[k], content_index) {
                after == before && updates.len() == 0
            } else {
                &&& one_more_part(before, after, part)
                &&& after.streaming == Some((turn_id, part_id))
                &&& updates.len() == 1
                &&& updates[0].event == TranscriptEventModel::PartInserted { turn_id, part_id }
            }
        }),
{
    reveal(part_inserted);
    reveal(find_part);
    let parts = before.turns.last().parts;
    let query = PartQueryModel::ToolCall(content_index);
    let part = PartModel {
        part_id: PartId(before.next_part_id),
        content_index,
        source: PartSourceModel::ToolCall { index, id, name, tool_call: None },
        finished: false,
    };
    if exists|k: int| 0 <= k < parts.len() && is_call_at(#[trigger] parts[k], content_index) {
        let k = choose|k: int| 0 <= k < parts.len() && is_call_at(#[trigger] parts[k], content_index);
        lemma_some_found(parts, query, 0, k);
    } else {
        assert forall|k: int| 0 <= k < parts.len() implies !is_asked(#[trigger] parts[k], query) by {
            assert(!is_call_at(parts[k], content_index));
        }
        lemma_missing(parts, query, 0);
        lemma_pushed(parts, part);
    }
}

proof fn lemma_some_found(parts: Seq<PartModel>, query: PartQueryModel, start: int, at: int)
    requires
        0 <= start <= at < parts.len(),
        is_asked(parts[at], query),
    ensures
        start <= part_position(parts, query, start) <= at,
    decreases at - start,
{
    if !is_asked(parts[start], query) {
        lemma_some_found(parts, query, start + 1, at);
    }
}

/// A tool call that finishes gives its part the whole call. Where it had no part, it is given
/// one, finished.
pub proof fn calls_finish_their_part(
    before: TranscriptModel,
    at: int,
    content_index: usize,
    index: usize,
    tool_call: ToolCallModel,
)
    requires
        before.turns.len() > 0,
        ordered(before.turns.last().parts),
        0 <= at <= before.turns.last().parts.len(),
        forall|k: int|
            0 <= k < at ==> !is_call(
                #[trigger] before.turns.last().parts[k],
                content_index,
                index,
            ),
        at < before.turns.last().parts.len() ==> is_call(
            before.turns.last().parts[at],
            content_index,
            index,
        ),
    ensures
        ({
            let (after, updates) = event_applied(
                before,
                ConversationStreamEventModel::ToolCallFinished { content_index, index, tool_call },
            );
            let parts = before.turns.last().parts;
            let turn_id = before.turns.last().turn_id;
            let source = PartSourceModel::ToolCall {
                index,
                id: tool_call.id,
                name: tool_call.name,
                tool_call: Some(tool_call),
            };
            &&& after.streaming == before.streaming
            &&& updates.len() == 1
            &&& if at < parts.len() {
                &&& same_but_part(before, after, at)
                &&& after.turns.last().parts[at] == (PartModel {
                    part_id: parts[at].part_id,
                    content_index,
                    source,
                    finished: true,
                })
                &&& updates[0].event == TranscriptEventModel::PartChanged {
                    turn_id,
                    part_id: parts[at].part_id,
                    change: PartChange::Finished,
                    delta: Seq::empty(),
                }
            } else {
                let part_id = PartId(before.next_part_id);
                &&& one_more_part(
                    before,
                    after,
                    PartModel { part_id, content_index, source, finished: true },
                )
                &&& updates[0].event == TranscriptEventModel::PartInserted { turn_id, part_id }
            }
        }),
{
    reveal(call_finished);
    reveal(find_part);
    let parts = before.turns.last().parts;
    let query = PartQueryModel::ToolCallIndex(content_index, index);
    assert forall|k: int| 0 <= k < at implies !is_asked(#[trigger] parts[k], query) by {
        assert(!is_call(parts[k], content_index, index));
    }
    if at < parts.len() {
        lemma_found(parts, query, 0, at);
    } else {
        lemma_missing(parts, query, 0);
        lemma_pushed(
            parts,
            PartModel {
                part_id: PartId(before.next_part_id),
                content_index,
                source: PartSourceModel::ToolCall {
                    index,
                    id: tool_call.id,
                    name: tool_call.name,
                    tool_call: Some(tool_call),
                },
                finished: true,
            },
        );
    }
}

/// A question and its answer are put behind the turns that there are: the question as a turn of
/// its role that gives its content back, the answer as an empty turn of the assistant. Both have
/// identifiers of their own, and nothing streams.
pub proof fn questions_wait_for_an_answer(before: TranscriptModel, user: MessageModel)
    requires
        before.next_turn_id + 2 <= u64::MAX,
    ensures
        ({
            let (after, answer_id, update) = turn_begun(before, user);
            let n = before.turns.len();
            let question = after.turns[n as int];
            let answer = after.turns[(n + 1) as int];
            &&& after.turns.len() == n + 2
            &&& after.turns.take(n as int) == before.turns
            &&& question.turn_id == TurnId(before.next_turn_id)
            &&& answer.turn_id == answer_id
            &&& answer_id == TurnId((before.next_turn_id + 1) as u64)
            &&& after.next_turn_id == before.next_turn_id + 2
            &&& user.role == llm::model::Role::User ==> question.role == Role::User
            &&& question.error is None && question.provider_metadata == user.provider_metadata
            &&& answer.role == Role::Assistant && answer.parts.len() == 0 && answer.error is None
            &&& after.streaming is None
            &&& update.event == TranscriptEventModel::TailAppended {
                turn_ids: seq![question.turn_id, answer_id],
            }
        }),
{
    assert(turn_begun(before, user).0.turns.take(before.turns.len() as int) =~= before.turns);
}

/// The blocks of a message that hold something, in their order.
pub open spec fn blocks_with_content(
    blocks: Seq<IndexedContentBlockModel>,
) -> Seq<ContentBlockModel>
    decreases blocks.len(),
{
    if blocks.len() == 0 {
        Seq::empty()
    } else if is_content(blocks.last().block) {
        blocks_with_content(blocks.drop_last()).push(blocks.last().block)
    } else {
        blocks_with_content(blocks.drop_last())
    }
}

/// When a turn ends, its content is that of the final message, whatever was streamed, and its
/// error is the one that it ended with. The other turns stay, and nothing streams.
pub proof fn final_messages_are_kept(
    before: TranscriptModel,
    message: IndexedMessageModel,
    error: Option<GatewayErrorModel>,
)
    requires
        before.turns.len() > 0,
    ensures
        ({
            let (after, update) = turn_finished(before, Some(message), error);
            let last = after.turns.last();
            &&& after.turns.drop_last() == before.turns.drop_last()
            &&& after.turns.len() == before.turns.len()
            &&& canonical_blocks(last.parts, 0) == blocks_with_content(message.content)
            &&& last.provider_metadata == message.provider_metadata
            &&& message.role == llm::model::Role::Assistant ==> last.role == Role::Assistant
            &&& last.error == error
            &&& last.turn_id == before.turns.last().turn_id
            &&& after.streaming is None
            &&& after.next_turn_id == before.next_turn_id
            &&& update is Some
            &&& update->0.event == TranscriptEventModel::TurnReplaced { turn_id: last.turn_id }
        }),
{
    reveal(turn_finished);
    let old = before.turns.last().parts;
    let parts = reconciled_parts(old, message.content, 0, before.next_part_id).0;
    let after = turn_finished(before, Some(message), error).0;
    assert(after.turns.drop_last() =~= before.turns.drop_last());
    lemma_finishing_keeps_blocks(parts, after.turns.last().parts, 0);
    lemma_reconciled_blocks(old, message.content, 0, before.next_part_id);
    assert(message.content.skip(0) =~= message.content);
}

proof fn lemma_finishing_keeps_blocks(before: Seq<PartModel>, after: Seq<PartModel>, start: int)
    requires
        after.len() == before.len(),
        forall|i: int| 0 <= i < before.len() ==> (#[trigger] after[i]).source == before[i].source,
        0 <= start <= before.len(),
    ensures
        canonical_blocks(after, start) == canonical_blocks(before, start),
    decreases before.len() - start,
{
    if start < before.len() {
        lemma_finishing_keeps_blocks(before, after, start + 1);
    }
}

proof fn lemma_blocks_first(blocks: Seq<IndexedContentBlockModel>)
    requires
        blocks.len() > 0,
    ensures
        blocks_with_content(blocks) == if is_content(blocks[0].block) {
            seq![blocks[0].block] + blocks_with_content(blocks.skip(1))
        } else {
            blocks_with_content(blocks.skip(1))
        },
    decreases blocks.len(),
{
    if blocks.len() == 1 {
        assert(blocks.drop_last() =~= Seq::<IndexedContentBlockModel>::empty());
        assert(blocks.skip(1) =~= Seq::<IndexedContentBlockModel>::empty());
        assert(seq![blocks[0].block] + blocks_with_content(blocks.skip(1)) =~= seq![
            blocks[0].block,
        ]);
        assert(blocks_with_content(blocks.drop_last()) =~= Seq::<ContentBlockModel>::empty());
        reveal_with_fuel(blocks_with_content, 2);
    } else {
        lemma_blocks_first(blocks.drop_last());
        assert(blocks.drop_last().skip(1) =~= blocks.skip(1).drop_last());
        assert(blocks.skip(1).last() == blocks.last());
        assert(blocks_with_content(blocks) =~= if is_content(blocks[0].block) {
            seq![blocks[0].block] + blocks_with_content(blocks.skip(1))
        } else {
            blocks_with_content(blocks.skip(1))
        });
    }
}

proof fn lemma_reconciled_block(
    content_index: usize,
    old: Option<PartModel>,
    block: ContentBlockModel,
    next: u64,
)
    ensures
        canonical_of(reconciled(content_index, old, block, next).0.source) == if is_content(block) {
            Some(block)
        } else {
            None
        },
{
}

proof fn lemma_canonical_shift(parts: Seq<PartModel>, first: PartModel, start: int)
    requires
        0 <= start <= parts.len(),
    ensures
        canonical_blocks(seq![first] + parts, start + 1) == canonical_blocks(parts, start),
    decreases parts.len() - start,
{
    if start < parts.len() {
        lemma_canonical_shift(parts, first, start + 1);
        assert((seq![first] + parts)[start + 1] == parts[start]);
    }
}

proof fn lemma_reconciled_blocks(
    existing: Seq<PartModel>,
    blocks: Seq<IndexedContentBlockModel>,
    start: int,
    next: u64,
)
    requires
        0 <= start <= blocks.len(),
    ensures
        canonical_blocks(reconciled_parts(existing, blocks, start, next).0, 0)
            == blocks_with_content(blocks.skip(start)),
    decreases blocks.len() - start,
{
    if start < blocks.len() {
        let rest = blocks.skip(start);
        let previous = previous_part(existing, blocks, start);
        let (part, after) = reconciled(
            blocks[start].content_index,
            previous,
            blocks[start].block,
            next,
        );
        let parts = reconciled_parts(existing, blocks, start + 1, after).0;
        lemma_reconciled_blocks(existing, blocks, start + 1, after);
        lemma_reconciled_block(blocks[start].content_index, previous, blocks[start].block, next);
        lemma_canonical_shift(parts, part, 0);
        assert((seq![part] + parts)[0] == part);
        lemma_blocks_first(rest);
        assert(rest.skip(1) =~= blocks.skip(start + 1));
        assert(rest[0] == blocks[start]);
    } else {
        assert(blocks.skip(start) =~= Seq::<IndexedContentBlockModel>::empty());
    }
}

/// A turn that ends without a final message keeps what was streamed into it.
pub proof fn turns_without_a_message_keep_their_content(
    before: TranscriptModel,
    error: Option<GatewayErrorModel>,
)
    requires
        before.turns.len() > 0,
    ensures
        ({
            let after = turn_finished(before, None, error).0;
            &&& after.turns.len() == before.turns.len()
            &&& after.turns.drop_last() == before.turns.drop_last()
            &&& message_of_turn(after.turns.last()) == message_of_turn(before.turns.last())
            &&& after.turns.last().error == error
            &&& forall|i: int|
                0 <= i < after.turns.last().parts.len() && (
                #[trigger] after.turns.last().parts[i]).source is Reasoning
                    ==> after.turns.last().parts[i].finished
            &&& after.streaming is None
        }),
{
    reveal(turn_finished);
    let after = turn_finished(before, None, error).0;
    assert(after.turns.drop_last() =~= before.turns.drop_last());
    lemma_finishing_keeps_blocks(before.turns.last().parts, after.turns.last().parts, 0);
}

/// A page that is loaded replaces the turns by its own, in their order and with their content,
/// numbered from one. There is more to load where a cursor says so.
pub proof fn pages_replace_the_turns(
    before: TranscriptModel,
    page: TranscriptPageModel,
    cursor: Option<TranscriptCursorModel>,
)
    requires
        page.turns.len() < u64::MAX,
    ensures
        ({
            let (after, update) = loaded(before, page, cursor);
            &&& after.turns.len() == page.turns.len()
            &&& forall|i: int|
                0 <= i < page.turns.len() ==> {
                    let turn = #[trigger] after.turns[i];
                    &&& turn.turn_id == TurnId((i + 1) as u64)
                    &&& turn.role == page.turns[i].role
                    &&& turn.error == page.turns[i].error
                    &&& turn.provider_metadata == page.turns[i].provider_metadata
                    &&& turn.parts.len() == page.turns[i].parts.len()
                    &&& forall|k: int|
                        0 <= k < turn.parts.len() ==> (#[trigger] turn.parts[k]) == (PartModel {
                            part_id: turn.parts[k].part_id,
                            ..page.turns[i].parts[k]
                        })
                }
            &&& after.streaming is None
            &&& after.source_cursor == if cursor is Some {
                cursor
            } else {
                page.cursor_before
            }
            &&& update.snapshot.has_earlier == (cursor is Some || page.cursor_before is Some)
            &&& update.event is Reset
        }),
{
    lemma_adopted_turns(page.turns, 0, 1, 1);
}

proof fn lemma_adopted_parts(parts: Seq<PartModel>, start: int, next: u64)
    requires
        0 <= start <= parts.len(),
    ensures
        ({
            let adopted = adopted_parts(parts, start, next).0;
            &&& adopted.len() == parts.len() - start
            &&& forall|k: int|
                0 <= k < adopted.len() ==> (#[trigger] adopted[k]) == (PartModel {
                    part_id: adopted[k].part_id,
                    ..parts[start + k]
                })
        }),
    decreases parts.len() - start,
{
    if start < parts.len() {
        lemma_adopted_parts(parts, start + 1, next_id(next));
        let rest = adopted_parts(
            parts,
            start + 1,
            next_id(next),
        ).0;
        let adopted = adopted_parts(parts, start, next).0;
        assert forall|k: int| 0 <= k < adopted.len() implies (#[trigger] adopted[k]) == (
        PartModel { part_id: adopted[k].part_id, ..parts[start + k] }) by {
            if k > 0 {
                assert(adopted[k] == rest[k - 1]);
            }
        }
    }
}

proof fn lemma_adopted_turns(turns: Seq<TurnModel>, start: int, next_turn: u64, next_part: u64)
    requires
        0 <= start <= turns.len() < u64::MAX,
        next_turn == start + 1,
    ensures
        ({
            let adopted = adopted_turns(turns, start, next_turn, next_part).0;
            &&& adopted.len() == turns.len() - start
            &&& forall|i: int|
                0 <= i < adopted.len() ==> {
                    let turn = #[trigger] adopted[i];
                    &&& turn.turn_id == TurnId((start + i + 1) as u64)
                    &&& turn.role == turns[start + i].role
                    &&& turn.error == turns[start + i].error
                    &&& turn.provider_metadata == turns[start + i].provider_metadata
                    &&& turn.parts.len() == turns[start + i].parts.len()
                    &&& forall|k: int|
                        0 <= k < turn.parts.len() ==> (#[trigger] turn.parts[k]) == (PartModel {
                            part_id: turn.parts[k].part_id,
                            ..turns[start + i].parts[k]
                        })
                }
        }),
    decreases turns.len() - start,
{
    if start < turns.len() {
        let after = adopted_parts(turns[start].parts, 0, next_part).1;
        lemma_adopted_parts(turns[start].parts, 0, next_part);
        lemma_adopted_turns(turns, start + 1, (next_turn + 1) as u64, after);
        let rest = adopted_turns(turns, start + 1, (next_turn + 1) as u64, after).0;
        let adopted = adopted_turns(turns, start, next_turn, next_part).0;
        assert(adopted =~= seq![adopted[0]] + rest);
        assert forall|i: int| 0 <= i < adopted.len() implies {
            let turn = #[trigger] adopted[i];
            &&& turn.turn_id == TurnId((start + i + 1) as u64)
            &&& turn.role == turns[start + i].role
            &&& turn.error == turns[start + i].error
            &&& turn.provider_metadata == turns[start + i].provider_metadata
            &&& turn.parts.len() == turns[start + i].parts.len()
            &&& forall|k: int|
                0 <= k < turn.parts.len() ==> (#[trigger] turn.parts[k]) == (PartModel {
                    part_id: turn.parts[k].part_id,
                    ..turns[start + i].parts[k]
                })
        } by {
            if i > 0 {
                assert(adopted[i] == rest[i - 1]);
            }
        }
    }
}

/// A turn is found by its identifier: the first that has it, and none where none has.
pub proof fn turns_are_found_by_their_identifier(turns: Seq<TurnModel>, id: TurnId, at: int)
    requires
        0 <= at <= turns.len(),
        forall|k: int| 0 <= k < at ==> (#[trigger] turns[k]).turn_id != id,
        at < turns.len() ==> turns[at].turn_id == id,
    ensures
        turn_named(turns, id) == if at < turns.len() {
            Some(turns[at])
        } else {
            None
        },
{
    lemma_turn_position(turns, id, 0, at);
}

proof fn lemma_turn_position(turns: Seq<TurnModel>, id: TurnId, start: int, at: int)
    requires
        0 <= start <= at <= turns.len(),
        forall|k: int| start <= k < at ==> (#[trigger] turns[k]).turn_id != id,
        at < turns.len() ==> turns[at].turn_id == id,
    ensures
        turn_position(turns, id, start) == at,
    decreases at - start,
{
    if start < at {
        assert(turns[start].turn_id != id);
        lemma_turn_position(turns, id, start + 1, at);
    }
}

/// A message becomes a turn of its role: a finished part for each of its blocks, in their order,
/// numbered by its place, with an identifier of its own.
pub proof fn messages_become_turns(message: MessageModel, turn_id: TurnId, next_part_id: u64, i: int)
    requires
        0 <= i < message.content.len(),
        message.content.len() <= usize::MAX,
        next_part_id + message.content.len() <= u64::MAX,
    ensures
        ({
            let (turn, after) = turn_of_message(message, turn_id, next_part_id);
            let part = turn.parts[i];
            &&& turn.turn_id == turn_id
            &&& turn.error is None
            &&& turn.provider_metadata == message.provider_metadata
            &&& turn.role == Role::Assistant <==> message.role == llm::model::Role::Assistant
            &&& turn.role == Role::Tool <==> message.role == llm::model::Role::Tool
            &&& turn.parts.len() == message.content.len()
            &&& after == next_part_id + message.content.len()
            &&& part.part_id == PartId((next_part_id + i) as u64)
            &&& part.content_index == i
            &&& part.finished
            &&& match message.content[i] {
                ContentBlockModel::Text { text, provider_metadata } => part.source is Prose
                    && shown(part) == text && handed_back(part) == Some(provider_metadata),
                ContentBlockModel::Reasoning { reasoning } => part.source is Reasoning && shown(
                    part,
                ) == reasoning.display && handed_back(part) == reasoning.replay,
                ContentBlockModel::ToolCall { tool_call } => part.source
                    == PartSourceModel::ToolCall {
                    index: i as usize,
                    id: tool_call.id,
                    name: tool_call.name,
                    tool_call: Some(tool_call),
                },
                ContentBlockModel::ToolResult { tool_result } => part.source
                    == PartSourceModel::ToolResult(tool_result),
            }
        }),
{
    lemma_parts_of_blocks(message.content, 0, next_part_id, i);
}

proof fn lemma_parts_of_blocks(blocks: Seq<ContentBlockModel>, start: int, next: u64, i: int)
    requires
        0 <= start <= blocks.len() <= usize::MAX,
        next + blocks.len() - start <= u64::MAX,
        0 <= i < blocks.len() - start || (i == 0 && start == blocks.len()),
    ensures
        ({
            let (parts, after) = parts_of_blocks(blocks, start, next);
            &&& parts.len() == blocks.len() - start
            &&& after == next + blocks.len() - start
            &&& i < parts.len() ==> parts[i] == part_of_block(
                (start + i) as usize,
                blocks[start + i],
                PartId((next + i) as u64),
            )
        }),
    decreases blocks.len() - start,
{
    if start < blocks.len() {
        lemma_parts_of_blocks(
            blocks,
            start + 1,
            (next + 1) as u64,
            if i > 0 {
                i - 1
            } else {
                0
            },
        );
        let rest = parts_of_blocks(blocks, start + 1, (next + 1) as u64).0;
        let parts = parts_of_blocks(blocks, start, next).0;
        assert(next_id(next) == next + 1);
        if i > 0 {
            assert(parts[i] == rest[i - 1]);
        }
    }
}

/// The final text, reasoning or call takes the place of what was streamed in the part that goes on
/// under it: the part keeps its identifier and what names its stream, shows the final content, and
/// is finished. A call without a name keeps the name that it started with.
pub proof fn final_content_takes_its_part(
    content_index: usize,
    old: PartModel,
    block: ContentBlockModel,
    next: u64,
)
    ensures
        ({
            let (part, after) = reconciled(content_index, Some(old), block, next);
            &&& part.content_index == content_index
            &&& part.finished
            &&& match (old.source, block) {
                (
                    PartSourceModel::Prose { stream_id, .. },
                    ContentBlockModel::Text { text, provider_metadata },
                ) => part.part_id == old.part_id && after == next && part.source
                    == PartSourceModel::Prose { text, replay: provider_metadata, stream_id },
                (
                    PartSourceModel::Reasoning { stream_id, .. },
                    ContentBlockModel::Reasoning { reasoning },
                ) => reasoning.display.len() > 0 ==> part.part_id == old.part_id && after == next
                    && part.source == PartSourceModel::Reasoning { reasoning, stream_id },
                (
                    PartSourceModel::ToolCall { index, id, name, .. },
                    ContentBlockModel::ToolCall { tool_call },
                ) => {
                    &&& part.part_id == old.part_id && after == next
                    &&& part.source is ToolCall
                    &&& part.source->ToolCall_index == index && part.source->ToolCall_id == id
                    &&& part.source->ToolCall_tool_call == Some(tool_call)
                    &&& part.source->ToolCall_name == if tool_call.name.len() > 0 {
                        tool_call.name
                    } else {
                        name
                    }
                },
                _ => part.part_id == PartId(next),
            }
        }),
{
}

/// A block of the final message goes on in the last part that was streamed at its index, where it
/// is the first block with that index; any other block starts a part of its own.
pub proof fn blocks_go_on_at_their_index(
    existing: Seq<PartModel>,
    blocks: Seq<IndexedContentBlockModel>,
    i: int,
    at: int,
)
    requires
        0 <= i < blocks.len(),
    ensures
        0 <= at < existing.len() && existing[at].content_index == blocks[i].content_index && (
        forall|k: int|
            at < k < existing.len() ==> (#[trigger] existing[k]).content_index
                != blocks[i].content_index) && (forall|k: int|
            0 <= k < i ==> (#[trigger] blocks[k]).content_index != blocks[i].content_index)
            ==> previous_part(existing, blocks, i) == Some(existing[at]),
        (forall|k: int|
            0 <= k < existing.len() ==> (#[trigger] existing[k]).content_index
                != blocks[i].content_index) ==> previous_part(existing, blocks, i) is None,
        0 <= at < i && blocks[at].content_index == blocks[i].content_index ==> previous_part(
            existing,
            blocks,
            i,
        ) is None,
{
    let index = blocks[i].content_index;
    if 0 <= at < existing.len() && existing[at].content_index == index && (forall|k: int|
        at < k < existing.len() ==> (#[trigger] existing[k]).content_index != index) {
        lemma_last_with_index(existing, index, existing.len() as int, at);
    }
    if forall|k: int| 0 <= k < existing.len() ==> (#[trigger] existing[k]).content_index != index {
        lemma_none_with_index(existing, index, existing.len() as int);
    }
}

proof fn lemma_last_with_index(parts: Seq<PartModel>, index: usize, end: int, at: int)
    requires
        0 <= at < end <= parts.len(),
        parts[at].content_index == index,
        forall|k: int| at < k < end ==> (#[trigger] parts[k]).content_index != index,
    ensures
        last_with_index(parts, index, end) == at,
    decreases end,
{
    if end - 1 > at {
        assert(parts[end - 1].content_index != index);
        lemma_last_with_index(parts, index, end - 1, at);
    }
}

proof fn lemma_none_with_index(parts: Seq<PartModel>, index: usize, end: int)
    requires
        0 <= end <= parts.len(),
        forall|k: int| 0 <= k < parts.len() ==> (#[trigger] parts[k]).content_index != index,
    ensures
        last_with_index(parts, index, end) < 0,
    decreases end,
{
    if end > 0 {
        assert(parts[end - 1].content_index != index);
        lemma_none_with_index(parts, index, end - 1);
    }
}

} // verus!
