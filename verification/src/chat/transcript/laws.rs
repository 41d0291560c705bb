//! What holds of a transcript whatever is streamed into it.

use vstd::prelude::*;

use crate::chat::transcript::model::{
    find_part, found_parts_are_asked_for, is_asked, message_of_turn, next_id, part_position,
    parts_of_blocks, replayable, turn_of_message, PartId, PartModel, PartQueryModel,
    PartSourceModel, TurnId, TurnModel,
};
use crate::chat::transcript::reconcile::{
    in_content_order, ordered, reconciled_parts, sorted_parts_are_ordered,
    sorting_keeps_the_parts, the_final_message_decides,
};
use crate::chat::transcript::transcript::{
    call_finished, delta_appended, event_applied, events_applied, fresh_source, history_turns,
    part_changed, part_inserted, replayable_messages, snapshot_updated, stream_finished,
    stream_query, turn_begun, turn_finished, with_delta, ConversationStreamEventModel, PartChange,
    StreamKind, TranscriptModel, TranscriptUpdateModel,
};
use crate::llm;
use crate::llm::error::GatewayErrorModel;
use crate::llm::event::IndexedMessageModel;
use crate::llm::model::{ContentBlockModel, MessageModel, ProviderMetadataModel};

verus! {

/// Whether updates carry the revisions that follow `revision`, one by one.
pub open spec fn numbered_from(updates: Seq<TranscriptUpdateModel>, revision: u64) -> bool {
    forall|i: int|
        0 <= i < updates.len() ==> (#[trigger] updates[i]).snapshot.revision == revision + i + 1
}

/// Every update of an event counts the revision up by one, and nothing else does: a view that has
/// seen a revision can tell which updates it has missed. (Revisions stop at their largest value.)
pub proof fn updates_are_numbered(transcript: TranscriptModel, event: ConversationStreamEventModel)
    requires
        transcript.revision + 2 <= u64::MAX,
    ensures
        ({
            let (next, updates) = event_applied(transcript, event);
            &&& updates.len() <= 2
            &&& next.revision == transcript.revision + updates.len()
            &&& numbered_from(updates, transcript.revision)
        }),
{
    reveal(part_inserted);
    reveal(delta_appended);
    reveal(stream_finished);
    reveal(snapshot_updated);
    reveal(call_finished);
}

/// A batch may be cut anywhere: applying its halves one after the other is applying it whole.
pub proof fn batches_can_be_cut(
    transcript: TranscriptModel,
    events: Seq<ConversationStreamEventModel>,
    start: int,
    cut: int,
)
    requires
        0 <= start <= cut <= events.len(),
    ensures
        ({
            let (middle, first) = events_applied(transcript, events.take(cut), start);
            let (last, second) = events_applied(middle, events, cut);
            events_applied(transcript, events, start) == (last, first + second)
        }),
    decreases cut - start,
{
    let head = events.take(cut);
    if start < cut {
        assert(head[start] == events[start]);
        let (next, updates) = event_applied(transcript, events[start]);
        batches_can_be_cut(next, events, start + 1, cut);
        let (middle, rest) = events_applied(next, head, start + 1);
        let (last, second) = events_applied(middle, events, cut);
        assert((updates + rest) + second =~= updates + (rest + second));
    } else {
        assert(Seq::<TranscriptUpdateModel>::empty() + events_applied(transcript, events, cut).1
            =~= events_applied(transcript, events, cut).1);
    }
}

/// Whether two lists of turns differ at most in the parts of the last turn.
pub open spec fn alike_but_last_parts(before: Seq<TurnModel>, after: Seq<TurnModel>) -> bool {
    &&& after.len() == before.len()
    &&& forall|i: int| 0 <= i < before.len() - 1 ==> #[trigger] after[i] == before[i]
    &&& before.len() > 0 ==> after.last() == (TurnModel {
        parts: after.last().parts,
        ..before.last()
    })
}

proof fn lemma_insert_is_local(
    transcript: TranscriptModel,
    query: PartQueryModel,
    content_index: usize,
    source: PartSourceModel,
)
    ensures
        alike_but_last_parts(
            transcript.turns,
            part_inserted(transcript, query, content_index, source).0.turns,
        ),
{
    reveal(part_inserted);
}

proof fn lemma_delta_is_local(
    transcript: TranscriptModel,
    kind: StreamKind,
    content_index: usize,
    id: Seq<char>,
    delta: Seq<char>,
)
    ensures
        alike_but_last_parts(
            transcript.turns,
            delta_appended(transcript, kind, content_index, id, delta).0.turns,
        ),
{
    reveal(delta_appended);
    lemma_insert_is_local(
        transcript,
        stream_query(kind, content_index, id),
        content_index,
        fresh_source(kind, id),
    );
}

/// An event changes nothing but the parts of the last turn.
pub proof fn earlier_turns_stay(transcript: TranscriptModel, event: ConversationStreamEventModel)
    ensures
        alike_but_last_parts(transcript.turns, event_applied(transcript, event).0.turns),
{
    match event {
        ConversationStreamEventModel::TextStarted { content_index, id } => {
            lemma_insert_is_local(
                transcript,
                PartQueryModel::Text(content_index, id),
                content_index,
                fresh_source(StreamKind::Prose, id),
            );
        },
        ConversationStreamEventModel::ReasoningStarted { content_index, id } => {
            lemma_insert_is_local(
                transcript,
                PartQueryModel::Reasoning(content_index, id),
                content_index,
                fresh_source(StreamKind::Reasoning, id),
            );
        },
        ConversationStreamEventModel::ToolCallStarted { content_index, index, id, name } => {
            lemma_insert_is_local(
                transcript,
                PartQueryModel::ToolCall(content_index),
                content_index,
                PartSourceModel::ToolCall { index, id, name, tool_call: None },
            );
        },
        ConversationStreamEventModel::TextDelta { content_index, id, delta } => {
            lemma_delta_is_local(transcript, StreamKind::Prose, content_index, id, delta);
        },
        ConversationStreamEventModel::ReasoningDelta { content_index, id, delta } => {
            lemma_delta_is_local(transcript, StreamKind::Reasoning, content_index, id, delta);
        },
        ConversationStreamEventModel::TextFinished { .. } => {
            reveal(stream_finished);
        },
        ConversationStreamEventModel::ReasoningFinished { .. } => {
            reveal(stream_finished);
        },
        ConversationStreamEventModel::ReasoningSnapshotUpdated { .. } => {
            reveal(snapshot_updated);
        },
        ConversationStreamEventModel::ToolCallFinished { .. } => {
            reveal(call_finished);
        },
    }
}

/// Once its stream has ended, a part takes no delta.
pub proof fn finished_parts_take_no_delta(
    transcript: TranscriptModel,
    kind: StreamKind,
    content_index: usize,
    id: Seq<char>,
    delta: Seq<char>,
)
    requires
        transcript.turns.len() > 0,
        ({
            let parts = transcript.turns.last().parts;
            let found = find_part(parts, stream_query(kind, content_index, id));
            found is Some && parts[found->0].finished
        }),
    ensures
        delta_appended(transcript, kind, content_index, id, delta) == (
            transcript,
            Seq::<TranscriptUpdateModel>::empty(),
        ),
{
    reveal(part_inserted);
    reveal(delta_appended);
}

proof fn lemma_position_stays(
    parts: Seq<PartModel>,
    query: PartQueryModel,
    at: int,
    part: PartModel,
    start: int,
)
    requires
        0 <= start <= at < parts.len(),
        at == part_position(parts, query, start),
        is_asked(part, query),
    ensures
        part_position(parts.update(at, part), query, start) == at,
    decreases at - start,
{
    if start < at {
        assert(parts.update(at, part)[start] == parts[start]);
        lemma_position_stays(parts, query, at, part, start + 1);
    }
}

/// A text that comes in two pieces is the text that comes in one.
pub proof fn deltas_add_up(
    transcript: TranscriptModel,
    kind: StreamKind,
    content_index: usize,
    id: Seq<char>,
    first: Seq<char>,
    second: Seq<char>,
)
    requires
        first.len() > 0,
    ensures
        delta_appended(
            delta_appended(transcript, kind, content_index, id, first).0,
            kind,
            content_index,
            id,
            second,
        ).0.turns == delta_appended(transcript, kind, content_index, id, first + second).0.turns,
{
    reveal(delta_appended);
    let query = stream_query(kind, content_index, id);
    let once = delta_appended(transcript, kind, content_index, id, first).0;
    let twice = delta_appended(once, kind, content_index, id, second).0;
    let whole = delta_appended(transcript, kind, content_index, id, first + second).0;
    if second.len() == 0 {
        assert(first + second =~= first);
    } else {
        let ready = part_inserted(
            transcript,
            query,
            content_index,
            fresh_source(kind, id),
        ).0;
        reveal(part_inserted);
        if ready.turns.len() > 0 {
            let parts = ready.turns.last().parts;
            match find_part(parts, query) {
                None => {
                    lemma_fresh_part_is_found(transcript, kind, content_index, id);
                },
                Some(at) => {
                    found_parts_are_asked_for(parts, query);
                    let part = parts[at];
                    if !part.finished {
                        let changed = PartModel {
                            source: with_delta(part.source, first),
                            ..part
                        };
                        assert(find_part(parts.update(at, changed), query) == Some(at)) by {
                            reveal(find_part);
                            lemma_position_stays(parts, query, at, changed, 0);
                        }
                        let both = with_delta(part.source, first + second);
                        assert(with_delta(changed.source, second) == both) by {
                            lemma_delta_twice(part.source, first, second);
                        }
                        assert(twice.turns =~= whole.turns) by {
                            assert(once.turns.last().parts =~= parts.update(at, changed));
                            assert(twice.turns.last().parts =~= whole.turns.last().parts);
                        }
                    }
                },
            }
        }
    }
}

proof fn lemma_delta_twice(
    source: PartSourceModel,
    first: Seq<char>,
    second: Seq<char>,
)
    ensures
        with_delta(with_delta(source, first), second) == with_delta(source, first + second),
{
    match source {
        PartSourceModel::Prose { text, .. } => {
            assert((text + first) + second =~= text + (first + second));
        },
        PartSourceModel::Reasoning { reasoning, .. } => {
            assert((reasoning.display + first) + second =~= reasoning.display + (first + second));
        },
        _ => {},
    }
}

/// A query finds something wherever a part is what it asks for.
proof fn lemma_present_is_found(parts: Seq<PartModel>, query: PartQueryModel, at: int, start: int)
    requires
        0 <= start <= at < parts.len(),
        is_asked(parts[at], query),
    ensures
        start <= part_position(parts, query, start) <= at,
    decreases at - start,
{
    if start < at && !is_asked(parts[start], query) {
        lemma_present_is_found(parts, query, at, start + 1);
    }
}

/// A stream that begins has its part.
proof fn lemma_fresh_part_is_found(
    transcript: TranscriptModel,
    kind: StreamKind,
    content_index: usize,
    id: Seq<char>,
)
    requires
        transcript.turns.len() > 0,
    ensures
        ({
            let query = stream_query(kind, content_index, id);
            let ready = part_inserted(
                transcript,
                query,
                content_index,
                fresh_source(kind, id),
            ).0;
            find_part(ready.turns.last().parts, query) is Some
        }),
{
    reveal(part_inserted);
    reveal(find_part);
    let query = stream_query(kind, content_index, id);
    let last = transcript.turns.last();
    if find_part(last.parts, query) is None {
        let part = PartModel {
            part_id: PartId(transcript.next_part_id),
            content_index,
            source: fresh_source(kind, id),
            finished: false,
        };
        let all = last.parts.push(part);
        let sorted = in_content_order(all);
        sorting_keeps_the_parts(all);
        assert(sorted.contains(part)) by {
            broadcast use vstd::seq_lib::group_to_multiset_ensures;

            assert(all[all.len() - 1] == part);
            assert(all.contains(part));
            assert(all.to_multiset().count(part) > 0);
            assert(sorted.to_multiset().count(part) > 0);
        }
        let at = choose|i: int| 0 <= i < sorted.len() && sorted[i] == part;
        lemma_present_is_found(sorted, query, at, 0);
    }
}

/// Whether the parts of every turn stand in the order of their content indices.
pub open spec fn all_ordered(turns: Seq<TurnModel>) -> bool {
    forall|i: int| 0 <= i < turns.len() ==> ordered((#[trigger] turns[i]).parts)
}

proof fn lemma_update_keeps_order(parts: Seq<PartModel>, at: int, part: PartModel)
    requires
        ordered(parts),
        0 <= at < parts.len(),
        part.content_index == parts[at].content_index,
    ensures
        ordered(parts.update(at, part)),
{
}

proof fn lemma_insert_keeps_order(
    transcript: TranscriptModel,
    query: PartQueryModel,
    content_index: usize,
    source: PartSourceModel,
)
    requires
        all_ordered(transcript.turns),
    ensures
        all_ordered(part_inserted(transcript, query, content_index, source).0.turns),
{
    reveal(part_inserted);
    if transcript.turns.len() > 0 {
        let part = PartModel {
            part_id: PartId(transcript.next_part_id),
            content_index,
            source,
            finished: false,
        };
        sorted_parts_are_ordered(transcript.turns.last().parts.push(part));
    }
}

proof fn lemma_change_keeps_order(
    transcript: TranscriptModel,
    at: int,
    part: PartModel,
    change: PartChange,
    delta: Seq<char>,
)
    requires
        all_ordered(transcript.turns),
        transcript.turns.len() > 0,
        0 <= at < transcript.turns.last().parts.len(),
        part.content_index == transcript.turns.last().parts[at].content_index,
    ensures
        all_ordered(part_changed(transcript, at, part, change, delta).0.turns),
{
    assert(ordered(transcript.turns[transcript.turns.len() - 1].parts));
    lemma_update_keeps_order(transcript.turns.last().parts, at, part);
}

/// Whatever is streamed in, the parts of every turn stand in the order of their content indices.
pub proof fn parts_stay_ordered(transcript: TranscriptModel, event: ConversationStreamEventModel)
    requires
        all_ordered(transcript.turns),
    ensures
        all_ordered(event_applied(transcript, event).0.turns),
{
    match event {
        ConversationStreamEventModel::TextStarted { content_index, id } => {
            lemma_insert_keeps_order(
                transcript,
                PartQueryModel::Text(content_index, id),
                content_index,
                fresh_source(StreamKind::Prose, id),
            );
        },
        ConversationStreamEventModel::ReasoningStarted { content_index, id } => {
            lemma_insert_keeps_order(
                transcript,
                PartQueryModel::Reasoning(content_index, id),
                content_index,
                fresh_source(StreamKind::Reasoning, id),
            );
        },
        ConversationStreamEventModel::ToolCallStarted { content_index, index, id, name } => {
            lemma_insert_keeps_order(
                transcript,
                PartQueryModel::ToolCall(content_index),
                content_index,
                PartSourceModel::ToolCall {
                    index,
                    id,
                    name,
                    tool_call: None,
                },
            );
        },
        ConversationStreamEventModel::TextDelta { content_index, id, delta } => {
            lemma_delta_keeps_order(transcript, StreamKind::Prose, content_index, id, delta);
        },
        ConversationStreamEventModel::ReasoningDelta { content_index, id, delta } => {
            lemma_delta_keeps_order(transcript, StreamKind::Reasoning, content_index, id, delta);
        },
        ConversationStreamEventModel::TextFinished { content_index, id, replay } => {
            lemma_finish_keeps_order(transcript, StreamKind::Prose, content_index, id, replay);
        },
        ConversationStreamEventModel::ReasoningFinished { content_index, id, replay } => {
            lemma_finish_keeps_order(transcript, StreamKind::Reasoning, content_index, id, replay);
        },
        ConversationStreamEventModel::ReasoningSnapshotUpdated { content_index, id, .. } => {
            reveal(snapshot_updated);
            if transcript.turns.len() > 0 {
                assert(ordered(transcript.turns[transcript.turns.len() - 1].parts));
                found_parts_are_asked_for(
                    transcript.turns.last().parts,
                    PartQueryModel::Reasoning(content_index, id),
                );
            }
        },
        ConversationStreamEventModel::ToolCallFinished { content_index, index, tool_call } => {
            reveal(call_finished);
            if transcript.turns.len() > 0 {
                let parts = transcript.turns.last().parts;
                assert(ordered(transcript.turns[transcript.turns.len() - 1].parts));
                found_parts_are_asked_for(parts, PartQueryModel::ToolCallIndex(content_index, index));
                sorted_parts_are_ordered(
                    parts.push(
                        PartModel {
                            part_id: PartId(
                                transcript.next_part_id,
                            ),
                            content_index,
                            source: PartSourceModel::ToolCall {
                                index,
                                id: tool_call.id,
                                name: tool_call.name,
                                tool_call: Some(tool_call),
                            },
                            finished: true,
                        },
                    ),
                );
            }
        },
    }
}

proof fn lemma_delta_keeps_order(
    transcript: TranscriptModel,
    kind: StreamKind,
    content_index: usize,
    id: Seq<char>,
    delta: Seq<char>,
)
    requires
        all_ordered(transcript.turns),
    ensures
        all_ordered(delta_appended(transcript, kind, content_index, id, delta).0.turns),
{
    reveal(delta_appended);
    let query = stream_query(kind, content_index, id);
    let source = fresh_source(kind, id);
    lemma_insert_keeps_order(transcript, query, content_index, source);
    let ready = part_inserted(transcript, query, content_index, source).0;
    if ready.turns.len() > 0 {
        let parts = ready.turns.last().parts;
        found_parts_are_asked_for(parts, query);
        match find_part(parts, query) {
            Some(at) => {
                let part = parts[at];
                lemma_change_keeps_order(
                    ready,
                    at,
                    PartModel { source: with_delta(part.source, delta), ..part },
                    PartChange::Append,
                    delta,
                );
            },
            None => {},
        }
    }
}

proof fn lemma_finish_keeps_order(
    transcript: TranscriptModel,
    kind: StreamKind,
    content_index: usize,
    id: Seq<char>,
    replay: Option<ProviderMetadataModel>,
)
    requires
        all_ordered(transcript.turns),
    ensures
        all_ordered(stream_finished(transcript, kind, content_index, id, replay).0.turns),
{
    reveal(stream_finished);
    if transcript.turns.len() > 0 {
        assert(ordered(transcript.turns[transcript.turns.len() - 1].parts));
        found_parts_are_asked_for(transcript.turns.last().parts, stream_query(kind, content_index, id));
    }
}

/// A final message whose blocks stand in order leaves the parts in order too.
pub proof fn finishing_keeps_the_order(
    transcript: TranscriptModel,
    message: Option<IndexedMessageModel>,
    error: Option<GatewayErrorModel>,
)
    requires
        all_ordered(transcript.turns),
        message is Some ==> forall|i: int, j: int|
            0 <= i < j < message->0.content.len() ==> message->0.content[i].content_index
                <= message->0.content[j].content_index,
    ensures
        all_ordered(turn_finished(transcript, message, error).0.turns),
{
    reveal(turn_finished);
    if transcript.turns.len() > 0 {
        let last = transcript.turns.last();
        let next = transcript.next_part_id;
        assert(ordered(transcript.turns[transcript.turns.len() - 1].parts));
        match message {
            Some(message) => {
                the_final_message_decides(last.parts, message.content, next);
                let parts = reconciled_parts(last.parts, message.content, 0, next).0;
                assert forall|i: int, j: int| 0 <= i < j < parts.len() implies parts[i].content_index
                    <= parts[j].content_index by {
                    assert(parts[i].content_index == message.content[i].content_index);
                    assert(parts[j].content_index == message.content[j].content_index);
                }
            },
            None => {},
        }
    }
}

proof fn lemma_blocks_in_order(blocks: Seq<ContentBlockModel>, start: int, next: u64)
    requires
        0 <= start <= blocks.len() <= usize::MAX,
    ensures
        ({
            let parts = parts_of_blocks(blocks, start, next).0;
            &&& ordered(parts)
            &&& forall|i: int|
                0 <= i < parts.len() ==> (#[trigger] parts[i]).content_index >= start
        }),
    decreases blocks.len() - start,
{
    if start < blocks.len() {
        lemma_blocks_in_order(blocks, start + 1, next_id(next));
    }
}

/// Sending a message leaves the parts in order.
pub proof fn sending_keeps_the_order(transcript: TranscriptModel, user: MessageModel)
    requires
        all_ordered(transcript.turns),
        user.content.len() <= usize::MAX,
    ensures
        all_ordered(turn_begun(transcript, user).0.turns),
{
    lemma_blocks_in_order(user.content, 0, transcript.next_part_id);
}

proof fn lemma_messages_append(turns: Seq<TurnModel>, turn: TurnModel, start: int)
    requires
        0 <= start <= turns.len(),
    ensures
        replayable_messages(turns.push(turn), start) == replayable_messages(turns, start) + (
        if replayable(message_of_turn(turn)) {
            seq![message_of_turn(turn)]
        } else {
            Seq::empty()
        }),
    decreases turns.len() - start,
{
    let longer = turns.push(turn);
    let added: Seq<MessageModel> = if replayable(message_of_turn(turn)) {
        seq![message_of_turn(turn)]
    } else {
        Seq::empty()
    };
    if start < turns.len() {
        assert(longer[start] == turns[start]);
        lemma_messages_append(turns, turn, start + 1);
        let rest = replayable_messages(turns, start + 1);
        let message = message_of_turn(turns[start]);
        assert((seq![message] + rest) + added =~= seq![message] + (rest + added));
    } else {
        assert(longer[start] == turn);
        assert(replayable_messages(longer, start + 1) =~= Seq::<MessageModel>::empty());
        assert(replayable_messages(longer, start) =~= added);
        assert(Seq::<MessageModel>::empty() + added =~= added);
    }
}

/// The answer that has not begun is no history: right after a message was sent, the history is
/// what there was to replay before, and that message.
pub proof fn the_running_answer_is_no_history(transcript: TranscriptModel, user: MessageModel)
    requires
        user.role == llm::model::Role::User,
    ensures
        ({
            let (next, _, _) = turn_begun(transcript, user);
            let sent = turn_of_message(
                user,
                TurnId(transcript.next_turn_id),
                transcript.next_part_id,
            ).0;
            replayable_messages(history_turns(next.turns), 0) == replayable_messages(
                transcript.turns,
                0,
            ).push(message_of_turn(sent))
        }),
{
    let sent = turn_of_message(user, TurnId(transcript.next_turn_id), transcript.next_part_id).0;
    let next = turn_begun(transcript, user).0;
    assert(history_turns(next.turns) =~= transcript.turns.push(sent));
    lemma_messages_append(transcript.turns, sent, 0);
    assert(replayable(message_of_turn(sent)));
    assert(replayable_messages(transcript.turns, 0) + seq![message_of_turn(sent)]
        =~= replayable_messages(transcript.turns, 0).push(message_of_turn(sent)));
}

} // verus!
