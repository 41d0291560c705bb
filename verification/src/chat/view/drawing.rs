//! What the rows of a transcript show, and how they are filled and emptied.

use vstd::prelude::*;

use crate::chat::transcript::model::{PartId, PartModel, Role, TurnId, TurnModel};
use crate::chat::transcript::streaming::turns_are_found_by_their_identifier;
use crate::chat::transcript::transcript::{PartChange, TranscriptEventModel, TranscriptSnapshot};
use crate::chat::view::list::{
    ascending, change_action, changes_from, diff_actions, index_of_row, remeasure_actions,
    row_position, runs, slots_for,
};
use crate::chat::view::rows::{
    content_of, latest_result, part_named, result_among, ProjectionDiff, Row, RowChangeKind,
    RowChangeModel, RowId, RowKind, RowSlot, ViewActionModel,
};
use crate::chat::view::window::{
    awaited_turn, eager_turns, emptied, event_followed, face_of, filled, filled_all, is_pending,
    notices, released, replayed_part, row_drawn, slots_kept, turn_of_streaming, wanted,
    wanted_fills, window_synced, RowFace, ViewState, Zones,
};

verus! {

/// Whether `at` is the first turn with an identifier.
pub open spec fn is_first_turn(turns: Seq<TurnModel>, at: int, id: TurnId) -> bool {
    &&& 0 <= at < turns.len()
    &&& turns[at].turn_id == id
    &&& forall|k: int| 0 <= k < at ==> (#[trigger] turns[k]).turn_id != id
}

/// Whether `at` is the first part with an identifier.
pub open spec fn is_first_part(parts: Seq<PartModel>, at: int, id: PartId) -> bool {
    &&& 0 <= at < parts.len()
    &&& parts[at].part_id == id
    &&& forall|k: int| 0 <= k < at ==> (#[trigger] parts[k]).part_id != id
}

/// A row shows the part that its identifier names, and the error of its turn.
pub proof fn rows_show_their_part(turns: Seq<TurnModel>, row_id: RowId, at: int, part: int)
    requires
        is_first_turn(turns, at, row_id.turn),
        is_first_part(turns[at].parts, part, row_id.part),
    ensures
        content_of(turns, row_id).part == Some(turns[at].parts[part]),
        content_of(turns, row_id).error == turns[at].error,
{
    turns_are_found_by_their_identifier(turns, row_id.turn, at);
    lemma_part_named(turns[at].parts, row_id.part, 0, part);
}

proof fn lemma_part_named(parts: Seq<PartModel>, id: PartId, start: int, at: int)
    requires
        0 <= start <= at,
        is_first_part(parts, at, id),
    ensures
        part_named(parts, id, start) == Some(parts[at]),
    decreases at - start,
{
    if start < at {
        assert(parts[start].part_id != id);
        lemma_part_named(parts, id, start + 1, at);
    }
}

/// A row whose turn is gone shows nothing.
pub proof fn rows_without_a_turn_are_empty(turns: Seq<TurnModel>, row_id: RowId)
    requires
        forall|k: int| 0 <= k < turns.len() ==> (#[trigger] turns[k]).turn_id != row_id.turn,
    ensures
        content_of(turns, row_id).part is None,
        content_of(turns, row_id).paired_result is None,
        content_of(turns, row_id).error is None,
{
    turns_are_found_by_their_identifier(turns, row_id.turn, turns.len() as int);
}

/// Whether a part is the result of a tool call.
pub open spec fn answers(part: PartModel, call_id: Seq<char>) -> bool {
    part.source is ToolResult && part.source->ToolResult_0.call_id == call_id
}

/// Whether a turn holds a result of a tool call.
pub open spec fn holds_answer(turn: TurnModel, call_id: Seq<char>) -> bool {
    exists|k: int| 0 <= k < turn.parts.len() && answers(#[trigger] turn.parts[k], call_id)
}

/// A tool call is shown with its result: the first in the latest turn that holds one.
pub proof fn calls_are_shown_with_their_result(
    turns: Seq<TurnModel>,
    row_id: RowId,
    at: int,
    part: int,
    later: int,
    found: int,
)
    requires
        row_id.kind == RowKind::ToolActivity,
        is_first_turn(turns, at, row_id.turn),
        is_first_part(turns[at].parts, part, row_id.part),
        turns[at].parts[part].source is ToolCall,
        0 <= later < turns.len(),
        0 <= found < turns[later].parts.len(),
        answers(turns[later].parts[found], turns[at].parts[part].source->ToolCall_id),
        forall|k: int|
            0 <= k < found ==> !answers(
                #[trigger] turns[later].parts[k],
                turns[at].parts[part].source->ToolCall_id,
            ),
        forall|k: int|
            later < k < turns.len() ==> !holds_answer(
                #[trigger] turns[k],
                turns[at].parts[part].source->ToolCall_id,
            ),
    ensures
        content_of(turns, row_id).paired_result == Some(
            turns[later].parts[found].source->ToolResult_0,
        ),
{
    let call_id = turns[at].parts[part].source->ToolCall_id;
    rows_show_their_part(turns, row_id, at, part);
    lemma_latest(turns, call_id, turns.len() as int, later, found);
}

proof fn lemma_result_among(parts: Seq<PartModel>, call_id: Seq<char>, start: int, at: int)
    requires
        0 <= start <= at <= parts.len(),
        forall|k: int| start <= k < at ==> !answers(#[trigger] parts[k], call_id),
        at < parts.len() ==> answers(parts[at], call_id),
    ensures
        result_among(parts, call_id, start) == if at < parts.len() {
            Some(parts[at].source->ToolResult_0)
        } else {
            None
        },
    decreases at - start,
{
    if start < at {
        assert(!answers(parts[start], call_id));
        lemma_result_among(parts, call_id, start + 1, at);
    }
}

proof fn lemma_latest(
    turns: Seq<TurnModel>,
    call_id: Seq<char>,
    end: int,
    later: int,
    found: int,
)
    requires
        0 <= later < end <= turns.len(),
        0 <= found < turns[later].parts.len(),
        answers(turns[later].parts[found], call_id),
        forall|k: int| 0 <= k < found ==> !answers(#[trigger] turns[later].parts[k], call_id),
        forall|k: int| later < k < end ==> !holds_answer(#[trigger] turns[k], call_id),
    ensures
        latest_result(turns, call_id, end) == Some(
            turns[later].parts[found].source->ToolResult_0,
        ),
    decreases end - later,
{
    let last = turns[end - 1];
    if end - 1 == later {
        lemma_result_among(last.parts, call_id, 0, found);
    } else {
        assert(!holds_answer(last, call_id));
        lemma_result_among(last.parts, call_id, 0, last.parts.len() as int);
        lemma_latest(turns, call_id, end - 1, later, found);
    }
}

/// A tool call without a result is shown without one, and a row of another kind is never paired.
pub proof fn open_calls_are_shown_alone(turns: Seq<TurnModel>, row_id: RowId, at: int, part: int)
    requires
        is_first_turn(turns, at, row_id.turn),
        is_first_part(turns[at].parts, part, row_id.part),
    ensures
        row_id.kind != RowKind::ToolActivity ==> content_of(turns, row_id).paired_result is None,
        turns[at].parts[part].source is ToolCall && (forall|k: int|
            0 <= k < turns.len() ==> !holds_answer(
                #[trigger] turns[k],
                turns[at].parts[part].source->ToolCall_id,
            )) ==> content_of(turns, row_id).paired_result is None,
        row_id.kind == RowKind::ToolActivity && turns[at].parts[part].source is ToolResult
            ==> content_of(turns, row_id).paired_result == Some(
            turns[at].parts[part].source->ToolResult_0,
        ),
{
    rows_show_their_part(turns, row_id, at, part);
    if turns[at].parts[part].source is ToolCall && (forall|k: int|
        0 <= k < turns.len() ==> !holds_answer(
            #[trigger] turns[k],
            turns[at].parts[part].source->ToolCall_id,
        )) {
        lemma_none(turns, turns[at].parts[part].source->ToolCall_id, turns.len() as int);
    }
}

proof fn lemma_none(turns: Seq<TurnModel>, call_id: Seq<char>, end: int)
    requires
        0 <= end <= turns.len(),
        forall|k: int| 0 <= k < turns.len() ==> !holds_answer(#[trigger] turns[k], call_id),
    ensures
        latest_result(turns, call_id, end) is None,
    decreases end,
{
    if end > 0 {
        assert(!holds_answer(turns[end - 1], call_id));
        lemma_result_among(turns[end - 1].parts, call_id, 0, turns[end - 1].parts.len() as int);
        lemma_none(turns, call_id, end - 1);
    }
}

/// An answer is awaited exactly while one is generated and the last row is one of the last turn,
/// of the assistant, which has neither ended the wait nor failed.
pub proof fn answers_are_awaited(view: ViewState, turn: TurnId)
    ensures
        awaited_turn(view) == Some(turn) <==> {
            &&& view.is_generating
            &&& view.rows.len() > 0
            &&& view.rows.last().id.turn == turn
            &&& view.rows.last().role == Role::Assistant
            &&& view.rows.last().turn_index + 1 == view.turn_count
            &&& !view.wait_ended
            &&& forall|i: int|
                0 <= i < view.rows.len() && (#[trigger] view.rows[i]).id.kind == RowKind::TurnError
                    ==> view.rows[i].turn_index != view.rows.last().turn_index
        },
{
}

/// A row shows its content where it is filled, a placeholder where it is not, and the sign of the
/// wait, once, where the answer is awaited.
pub proof fn rows_have_a_face(view: ViewState, index: int)
    requires
        view.wf(),
    ensures
        ({
            let there = 0 <= index < view.rows.len();
            let full = there && view.slots[index].materialized;
            let waits = full && view.waiting_turn == Some(view.rows[index].id.turn);
            let face = face_of(view, index);
            &&& face == RowFace::Missing <==> !there
            &&& face == RowFace::Placeholder <==> there && !full
            &&& face == RowFace::Content <==> full && !waits
            &&& face == RowFace::Shimmer <==> waits && view.rows[index].first_in_turn
            &&& face == RowFace::Hidden <==> waits && !view.rows[index].first_in_turn
        }),
{
}

/// Whether the rows of a view have identifiers of their own.
pub open spec fn told_apart(rows: Seq<Row>) -> bool {
    forall|i: int, j: int| 0 <= i < j < rows.len() ==> rows[i].id != rows[j].id
}

proof fn lemma_row_found(rows: Seq<Row>, start: int, at: int)
    requires
        told_apart(rows),
        0 <= start <= at < rows.len(),
    ensures
        row_position(rows, rows[at].id, start) == at,
    decreases at - start,
{
    if start < at {
        assert(rows[start].id != rows[at].id);
        lemma_row_found(rows, start + 1, at);
    }
}

/// A row that is drawn empty is filled by the next sync, wherever the viewport is then.
pub proof fn drawn_rows_are_filled(
    view: ViewState,
    index: int,
    zones: Option<Zones>,
    retyped: Option<Seq<usize>>,
    jump_visible: bool,
)
    requires
        view.wf(),
        told_apart(view.rows),
        view.rows.len() <= usize::MAX,
        0 <= index < view.rows.len(),
        !view.slots[index].materialized,
    ensures
        ({
            let (drawn, asked) = row_drawn(view, index);
            let (synced, actions) = window_synced(drawn, zones, retyped, jump_visible);
            &&& drawn.sync_scheduled
            &&& asked.len() > 0 <==> !view.sync_scheduled
            &&& synced.slots[index].materialized
            &&& synced.pending.len() == 0 && !synced.sync_scheduled
        }),
{
    let drawn = row_drawn(view, index).0;
    lemma_row_found(view.rows, 0, index);
    let k = view.pending.len() as int;
    assert(drawn.pending[k] == view.rows[index].id);
    assert(index_of_row(drawn.rows, drawn.pending[k]) == Some(index as usize));
    assert(is_pending(drawn.rows, drawn.pending, index));
    assert(wanted(drawn, zones, index));
}

/// Whether actions release, or fill, the row at an index.
pub open spec fn releases_row(actions: Seq<ViewActionModel>, row_id: RowId, index: usize) -> bool {
    actions.contains(ViewActionModel::Release { index, row_id })
}

/// Whether actions fill the row at an index.
pub open spec fn fills_row(
    actions: Seq<ViewActionModel>,
    row_id: RowId,
    index: usize,
    replay: bool,
) -> bool {
    actions.contains(ViewActionModel::Materialize { index, row_id, replay })
}

proof fn lemma_emptied(view: ViewState, zones: Zones, start: int, index: usize)
    requires
        view.wf(),
        view.slots.len() <= usize::MAX,
        0 <= start <= index < view.slots.len(),
    ensures
        releases_row(emptied(view, zones, start), view.rows[index as int].id, index) <==> (
        view.slots[index as int].materialized && !(zones.retain_start <= index
            < zones.retain_end) && view.streaming_turn != Some(view.rows[index as int].id.turn)),
    decreases view.slots.len() - start,
{
    lemma_emptied_above(view, zones, start + 1);
    let rest = emptied(view, zones, start + 1);
    let all = emptied(view, zones, start);
    let here = ViewActionModel::Release { index: start as usize, row_id: view.rows[start].id };
    let wanted = ViewActionModel::Release { index, row_id: view.rows[index as int].id };
    if start < index {
        lemma_emptied(view, zones, start + 1, index);
        if all != rest {
            lemma_contains_first(here, rest, wanted);
        }
    } else if all != rest {
        lemma_contains_first(here, rest, wanted);
    }
}

proof fn lemma_contains_first(
    first: ViewActionModel,
    rest: Seq<ViewActionModel>,
    wanted: ViewActionModel,
)
    ensures
        (seq![first] + rest).contains(wanted) <==> first == wanted || rest.contains(wanted),
{
    let all = seq![first] + rest;
    if rest.contains(wanted) {
        let k = choose|k: int| 0 <= k < rest.len() && rest[k] == wanted;
        assert(all[k + 1] == wanted);
    }
    if first == wanted {
        assert(all[0] == wanted);
    }
    if all.contains(wanted) && first != wanted {
        let k = choose|k: int| 0 <= k < all.len() && all[k] == wanted;
        assert(rest[k - 1] == wanted);
    }
}

spec fn index_in(action: ViewActionModel) -> int {
    match action {
        ViewActionModel::Release { index, .. } => index as int,
        ViewActionModel::Materialize { index, .. } => index as int,
        _ => -1,
    }
}

proof fn lemma_emptied_above(view: ViewState, zones: Zones, start: int)
    requires
        0 <= start,
        view.slots.len() <= usize::MAX,
    ensures
        forall|k: int|
            0 <= k < emptied(view, zones, start).len() ==> (#[trigger] emptied(
                view,
                zones,
                start,
            )[k]) is Release && index_in(emptied(view, zones, start)[k]) >= start,
    decreases view.slots.len() - start,
{
    if start < view.slots.len() {
        lemma_emptied_above(view, zones, start + 1);
        let rest = emptied(view, zones, start + 1);
        let all = emptied(view, zones, start);
        assert forall|k: int| 0 <= k < all.len() implies (#[trigger] all[k]) is Release && index_in(
            all[k],
        ) >= start by {
            if all != rest && k > 0 {
                assert(all[k] == rest[k - 1]);
            }
        }
    }
}

proof fn lemma_fills(
    view: ViewState,
    slots: Seq<RowSlot>,
    zones: Option<Zones>,
    start: int,
    index: usize,
)
    requires
        slots.len() <= usize::MAX,
        0 <= start <= index < slots.len(),
    ensures
        fills_row(wanted_fills(view, slots, zones, start), view.rows[index as int].id, index, false)
            <==> wanted(view, zones, index as int) && !slots[index as int].materialized,
    decreases slots.len() - start,
{
    lemma_fills_above(view, slots, zones, start + 1);
    let rest = wanted_fills(view, slots, zones, start + 1);
    let all = wanted_fills(view, slots, zones, start);
    let here = ViewActionModel::Materialize {
        index: start as usize,
        row_id: view.rows[start].id,
        replay: false,
    };
    let asked = ViewActionModel::Materialize {
        index,
        row_id: view.rows[index as int].id,
        replay: false,
    };
    if start < index {
        lemma_fills(view, slots, zones, start + 1, index);
    }
    if all != rest {
        lemma_contains_first(here, rest, asked);
    }
}

proof fn lemma_fills_above(view: ViewState, slots: Seq<RowSlot>, zones: Option<Zones>, start: int)
    requires
        0 <= start,
        slots.len() <= usize::MAX,
    ensures
        forall|k: int|
            0 <= k < wanted_fills(view, slots, zones, start).len() ==> (#[trigger] wanted_fills(
                view,
                slots,
                zones,
                start,
            )[k]) is Materialize && index_in(wanted_fills(view, slots, zones, start)[k]) >= start,
    decreases slots.len() - start,
{
    if start < slots.len() {
        lemma_fills_above(view, slots, zones, start + 1);
        let rest = wanted_fills(view, slots, zones, start + 1);
        let all = wanted_fills(view, slots, zones, start);
        assert forall|k: int| 0 <= k < all.len() implies (#[trigger] all[k]) is Materialize
            && index_in(all[k]) >= start by {
            if all != rest && k > 0 {
                assert(all[k] == rest[k - 1]);
            }
        }
    }
}

/// A sync releases the rows that are full, outside the zone that is kept and not of the streaming
/// turn. It fills the rows near the viewport, those that were asked for and those of the streaming
/// turn, where they are empty then.
pub proof fn syncs_fill_and_release(
    view: ViewState,
    zones: Zones,
    jump_visible: bool,
    index: usize,
)
    requires
        view.wf(),
        view.rows.len() <= usize::MAX,
        index < view.rows.len(),
    ensures
        ({
            let actions = window_synced(view, Some(zones), None, jump_visible).1;
            let after = window_synced(view, Some(zones), None, jump_visible).0;
            let id = view.rows[index as int].id;
            let streams = view.streaming_turn == Some(id.turn);
            let full = view.slots[index as int].materialized;
            let leaves = full && !streams && !(zones.retain_start <= index < zones.retain_end);
            let near = zones.materialize_start <= index < zones.materialize_end;
            &&& releases_row(actions, id, index) <==> leaves
            &&& fills_row(actions, id, index, false) <==> (!full || leaves) && (near || streams
                || is_pending(view.rows, view.pending, index as int))
            &&& after.slots[index as int].materialized <==> (full && !leaves) || fills_row(
                actions,
                id,
                index,
                false,
            )
            &&& after.rows == view.rows
        }),
{
    let kept = slots_kept(view, Some(zones));
    let gone = emptied(view, zones, 0);
    let fills = wanted_fills(view, kept, Some(zones), 0);
    let id = view.rows[index as int].id;
    let (after, actions) = window_synced(view, Some(zones), None, jump_visible);
    let dirty = view.window_dirty || fills.len() > 0;
    let told = notices(jump_visible != view.jump_visible, dirty);
    lemma_emptied(view, zones, 0, index);
    lemma_emptied_above(view, zones, 0);
    lemma_fills(view, kept, Some(zones), 0, index);
    lemma_fills_above(view, kept, Some(zones), 0);
    assert(actions =~= gone + fills + told);
    let release = ViewActionModel::Release { index, row_id: id };
    let fill = ViewActionModel::Materialize { index, row_id: id, replay: false };
    lemma_contains_parts(gone, fills, told, release);
    lemma_contains_parts(gone, fills, told, fill);
    assert(!fills.contains(release));
    assert(!gone.contains(fill));
    assert(!told.contains(release) && !told.contains(fill));
}

proof fn lemma_contains_parts(
    first: Seq<ViewActionModel>,
    second: Seq<ViewActionModel>,
    third: Seq<ViewActionModel>,
    wanted: ViewActionModel,
)
    ensures
        (first + second + third).contains(wanted) <==> first.contains(wanted) || second.contains(
            wanted,
        ) || third.contains(wanted),
{
    let all = first + second + third;
    if first.contains(wanted) {
        let k = choose|k: int| 0 <= k < first.len() && first[k] == wanted;
        assert(all[k] == wanted);
    }
    if second.contains(wanted) {
        let k = choose|k: int| 0 <= k < second.len() && second[k] == wanted;
        assert(all[first.len() + k] == wanted);
    }
    if third.contains(wanted) {
        let k = choose|k: int| 0 <= k < third.len() && third[k] == wanted;
        assert(all[first.len() + second.len() + k] == wanted);
    }
    if all.contains(wanted) {
        let k = choose|k: int| 0 <= k < all.len() && all[k] == wanted;
        if k < first.len() {
            assert(first[k] == wanted);
        } else if k < first.len() + second.len() {
            assert(second[k - first.len()] == wanted);
        } else {
            assert(third[k - first.len() - second.len()] == wanted);
        }
    }
}

/// Filling a turn fills each of its rows and leaves the others as they are.
proof fn lemma_filled(
    rows: Seq<Row>,
    slots: Seq<RowSlot>,
    turn: TurnId,
    replay_part: Option<PartId>,
    start: int,
    i: int,
)
    requires
        slots.len() == rows.len(),
        0 <= start <= rows.len(),
        0 <= i < rows.len(),
    ensures
        ({
            let after = filled(rows, slots, turn, replay_part, start).0;
            &&& after.len() == slots.len()
            &&& after[i].id == slots[i].id
            &&& after[i].materialized <==> slots[i].materialized || (i >= start
                && rows[i].id.turn == turn)
        }),
    decreases rows.len() - start,
{
    if start < rows.len() {
        if rows[start].id.turn == turn && !slots[start].materialized {
            let next = slots.update(
                start,
                RowSlot { id: slots[start].id, materialized: true },
            );
            lemma_filled(rows, next, turn, replay_part, start + 1, i);
        } else {
            lemma_filled(rows, slots, turn, replay_part, start + 1, i);
        }
    }
}

proof fn lemma_filled_all(
    rows: Seq<Row>,
    slots: Seq<RowSlot>,
    turns: Seq<TurnId>,
    replay_part: Option<PartId>,
    start: int,
    i: int,
)
    requires
        slots.len() == rows.len(),
        0 <= start <= turns.len(),
        0 <= i < rows.len(),
    ensures
        ({
            let after = filled_all(rows, slots, turns, replay_part, start).0;
            &&& after.len() == slots.len()
            &&& after[i].id == slots[i].id
            &&& after[i].materialized <==> slots[i].materialized || exists|k: int|
                start <= k < turns.len() && #[trigger] turns[k] == rows[i].id.turn
        }),
    decreases turns.len() - start,
{
    if start < turns.len() {
        let next = filled(rows, slots, turns[start], replay_part, 0).0;
        lemma_filled(rows, slots, turns[start], replay_part, 0, i);
        lemma_filled_all(rows, next, turns, replay_part, start + 1, i);
        let after = filled_all(rows, slots, turns, replay_part, start).0;
        if turns[start] == rows[i].id.turn {
            assert(after[i].materialized);
        }
    }
}

/// A change of the transcript fills the rows of the turn that streams, of the turns that were
/// added and of the turn that was replaced. Every other row is full where it was full before.
pub proof fn changed_turns_are_filled(
    view: ViewState,
    event: TranscriptEventModel,
    snapshot: TranscriptSnapshot,
    rows: Seq<Row>,
    row_changes: Seq<(RowId, RowChangeKind)>,
    diff: ProjectionDiff,
    remeasure: Seq<usize>,
    wait_ended: bool,
    i: int,
)
    requires
        0 <= i < rows.len(),
    ensures
        ({
            let after = event_followed(
                view,
                event,
                snapshot,
                rows,
                row_changes,
                diff,
                remeasure,
                wait_ended,
            ).0;
            let turn = rows[i].id.turn;
            let streams = match snapshot.streaming {
                Some((streaming, _)) => streaming == turn,
                None => false,
            };
            let added = match event {
                TranscriptEventModel::TailAppended { turn_ids } => turn_ids.contains(turn),
                TranscriptEventModel::TurnReplaced { turn_id } => turn_id == turn,
                _ => false,
            };
            &&& after.rows == rows
            &&& after.slots.len() == rows.len()
            &&& after.slots[i].id == rows[i].id
            &&& after.slots[i].materialized <==> streams || added || slots_for(
                view.slots,
                rows,
            )[i].materialized
            &&& after.turn_count == snapshot.turn_count
            &&& after.window_dirty && after.sync_scheduled
            &&& after.wait_ended == wait_ended
            &&& after.pending == view.pending && after.is_generating == view.is_generating
        }),
{
    let turns = eager_turns(
        event,
        turn_of_streaming(snapshot.streaming),
    );
    let replay = replayed_part(event);
    let slots = slots_for(view.slots, rows);
    lemma_filled_all(rows, slots, turns, replay, 0, i);
    let turn = rows[i].id.turn;
    let first: Seq<TurnId> = match snapshot.streaming {
        Some((streaming, _)) => seq![streaming],
        None => Seq::empty(),
    };
    let more: Seq<TurnId> = match event {
        TranscriptEventModel::TailAppended { turn_ids } => turn_ids,
        TranscriptEventModel::TurnReplaced { turn_id } => seq![turn_id],
        _ => Seq::empty(),
    };
    assert(turns =~= first + more);
    if exists|k: int| 0 <= k < turns.len() && #[trigger] turns[k] == turn {
        let k = choose|k: int| 0 <= k < turns.len() && #[trigger] turns[k] == turn;
        if k >= first.len() {
            assert(more[k - first.len()] == turn);
        }
    }
    if first.len() > 0 && first[0] == turn {
        assert(turns[0] == turn);
    }
    if more.len() > 0 && more[0] == turn {
        assert(more.contains(turn));
    }
    if more.contains(turn) {
        let k = choose|k: int| 0 <= k < more.len() && more[k] == turn;
        assert(turns[first.len() + k] == turn);
    }
}

/// A change of a row is handed to the row where it is full; what was added to a part is handed on
/// as it is.
pub proof fn changes_reach_full_rows(
    row_id: RowId,
    rows: Seq<Row>,
    slots: Seq<RowSlot>,
    at: int,
    turn_id: TurnId,
    part_id: PartId,
    delta: Seq<char>,
    kind: RowChangeKind,
)
    requires
        told_apart(rows),
        slots.len() == rows.len() <= usize::MAX,
        0 <= at < rows.len(),
        rows[at].id == row_id,
    ensures
        ({
            let event = TranscriptEventModel::PartChanged {
                turn_id,
                part_id,
                change: PartChange::Append,
                delta,
            };
            let index = at as usize;
            &&& !slots[at].materialized ==> change_action((row_id, kind), rows, slots, event) is None
            &&& slots[at].materialized ==> change_action((row_id, kind), rows, slots, event) == Some(
                ViewActionModel::Change {
                    index,
                    row_id,
                    change: match kind {
                        RowChangeKind::Append => RowChangeModel::Append { delta },
                        RowChangeKind::Finished => RowChangeModel::Finished,
                        RowChangeKind::Replace => RowChangeModel::Replace,
                    },
                },
            )
        }),
{
    lemma_row_found(rows, 0, at);
}

/// A difference between two lists of rows is handed to the list as it is: nothing where they are
/// the same, a splice for a splice, and the number of rows where the list is rebuilt.
pub proof fn differences_reach_the_list(start: usize, end: usize, inserted: usize, count: usize)
    ensures
        diff_actions(ProjectionDiff::Unchanged, count as nat).len() == 0,
        diff_actions(ProjectionDiff::Splice { start, end, inserted }, count as nat) == seq![
            ViewActionModel::Splice { start, end, inserted },
        ],
        diff_actions(ProjectionDiff::Rebuild, count as nat) == seq![
            ViewActionModel::Reset { count },
        ],
{
}

/// Rows are released exactly where they are full and of the kind that is asked for.
pub proof fn full_rows_are_released(
    slots: Seq<RowSlot>,
    kind: Option<RowKind>,
    start: int,
    index: usize,
)
    requires
        slots.len() <= usize::MAX,
        0 <= start <= index < slots.len(),
    ensures
        releases_row(released(slots, kind, start), slots[index as int].id, index) <==> (
        slots[index as int].materialized && (kind is None || slots[index as int].id.kind
            == kind->0)),
    decreases slots.len() - start,
{
    lemma_released_above(slots, kind, start + 1);
    let rest = released(slots, kind, start + 1);
    let all = released(slots, kind, start);
    let here = ViewActionModel::Release { index: start as usize, row_id: slots[start].id };
    let asked = ViewActionModel::Release { index, row_id: slots[index as int].id };
    if start < index {
        full_rows_are_released(slots, kind, start + 1, index);
    }
    if all != rest {
        lemma_contains_first(here, rest, asked);
    }
}

proof fn lemma_released_above(slots: Seq<RowSlot>, kind: Option<RowKind>, start: int)
    requires
        0 <= start,
        slots.len() <= usize::MAX,
    ensures
        forall|k: int|
            0 <= k < released(slots, kind, start).len() ==> index_in(
                #[trigger] released(slots, kind, start)[k],
            ) >= start,
    decreases slots.len() - start,
{
    if start < slots.len() {
        lemma_released_above(slots, kind, start + 1);
        let rest = released(slots, kind, start + 1);
        let all = released(slots, kind, start);
        assert forall|k: int| 0 <= k < all.len() implies index_in(#[trigger] all[k]) >= start by {
            if all != rest && k > 0 {
                assert(all[k] == rest[k - 1]);
            }
        }
    }
}

/// Whether an action fills a row of a turn that was empty, and says whether its content is
/// replayed.
spec fn is_fill(
    action: ViewActionModel,
    rows: Seq<Row>,
    replay_part: Option<PartId>,
) -> bool {
    match action {
        ViewActionModel::Materialize { index, row_id, replay } => {
            &&& index < rows.len()
            &&& row_id == rows[index as int].id
            &&& replay <==> replay_part == Some(row_id.part)
        },
        _ => false,
    }
}

proof fn lemma_fills_are_named(
    rows: Seq<Row>,
    slots: Seq<RowSlot>,
    turn: TurnId,
    replay_part: Option<PartId>,
    start: int,
)
    requires
        rows.len() <= usize::MAX,
        0 <= start,
    ensures
        forall|k: int|
            0 <= k < filled(rows, slots, turn, replay_part, start).1.len() ==> is_fill(
                #[trigger] filled(rows, slots, turn, replay_part, start).1[k],
                rows,
                replay_part,
            ),
    decreases rows.len() - start,
{
    if start < rows.len() && start < slots.len() {
        if rows[start].id.turn == turn && !slots[start].materialized {
            let next = slots.update(start, RowSlot { id: slots[start].id, materialized: true });
            lemma_fills_are_named(rows, next, turn, replay_part, start + 1);
            let rest = filled(rows, next, turn, replay_part, start + 1).1;
            let all = filled(rows, slots, turn, replay_part, start).1;
            let first = ViewActionModel::Materialize {
                index: start as usize,
                row_id: rows[start].id,
                replay: replay_part == Some(rows[start].id.part),
            };
            assert(all == seq![first] + rest);
            assert(is_fill(first, rows, replay_part));
            assert forall|k: int| 0 <= k < all.len() implies is_fill(
                #[trigger] all[k],
                rows,
                replay_part,
            ) by {
                if k > 0 {
                    assert(all[k] == rest[k - 1]);
                } else {
                    assert(all[k] == first);
                }
            }
        } else {
            lemma_fills_are_named(rows, slots, turn, replay_part, start + 1);
            let all = filled(rows, slots, turn, replay_part, start).1;
            let rest = filled(rows, slots, turn, replay_part, start + 1).1;
            assert(all == rest);
            assert forall|k: int| 0 <= k < all.len() implies is_fill(
                #[trigger] all[k],
                rows,
                replay_part,
            ) by {
                assert(is_fill(rest[k], rows, replay_part));
            }
        }
    } else {
        assert(filled(rows, slots, turn, replay_part, start).1.len() == 0);
    }
}

proof fn lemma_all_fills_are_named(
    rows: Seq<Row>,
    slots: Seq<RowSlot>,
    turns: Seq<TurnId>,
    replay_part: Option<PartId>,
    start: int,
)
    requires
        rows.len() <= usize::MAX,
        0 <= start,
    ensures
        forall|k: int|
            0 <= k < filled_all(rows, slots, turns, replay_part, start).1.len() ==> is_fill(
                #[trigger] filled_all(rows, slots, turns, replay_part, start).1[k],
                rows,
                replay_part,
            ),
    decreases turns.len() - start,
{
    if start < turns.len() {
        let (next, first) = filled(rows, slots, turns[start], replay_part, 0);
        lemma_fills_are_named(rows, slots, turns[start], replay_part, 0);
        lemma_all_fills_are_named(rows, next, turns, replay_part, start + 1);
        let rest = filled_all(rows, next, turns, replay_part, start + 1).1;
        let all = filled_all(rows, slots, turns, replay_part, start).1;
        assert forall|k: int| 0 <= k < all.len() implies is_fill(
            #[trigger] all[k],
            rows,
            replay_part,
        ) by {
            if k < first.len() {
                assert(all[k] == first[k]);
            } else {
                assert(all[k] == rest[k - first.len()]);
            }
        }
    }
}

proof fn lemma_changes_fill_nothing(
    changes: Seq<(RowId, RowChangeKind)>,
    start: int,
    rows: Seq<Row>,
    slots: Seq<RowSlot>,
    event: TranscriptEventModel,
)
    requires
        0 <= start,
    ensures
        forall|k: int|
            0 <= k < changes_from(changes, start, rows, slots, event).len() ==> (
            #[trigger] changes_from(changes, start, rows, slots, event)[k]) is Change,
    decreases changes.len() - start,
{
    if start < changes.len() {
        lemma_changes_fill_nothing(changes, start + 1, rows, slots, event);
        let rest = changes_from(changes, start + 1, rows, slots, event);
        let all = changes_from(changes, start, rows, slots, event);
        assert forall|k: int| 0 <= k < all.len() implies (#[trigger] all[k]) is Change by {
            if change_action(changes[start], rows, slots, event) is Some && k > 0 {
                assert(all[k] == rest[k - 1]);
            }
        }
    }
}

/// When rows follow a change of the transcript, the rows that are filled are told by their place
/// and their identifier, and their content is replayed exactly where it is that of a part that was
/// just inserted.
pub proof fn inserted_parts_are_replayed(
    view: ViewState,
    event: TranscriptEventModel,
    snapshot: TranscriptSnapshot,
    rows: Seq<Row>,
    row_changes: Seq<(RowId, RowChangeKind)>,
    diff: ProjectionDiff,
    remeasure: Seq<usize>,
    wait_ended: bool,
    k: int,
)
    requires
        rows.len() <= usize::MAX,
    ensures
        ({
            let actions = event_followed(
                view,
                event,
                snapshot,
                rows,
                row_changes,
                diff,
                remeasure,
                wait_ended,
            ).1;
            0 <= k < actions.len() ==> match actions[k] {
                ViewActionModel::Materialize { index, row_id, replay } => {
                    &&& index < rows.len()
                    &&& row_id == rows[index as int].id
                    &&& replay <==> match event {
                        TranscriptEventModel::PartInserted { part_id, .. } => part_id
                            == row_id.part,
                        _ => false,
                    }
                },
                _ => true,
            }
        }),
{
    let slots = slots_for(view.slots, rows);
    let turns = eager_turns(event, turn_of_streaming(snapshot.streaming));
    let replay = replayed_part(event);
    lemma_all_fills_are_named(rows, slots, turns, replay, 0);
    lemma_changes_fill_nothing(row_changes, 0, rows, slots, event);
    let actions = event_followed(
        view,
        event,
        snapshot,
        rows,
        row_changes,
        diff,
        remeasure,
        wait_ended,
    ).1;
    let changes = changes_from(row_changes, 0, rows, slots, event);
    let differences = diff_actions(diff, rows.len());
    let measures = remeasure_actions(runs(ascending(remeasure), 0));
    let fills = filled_all(rows, slots, turns, replay, 0).1;
    if 0 <= k < actions.len() {
        let a = 1 + changes.len();
        let b = a + differences.len();
        let c = b + measures.len();
        let d = c + fills.len();
        if 1 <= k < a {
            assert(actions[k] == changes[k - 1]);
        } else if a <= k < b {
            assert(actions[k] == differences[k - a]);
        } else if b <= k < c {
            assert(actions[k] == measures[k - b]);
        } else if c <= k < d {
            assert(actions[k] == fills[k - c]);
        }
    }
}

/// A sync says that something changed exactly where the way to the latest row came or went, the
/// window had changed, rows were measured anew, or a row was filled.
pub proof fn changes_are_announced(
    view: ViewState,
    zones: Option<Zones>,
    retyped: Option<Seq<usize>>,
    jump_visible: bool,
)
    requires
        view.slots.len() <= usize::MAX,
    ensures
        ({
            let actions = window_synced(view, zones, retyped, jump_visible).1;
            actions.contains(ViewActionModel::Notify) <==> jump_visible != view.jump_visible
                || view.window_dirty || retyped is Some || exists|k: int|
                0 <= k < actions.len() && (#[trigger] actions[k]) is Materialize
        }),
{
    let actions = window_synced(view, zones, retyped, jump_visible).1;
    let kept = slots_kept(view, zones);
    let fills = wanted_fills(view, kept, zones, 0);
    let measures = match retyped {
        Some(rows) => remeasure_actions(runs(ascending(rows), 0)),
        None => Seq::empty(),
    };
    let gone = match zones {
        Some(zones) => emptied(view, zones, 0),
        None => Seq::empty(),
    };
    let dirty = view.window_dirty || fills.len() > 0;
    let told = notices(jump_visible != view.jump_visible, dirty || retyped is Some);
    if let Some(zones) = zones {
        lemma_emptied_above(view, zones, 0);
    }
    lemma_fills_above(view, kept, zones, 0);
    let before = measures + gone + fills;
    assert(actions =~= before + told);
    assert forall|k: int| 0 <= k < before.len() implies !(#[trigger] before[k] is Notify) by {
        if k < measures.len() {
            assert(before[k] == measures[k]);
        } else if k < measures.len() + gone.len() {
            assert(before[k] == gone[k - measures.len()]);
        } else {
            assert(before[k] == fills[k - measures.len() - gone.len()]);
        }
    }
    if fills.len() > 0 {
        let at = measures.len() + gone.len();
        assert(actions[at as int] == fills[0]);
        assert(actions[at as int] is Materialize);
    }
    if exists|k: int| 0 <= k < actions.len() && (#[trigger] actions[k]) is Materialize {
        let k = choose|k: int| 0 <= k < actions.len() && (#[trigger] actions[k]) is Materialize;
        if k < measures.len() {
            assert(actions[k] == measures[k]);
        } else if k < measures.len() + gone.len() {
            assert(actions[k] == gone[k - measures.len()]);
        } else if k >= before.len() {
            assert(actions[k] == told[k - before.len()]);
        }
        assert(fills.len() > 0);
    }
    if told.len() > 0 {
        assert(actions[before.len() as int] == told[0]);
        assert(told[0] == ViewActionModel::Notify);
    }
    if actions.contains(ViewActionModel::Notify) {
        let k = choose|k: int| 0 <= k < actions.len() && actions[k] == ViewActionModel::Notify;
        if k < before.len() {
            assert(actions[k] == before[k]);
        } else {
            assert(told.len() > 0);
        }
    }
}

} // verus!
