//! The view of a transcript: its rows, which of them hold content, and how both follow the
//! transcript and the scroll position.

use vstd::prelude::*;

use crate::chat::transcript::model::{PartId, Role, TurnId};
use crate::chat::transcript::transcript::{
    TranscriptEvent, TranscriptEventModel, TranscriptSnapshot,
};
use crate::chat::view::list::{
    aligned, ascending, change_action, changes_from, diff_actions, index_of_row, last_slot,
    remeasure_actions, remeasure_rows, reused_slots, row_index, row_position, runs, slots_for,
    PREPEND_TRIGGER_ROWS,
};
use crate::chat::view::rows::{
    ProjectionDiff, Row, RowChange, RowChangeKind, RowId, RowKind, RowSlot, ViewAction,
    ViewActionModel,
};

verus! {

broadcast use crate::deep::group_models;

/// What a change of the transcript did to the rows.
pub struct ProjectionOutcome {
    pub rows: Vec<Row>,
    pub row_changes: Vec<(RowId, RowChangeKind)>,
    pub diff: ProjectionDiff,
    pub remeasure: Vec<usize>,
    /// Whether the last turn has a row that ends the wait for an answer.
    pub wait_ended: bool,
}

/// The rows around the viewport: those to fill, and those that may keep their content. Each is a
/// range of positions.
#[derive(Clone, Copy, Debug, PartialEq, Eq, Structural)]
pub struct Zones {
    pub materialize_start: usize,
    pub materialize_end: usize,
    pub retain_start: usize,
    pub retain_end: usize,
}

impl Zones {
    /// Whether every row to fill may keep its content.
    pub open spec fn wf(self) -> bool {
        &&& self.retain_start <= self.materialize_start
        &&& self.materialize_end <= self.retain_end
    }

    /// The zones of the two ranges. What may keep its content spans at least what is to be filled.
    pub fn new(
        materialize_start: usize,
        materialize_end: usize,
        retain_start: usize,
        retain_end: usize,
    ) -> (zones: Self)
        ensures
            zones.wf(),
            zones.materialize_start == materialize_start,
            zones.materialize_end == materialize_end,
            zones.retain_start == if retain_start <= materialize_start {
                retain_start
            } else {
                materialize_start
            },
            zones.retain_end == if retain_end >= materialize_end {
                retain_end
            } else {
                materialize_end
            },
    {
        Zones {
            materialize_start,
            materialize_end,
            retain_start: if retain_start <= materialize_start {
                retain_start
            } else {
                materialize_start
            },
            retain_end: if retain_end >= materialize_end {
                retain_end
            } else {
                materialize_end
            },
        }
    }
}

/// How a row is drawn.
#[derive(Clone, Copy, Debug, PartialEq, Eq, Structural)]
pub enum RowFace {
    /// There is no such row.
    Missing,
    /// A space of the estimated height.
    Placeholder,
    /// Nothing: the first row of the turn stands for it.
    Hidden,
    /// The sign that an answer is awaited.
    Shimmer,
    Content,
}

/// Where a request to open or close leads.
#[derive(Clone, Copy, Debug, PartialEq, Eq, Structural)]
pub enum DisclosureRoute {
    /// To a group of rows, known by its identifier alone.
    Group,
    /// To the renderer of a row.
    Row(usize),
    /// Nowhere: the row is gone.
    Nowhere,
}

/// The list of rows over a transcript.
pub struct TranscriptView {
    pub rows: Vec<Row>,
    pub slots: Vec<RowSlot>,
    pub pending_materialize: Vec<RowId>,
    pub window_dirty: bool,
    pub sync_scheduled: bool,
    pub is_generating: bool,
    pub wait_ended: bool,
    pub streaming_turn: Option<TurnId>,
    pub turn_count: usize,
    pub waiting_turn: Option<TurnId>,
    pub jump_visible: bool,
    pub prepend_anchor: Option<RowId>,
}

/// What a [`TranscriptView`] stands for.
pub struct ViewState {
    pub rows: Seq<Row>,
    pub slots: Seq<RowSlot>,
    pub pending: Seq<RowId>,
    pub window_dirty: bool,
    pub sync_scheduled: bool,
    pub is_generating: bool,
    pub wait_ended: bool,
    pub streaming_turn: Option<TurnId>,
    pub turn_count: usize,
    pub waiting_turn: Option<TurnId>,
    pub jump_visible: bool,
    pub prepend_anchor: Option<RowId>,
}

impl View for TranscriptView {
    type V = ViewState;

    open spec fn view(&self) -> ViewState {
        ViewState {
            rows: self.rows@,
            slots: self.slots@,
            pending: self.pending_materialize@,
            window_dirty: self.window_dirty,
            sync_scheduled: self.sync_scheduled,
            is_generating: self.is_generating,
            wait_ended: self.wait_ended,
            streaming_turn: self.streaming_turn,
            turn_count: self.turn_count,
            waiting_turn: self.waiting_turn,
            jump_visible: self.jump_visible,
            prepend_anchor: self.prepend_anchor,
        }
    }
}

impl ViewState {
    /// There is one slot for each row.
    pub open spec fn wf(self) -> bool {
        aligned(self.slots, self.rows)
    }
}

pub open spec fn turn_of_streaming(streaming: Option<(TurnId, PartId)>) -> Option<TurnId> {
    match streaming {
        Some((turn, _)) => Some(turn),
        None => None,
    }
}

/// The turn whose answer is awaited: the last one, while a generation runs and nothing of the
/// answer is to be seen.
pub open spec fn awaited_turn(view: ViewState) -> Option<TurnId> {
    if !view.is_generating || view.rows.len() == 0 {
        None
    } else {
        let last = view.rows.last();
        if last.turn_index + 1 != view.turn_count || last.role != Role::Assistant
            || view.wait_ended || exists|i: int|
            0 <= i < view.rows.len() && (#[trigger] view.rows[i]).turn_index == last.turn_index
                && view.rows[i].id.kind == RowKind::TurnError {
            None
        } else {
            Some(last.id.turn)
        }
    }
}

/// Fills the rows of a turn, from position `start` on: the slots after that, and what it takes.
pub open spec fn filled(
    rows: Seq<Row>,
    slots: Seq<RowSlot>,
    turn: TurnId,
    replay_part: Option<PartId>,
    start: int,
) -> (Seq<RowSlot>, Seq<ViewActionModel>)
    decreases rows.len() - start,
{
    if start < 0 || start >= rows.len() || start >= slots.len() {
        (slots, Seq::empty())
    } else if rows[start].id.turn == turn && !slots[start].materialized {
        let (last, rest) = filled(
            rows,
            slots.update(start, RowSlot { id: slots[start].id, materialized: true }),
            turn,
            replay_part,
            start + 1,
        );
        (
            last,
            seq![
                ViewActionModel::Materialize {
                    index: start as usize,
                    row_id: rows[start].id,
                    replay: replay_part == Some(rows[start].id.part),
                },
            ] + rest,
        )
    } else {
        filled(rows, slots, turn, replay_part, start + 1)
    }
}

/// Fills the rows of the turns from position `start` on.
pub open spec fn filled_all(
    rows: Seq<Row>,
    slots: Seq<RowSlot>,
    turns: Seq<TurnId>,
    replay_part: Option<PartId>,
    start: int,
) -> (Seq<RowSlot>, Seq<ViewActionModel>)
    decreases turns.len() - start,
{
    if start < 0 || start >= turns.len() {
        (slots, Seq::empty())
    } else {
        let (next, first) = filled(rows, slots, turns[start], replay_part, 0);
        let (last, rest) = filled_all(rows, next, turns, replay_part, start + 1);
        (last, first + rest)
    }
}

/// The turns whose rows are on screen after an event: the streaming one, and those that came or
/// were rewritten.
pub open spec fn eager_turns(event: TranscriptEventModel, streaming: Option<TurnId>) -> Seq<TurnId> {
    let first = match streaming {
        Some(turn) => seq![turn],
        None => Seq::empty(),
    };
    match event {
        TranscriptEventModel::TailAppended { turn_ids } => first + turn_ids,
        TranscriptEventModel::TurnReplaced { turn_id } => first.push(turn_id),
        _ => first,
    }
}

/// The part that the events to come bring from its beginning.
pub open spec fn replayed_part(event: TranscriptEventModel) -> Option<PartId> {
    match event {
        TranscriptEventModel::PartInserted { part_id, .. } => Some(part_id),
        _ => None,
    }
}

/// The view with its window to be brought up to date, once, after this.
pub open spec fn sync_scheduled(view: ViewState) -> (ViewState, Seq<ViewActionModel>) {
    if view.sync_scheduled {
        (view, Seq::empty())
    } else {
        (ViewState { sync_scheduled: true, ..view }, seq![ViewActionModel::Sync])
    }
}

/// The view after its rows changed with an event of the transcript.
pub open spec fn rows_followed(
    view: ViewState,
    snapshot: TranscriptSnapshot,
    rows: Seq<Row>,
    wait_ended: bool,
) -> ViewState {
    let next = ViewState {
        rows,
        slots: slots_for(view.slots, rows),
        wait_ended,
        streaming_turn: turn_of_streaming(snapshot.streaming),
        turn_count: snapshot.turn_count,
        ..view
    };
    ViewState { waiting_turn: awaited_turn(next), ..next }
}

/// The view after an event of the transcript, and what its host has to do.
pub open spec fn event_followed(
    view: ViewState,
    event: TranscriptEventModel,
    snapshot: TranscriptSnapshot,
    rows: Seq<Row>,
    row_changes: Seq<(RowId, RowChangeKind)>,
    diff: ProjectionDiff,
    remeasure: Seq<usize>,
    wait_ended: bool,
) -> (ViewState, Seq<ViewActionModel>) {
    let followed = rows_followed(view, snapshot, rows, wait_ended);
    let (slots, fills) = filled_all(
        rows,
        followed.slots,
        eager_turns(event, followed.streaming_turn),
        replayed_part(event),
        0,
    );
    let (last, sync) = sync_scheduled(ViewState { slots, window_dirty: true, ..followed });
    (
        last,
        seq![ViewActionModel::Reuse { slots: reused_slots(view.slots, rows) }] + changes_from(
            row_changes,
            0,
            rows,
            followed.slots,
            event,
        ) + diff_actions(diff, rows.len()) + remeasure_actions(runs(ascending(remeasure), 0))
            + fills + sync,
    )
}

/// Whether the content of slot `i` goes: it lies far outside the viewport, and its turn is not the
/// streaming one.
pub open spec fn releases(view: ViewState, zones: Zones, i: int) -> bool {
    &&& !(zones.retain_start <= i < zones.retain_end)
    &&& view.slots[i].materialized
    &&& view.streaming_turn != Some(view.rows[i].id.turn)
}

/// Empties slots from position `start` on.
pub open spec fn emptied(view: ViewState, zones: Zones, start: int) -> Seq<ViewActionModel>
    decreases view.slots.len() - start,
{
    if start < 0 || start >= view.slots.len() {
        Seq::empty()
    } else if releases(view, zones, start) {
        seq![ViewActionModel::Release { index: start as usize, row_id: view.rows[start].id }]
            + emptied(view, zones, start + 1)
    } else {
        emptied(view, zones, start + 1)
    }
}

/// The slots once those far outside the viewport are empty.
pub open spec fn slots_kept(view: ViewState, zones: Option<Zones>) -> Seq<RowSlot> {
    match zones {
        None => view.slots,
        Some(zones) => Seq::new(
            view.slots.len(),
            |i: int|
                RowSlot {
                    id: view.slots[i].id,
                    materialized: view.slots[i].materialized && !releases(view, zones, i),
                },
        ),
    }
}

/// Whether a row has been asked for on the render path.
pub open spec fn is_pending(rows: Seq<Row>, pending: Seq<RowId>, i: int) -> bool {
    exists|k: int|
        0 <= k < pending.len() && index_of_row(rows, #[trigger] pending[k]) == Some(i as usize)
}

/// Whether row `i` is to hold content: it lies near the viewport, was asked for, or belongs to the
/// streaming turn.
pub open spec fn wanted(view: ViewState, zones: Option<Zones>, i: int) -> bool {
    ||| zones is Some && zones->0.materialize_start <= i < zones->0.materialize_end
    ||| is_pending(view.rows, view.pending, i)
    ||| view.streaming_turn == Some(view.rows[i].id.turn)
}

/// Fills wanted slots from position `start` on.
pub open spec fn wanted_fills(
    view: ViewState,
    slots: Seq<RowSlot>,
    zones: Option<Zones>,
    start: int,
) -> Seq<ViewActionModel>
    decreases slots.len() - start,
{
    if start < 0 || start >= slots.len() {
        Seq::empty()
    } else if wanted(view, zones, start) && !slots[start].materialized {
        seq![
            ViewActionModel::Materialize {
                index: start as usize,
                row_id: view.rows[start].id,
                replay: false,
            },
        ] + wanted_fills(view, slots, zones, start + 1)
    } else {
        wanted_fills(view, slots, zones, start + 1)
    }
}

/// The slots once every wanted row holds content.
pub open spec fn slots_filled(
    view: ViewState,
    slots: Seq<RowSlot>,
    zones: Option<Zones>,
) -> Seq<RowSlot> {
    Seq::new(
        slots.len(),
        |i: int|
            RowSlot {
                id: slots[i].id,
                materialized: slots[i].materialized || wanted(view, zones, i),
            },
    )
}

/// One notice for each thing that changed on screen.
pub open spec fn notices(jump_changed: bool, window_changed: bool) -> Seq<ViewActionModel> {
    if jump_changed && window_changed {
        seq![ViewActionModel::Notify, ViewActionModel::Notify]
    } else if jump_changed || window_changed {
        seq![ViewActionModel::Notify]
    } else {
        Seq::empty()
    }
}

/// The view brought up to date with the scroll position. Without `zones` nothing is laid out yet:
/// nothing goes, and only what was asked for comes.
pub open spec fn window_synced(
    view: ViewState,
    zones: Option<Zones>,
    retyped: Option<Seq<usize>>,
    jump_visible: bool,
) -> (ViewState, Seq<ViewActionModel>) {
    let measures = match retyped {
        Some(rows) => remeasure_actions(runs(ascending(rows), 0)),
        None => Seq::empty(),
    };
    let releases = match zones {
        Some(zones) => emptied(view, zones, 0),
        None => Seq::empty(),
    };
    let kept = slots_kept(view, zones);
    let fills = wanted_fills(view, kept, zones, 0);
    let dirty = view.window_dirty || fills.len() > 0;
    let changed = dirty || retyped is Some;
    (
        ViewState {
            sync_scheduled: false,
            slots: slots_filled(view, kept, zones),
            pending: Seq::empty(),
            window_dirty: false,
            jump_visible,
            ..view
        },
        measures + releases + fills + notices(jump_visible != view.jump_visible, changed),
    )
}

/// After the window was brought up to date, a row holds content only where it lies in the retain
/// zone, was asked for or belongs to the streaming turn; every row near the viewport and every row
/// of the streaming turn does.
pub proof fn content_stays_in_the_window(
    view: ViewState,
    zones: Zones,
    retyped: Option<Seq<usize>>,
    jump_visible: bool,
    i: int,
)
    requires
        view.wf(),
        0 <= i < view.rows.len(),
    ensures
        ({
            let slot = window_synced(view, Some(zones), retyped, jump_visible).0.slots[i];
            let near = zones.materialize_start <= i < zones.materialize_end;
            let kept = zones.retain_start <= i < zones.retain_end;
            let streaming = view.streaming_turn == Some(view.rows[i].id.turn);
            &&& slot.id == view.rows[i].id
            &&& slot.materialized ==> kept || near || streaming || is_pending(
                view.rows,
                view.pending,
                i,
            )
            &&& near || streaming ==> slot.materialized
            &&& kept && view.slots[i].materialized ==> slot.materialized
        }),
{
}

/// Bringing the window up to date twice changes nothing more.
pub proof fn syncing_is_idempotent(view: ViewState, zones: Zones, jump_visible: bool)
    requires
        view.wf(),
        view.pending.len() == 0,
        zones.wf(),
    ensures
        ({
            let once = window_synced(view, Some(zones), None, jump_visible).0;
            let twice = window_synced(once, Some(zones), None, jump_visible);
            twice == (once, Seq::<ViewActionModel>::empty())
        }),
{
    let once = window_synced(view, Some(zones), None, jump_visible).0;
    let kept = slots_kept(once, Some(zones));
    assert forall|i: int| 0 <= i < once.slots.len() implies !releases(once, zones, i) by {
        assert(once.rows[i] == view.rows[i]);
    }
    lemma_nothing_emptied(once, zones, 0);
    assert(kept =~= once.slots);
    assert forall|i: int| 0 <= i < kept.len() && wanted(once, Some(zones), i) implies (
    #[trigger] kept[i]).materialized by {
        assert(once.rows[i] == view.rows[i]);
        assert(wanted(view, Some(zones), i));
    }
    lemma_nothing_filled(once, kept, Some(zones), 0);
    assert(slots_filled(once, kept, Some(zones)) =~= once.slots);
    let twice = window_synced(once, Some(zones), None, jump_visible);
    assert(once.pending =~= Seq::<RowId>::empty());
    assert(twice.1 =~= Seq::<ViewActionModel>::empty());
}

proof fn lemma_nothing_emptied(view: ViewState, zones: Zones, start: int)
    requires
        0 <= start,
        forall|i: int| 0 <= i < view.slots.len() ==> !releases(view, zones, i),
    ensures
        emptied(view, zones, start) == Seq::<ViewActionModel>::empty(),
    decreases view.slots.len() - start,
{
    if start < view.slots.len() {
        assert(!releases(view, zones, start));
        lemma_nothing_emptied(view, zones, start + 1);
    }
}

proof fn lemma_nothing_filled(
    view: ViewState,
    slots: Seq<RowSlot>,
    zones: Option<Zones>,
    start: int,
)
    requires
        0 <= start,
        forall|i: int| 0 <= i < slots.len() && wanted(view, zones, i) ==> (#[trigger] slots[i]).materialized,
    ensures
        wanted_fills(view, slots, zones, start) == Seq::<ViewActionModel>::empty(),
    decreases slots.len() - start,
{
    if start < slots.len() {
        lemma_nothing_filled(view, slots, zones, start + 1);
    }
}

/// How a row is drawn.
pub open spec fn face_of(view: ViewState, index: int) -> RowFace {
    if !(0 <= index < view.rows.len()) {
        RowFace::Missing
    } else if index >= view.slots.len() || !view.slots[index].materialized {
        RowFace::Placeholder
    } else if view.waiting_turn == Some(view.rows[index].id.turn) {
        if view.rows[index].first_in_turn {
            RowFace::Shimmer
        } else {
            RowFace::Hidden
        }
    } else {
        RowFace::Content
    }
}

/// The view after a row was drawn: a row without content asks for it.
pub open spec fn row_drawn(view: ViewState, index: int) -> (ViewState, Seq<ViewActionModel>) {
    match face_of(view, index) {
        RowFace::Missing => (view, Seq::empty()),
        RowFace::Placeholder => sync_scheduled(
            ViewState {
                pending: view.pending.push(view.rows[index].id),
                window_dirty: true,
                ..view
            },
        ),
        _ => sync_scheduled(view),
    }
}

/// Empties the slots of one kind, or all of them, from position `start` on.
pub open spec fn released(slots: Seq<RowSlot>, kind: Option<RowKind>, start: int) -> Seq<
    ViewActionModel,
>
    decreases slots.len() - start,
{
    if start < 0 || start >= slots.len() {
        Seq::empty()
    } else if slots[start].materialized && (kind is None || kind == Some(slots[start].id.kind)) {
        seq![ViewActionModel::Release { index: start as usize, row_id: slots[start].id }]
            + released(slots, kind, start + 1)
    } else {
        released(slots, kind, start + 1)
    }
}

fn release_slots(slots: &Vec<RowSlot>, kind: Option<RowKind>) -> (actions: Vec<ViewAction>)
    ensures
        actions.deep_view() == released(slots@, kind, 0),
{
    let ghost all = released(slots@, kind, 0);
    let mut actions: Vec<ViewAction> = Vec::new();
    let mut i: usize = 0;
    proof {
        assert(actions.deep_view() + all =~= all);
    }
    while i < slots.len()
        invariant
            i <= slots@.len(),
            actions.deep_view() + released(slots@, kind, i as int) == all,
        decreases slots@.len() - i,
    {
        let ghost before = actions.deep_view();
        let slot = slots[i];
        let asked = match kind {
            None => true,
            Some(kind) => slot.id.kind == kind,
        };
        if slot.materialized && asked {
            let action = ViewAction::Release { index: i, row_id: slot.id };
            let ghost model = action.deep_view();
            actions.push(action);
            proof {
                let rest = released(slots@, kind, i + 1);
                assert(before + (seq![model] + rest) =~= before.push(model) + rest);
            }
        }
        i += 1;
    }
    proof {
        assert(actions.deep_view() =~= all);
    }
    actions
}

fn append_actions(actions: &mut Vec<ViewAction>, more: Vec<ViewAction>)
    ensures
        final(actions).deep_view() == old(actions).deep_view() + more.deep_view(),
{
    let mut more = more;
    actions.append(&mut more);
}

impl TranscriptView {
    /// The view of a transcript whose rows hold nothing yet.
    pub fn new(rows: Vec<Row>, wait_ended: bool, snapshot: &TranscriptSnapshot) -> (view: Self)
        ensures
            view@.wf(),
            view@ == (ViewState {
                rows: rows@,
                slots: slots_for(Seq::empty(), rows@),
                pending: Seq::empty(),
                window_dirty: false,
                sync_scheduled: false,
                is_generating: false,
                wait_ended,
                streaming_turn: turn_of_streaming(snapshot.streaming),
                turn_count: snapshot.turn_count,
                waiting_turn: None,
                jump_visible: false,
                prepend_anchor: None,
            }),
    {
        let streaming_turn = match snapshot.streaming {
            Some((turn, _)) => Some(turn),
            None => None,
        };
        let mut view = TranscriptView {
            rows,
            slots: Vec::new(),
            pending_materialize: Vec::new(),
            window_dirty: false,
            sync_scheduled: false,
            is_generating: false,
            wait_ended,
            streaming_turn,
            turn_count: snapshot.turn_count,
            waiting_turn: None,
            jump_visible: false,
            prepend_anchor: None,
        };
        let _ = view.reproject_slots();
        view
    }

    /// Makes one slot per row. Renderers stay with their rows.
    pub fn reproject_slots(&mut self) -> (reused: Vec<Option<usize>>)
        ensures
            final(self)@ == (ViewState {
                slots: slots_for(old(self)@.slots, old(self)@.rows),
                ..old(self)@
            }),
            final(self)@.wf(),
            reused@ == reused_slots(old(self)@.slots, old(self)@.rows),
    {
        let ghost before = self.slots@;
        let ghost rows = self.rows@;
        let mut reused: Vec<Option<usize>> = Vec::new();
        let mut slots: Vec<RowSlot> = Vec::new();
        let mut i: usize = 0;
        while i < self.rows.len()
            invariant
                self@ == old(self)@,
                before == self.slots@,
                rows == self.rows@,
                i <= rows.len(),
                reused@.len() == i,
                slots@.len() == i,
                forall|k: int| 0 <= k < i ==> #[trigger] reused@[k] == reused_slots(before, rows)[k],
                forall|k: int| 0 <= k < i ==> #[trigger] slots@[k] == slots_for(before, rows)[k],
            decreases rows.len() - i,
        {
            let id = self.rows[i].id;
            let taken = match row_index(&self.rows, id) {
                Some(first) => first < i,
                None => false,
            };
            proof {
                lemma_position_bound(rows, id, i as int, 0);
            }
            let mut end: usize = self.slots.len();
            while end > 0 && self.slots[end - 1].id != id
                invariant
                    self@ == old(self)@,
                    before == self.slots@,
                    end <= before.len(),
                    last_slot(before, id, before.len() as int) == last_slot(
                        before,
                        id,
                        end as int,
                    ),
                decreases end,
            {
                end -= 1;
            }
            let from: Option<usize> = if taken || end == 0 {
                None
            } else {
                Some(end - 1)
            };
            let materialized = match from {
                Some(at) => self.slots[at].materialized,
                None => false,
            };
            reused.push(from);
            slots.push(RowSlot { id, materialized });
            i += 1;
        }
        self.slots = slots;
        proof {
            assert(reused@ =~= reused_slots(before, rows));
            assert(self.slots@ =~= slots_for(before, rows));
        }
        reused
    }

    /// Finds out which turn awaits its answer.
    pub fn refresh_waiting_turn(&mut self)
        ensures
            final(self)@ == (ViewState { waiting_turn: awaited_turn(old(self)@), ..old(self)@ }),
    {
        self.waiting_turn = None;
        if !self.is_generating || self.rows.len() == 0 {
            return;
        }
        let last = self.rows[self.rows.len() - 1];
        if self.turn_count == 0 || last.turn_index != self.turn_count - 1 {
            return;
        }
        if last.role != Role::Assistant {
            return;
        }
        let mut i: usize = 0;
        while i < self.rows.len()
            invariant
                self@ == (ViewState { waiting_turn: None, ..old(self)@ }),
                i <= self.rows@.len(),
                last == self.rows@.last(),
                forall|k: int|
                    0 <= k < i && (#[trigger] self.rows@[k]).turn_index == last.turn_index
                        ==> self.rows@[k].id.kind != RowKind::TurnError,
            decreases self.rows@.len() - i,
        {
            let row = self.rows[i];
            if row.turn_index == last.turn_index && row.id.kind == RowKind::TurnError {
                proof {
                    assert(old(self)@.rows[i as int].id.kind == RowKind::TurnError);
                }
                return;
            }
            i += 1;
        }
        if self.wait_ended {
            return;
        }
        self.waiting_turn = Some(last.id.turn);
    }

    pub fn set_generating(&mut self, generating: bool)
        ensures
            final(self)@ == if old(self)@.is_generating == generating {
                old(self)@
            } else {
                let next = ViewState { is_generating: generating, ..old(self)@ };
                ViewState { waiting_turn: awaited_turn(next), ..next }
            },
    {
        if self.is_generating != generating {
            self.is_generating = generating;
            self.refresh_waiting_turn();
        }
    }

    /// Asks for the window to be brought up to date, once.
    pub fn schedule_sync(&mut self) -> (actions: Vec<ViewAction>)
        ensures
            (final(self)@, actions.deep_view()) == sync_scheduled(old(self)@),
    {
        let mut actions: Vec<ViewAction> = Vec::new();
        if self.sync_scheduled {
            return actions;
        }
        self.sync_scheduled = true;
        actions.push(ViewAction::Sync);
        proof {
            assert(actions.deep_view() =~= seq![ViewActionModel::Sync]);
        }
        actions
    }

    /// What a change of the set of rows asks of the list.
    pub fn apply_diff(&self, diff: &ProjectionDiff) -> (actions: Vec<ViewAction>)
        ensures
            actions.deep_view() == diff_actions(*diff, self@.rows.len()),
    {
        let mut actions: Vec<ViewAction> = Vec::new();
        match *diff {
            ProjectionDiff::Unchanged => {},
            ProjectionDiff::Splice { start, end, inserted } => {
                actions.push(ViewAction::Splice { start, end, inserted });
            },
            ProjectionDiff::Rebuild => {
                actions.push(ViewAction::Reset { count: self.rows.len() });
            },
        }
        proof {
            assert(actions.deep_view() =~= diff_actions(*diff, self@.rows.len()));
        }
        actions
    }

    fn dispatch_changes(
        &self,
        changes: &Vec<(RowId, RowChangeKind)>,
        event: &TranscriptEvent,
    ) -> (actions: Vec<ViewAction>)
        ensures
            actions.deep_view() == changes_from(
                changes@,
                0,
                self@.rows,
                self@.slots,
                event.deep_view(),
            ),
    {
        let ghost rows = self.rows@;
        let ghost slots = self.slots@;
        let ghost all = changes_from(changes@, 0, rows, slots, event.deep_view());
        let mut actions: Vec<ViewAction> = Vec::new();
        let mut i: usize = 0;
        proof {
            assert(actions.deep_view() + all =~= all);
        }
        while i < changes.len()
            invariant
                rows == self.rows@,
                slots == self.slots@,
                i <= changes@.len(),
                actions.deep_view() + changes_from(
                    changes@,
                    i as int,
                    rows,
                    slots,
                    event.deep_view(),
                ) == all,
            decreases changes@.len() - i,
        {
            let ghost before = actions.deep_view();
            let row_id = changes[i].0;
            let kind = changes[i].1;
            match self.dispatch_change(row_id, kind, event) {
                Some(action) => {
                    let ghost model = action.deep_view();
                    actions.push(action);
                    proof {
                        let rest = changes_from(changes@, i + 1, rows, slots, event.deep_view());
                        assert(before + (seq![model] + rest) =~= before.push(model) + rest);
                    }
                },
                None => {},
            }
            i += 1;
        }
        proof {
            assert(actions.deep_view() =~= all);
        }
        actions
    }

    fn dispatch_change(&self, row_id: RowId, kind: RowChangeKind, event: &TranscriptEvent) -> (action:
        Option<ViewAction>)
        ensures
            action.deep_view() == change_action(
                (row_id, kind),
                self@.rows,
                self@.slots,
                event.deep_view(),
            ),
    {
        let index = match row_index(&self.rows, row_id) {
            Some(index) => index,
            None => {
                return None;
            },
        };
        if index >= self.slots.len() || !self.slots[index].materialized {
            return None;
        }
        let change = match kind {
            RowChangeKind::Append => match event {
                TranscriptEvent::PartChanged { delta, .. } => RowChange::Append {
                    delta: delta.clone(),
                },
                _ => {
                    return None;
                },
            },
            RowChangeKind::Finished => RowChange::Finished,
            RowChangeKind::Replace => RowChange::Replace,
        };
        Some(ViewAction::Change { index, row_id, change })
    }

    /// Fills the rows of a turn.
    fn fill_turn(&mut self, turn: TurnId, replay_part: Option<PartId>) -> (actions: Vec<
        ViewAction,
    >)
        requires
            old(self)@.wf(),
        ensures
            ({
                let (slots, fills) = filled(
                    old(self)@.rows,
                    old(self)@.slots,
                    turn,
                    replay_part,
                    0,
                );
                &&& final(self)@ == (ViewState { slots, ..old(self)@ })
                &&& actions.deep_view() == fills
            }),
            final(self)@.wf(),
    {
        let ghost rows = self.rows@;
        let ghost all = filled(rows, self.slots@, turn, replay_part, 0);
        let mut actions: Vec<ViewAction> = Vec::new();
        let mut i: usize = 0;
        proof {
            assert(actions.deep_view() + all.1 =~= all.1);
        }
        while i < self.slots.len()
            invariant
                rows == self.rows@,
                self@ == (ViewState { slots: self.slots@, ..old(self)@ }),
                self@.wf(),
                i <= self.slots@.len(),
                filled(rows, self.slots@, turn, replay_part, i as int).0 == all.0,
                actions.deep_view() + filled(
                    rows,
                    self.slots@,
                    turn,
                    replay_part,
                    i as int,
                ).1 == all.1,
            decreases self.slots@.len() - i,
        {
            let ghost before = actions.deep_view();
            let row = self.rows[i];
            let slot = self.slots[i];
            if row.id.turn == turn && !slot.materialized {
                let replay = match replay_part {
                    Some(part) => part == row.id.part,
                    None => false,
                };
                self.slots.set(i, RowSlot { id: slot.id, materialized: true });
                let action = ViewAction::Materialize { index: i, row_id: row.id, replay };
                let ghost model = action.deep_view();
                actions.push(action);
                proof {
                    let rest = filled(rows, self.slots@, turn, replay_part, i + 1).1;
                    assert(before + (seq![model] + rest) =~= before.push(model) + rest);
                }
            }
            i += 1;
        }
        proof {
            assert(actions.deep_view() =~= all.1);
        }
        actions
    }

    fn fill_turns(&mut self, turns: &Vec<TurnId>, replay_part: Option<PartId>) -> (actions: Vec<
        ViewAction,
    >)
        requires
            old(self)@.wf(),
        ensures
            ({
                let (slots, fills) = filled_all(
                    old(self)@.rows,
                    old(self)@.slots,
                    turns@,
                    replay_part,
                    0,
                );
                &&& final(self)@ == (ViewState { slots, ..old(self)@ })
                &&& actions.deep_view() == fills
            }),
            final(self)@.wf(),
    {
        let ghost rows = self.rows@;
        let ghost all = filled_all(rows, self.slots@, turns@, replay_part, 0);
        let mut actions: Vec<ViewAction> = Vec::new();
        let mut i: usize = 0;
        proof {
            assert(actions.deep_view() + all.1 =~= all.1);
        }
        while i < turns.len()
            invariant
                rows == self.rows@,
                self@ == (ViewState { slots: self.slots@, ..old(self)@ }),
                self@.wf(),
                i <= turns@.len(),
                filled_all(rows, self.slots@, turns@, replay_part, i as int).0 == all.0,
                actions.deep_view() + filled_all(
                    rows,
                    self.slots@,
                    turns@,
                    replay_part,
                    i as int,
                ).1 == all.1,
            decreases turns@.len() - i,
        {
            let ghost before = actions.deep_view();
            let more = self.fill_turn(turns[i], replay_part);
            let ghost added = more.deep_view();
            append_actions(&mut actions, more);
            proof {
                let rest = filled_all(rows, self.slots@, turns@, replay_part, i + 1).1;
                assert(before + (added + rest) =~= (before + added) + rest);
            }
            i += 1;
        }
        proof {
            assert(actions.deep_view() =~= all.1);
        }
        actions
    }

    /// Follows an event of the transcript. `outcome` is what it did to the rows.
    pub fn handle_transcript_event(
        &mut self,
        event: &TranscriptEvent,
        snapshot: &TranscriptSnapshot,
        outcome: ProjectionOutcome,
    ) -> (actions: Vec<ViewAction>)
        requires
            forall|i: int|
                0 <= i < outcome.remeasure@.len() ==> #[trigger] outcome.remeasure@[i] < usize::MAX,
        ensures
            final(self)@.wf(),
            (final(self)@, actions.deep_view()) == event_followed(
                old(self)@,
                event.deep_view(),
                *snapshot,
                outcome.rows@,
                outcome.row_changes@,
                outcome.diff,
                outcome.remeasure@,
                outcome.wait_ended,
            ),
    {
        let ghost view = self@;
        let ghost rows = outcome.rows@;
        self.rows = outcome.rows;
        let reused = self.reproject_slots();
        self.wait_ended = outcome.wait_ended;
        self.streaming_turn = match snapshot.streaming {
            Some((turn, _)) => Some(turn),
            None => None,
        };
        self.turn_count = snapshot.turn_count;
        self.refresh_waiting_turn();
        proof {
            assert(self@ == rows_followed(view, *snapshot, rows, outcome.wait_ended));
        }
        let mut actions: Vec<ViewAction> = Vec::new();
        actions.push(ViewAction::Reuse { slots: reused });
        proof {
            assert(reused.deep_view() =~= reused@);
            assert(actions.deep_view() =~= seq![
                ViewActionModel::Reuse { slots: reused_slots(view.slots, rows) },
            ]);
        }
        append_actions(&mut actions, self.dispatch_changes(&outcome.row_changes, event));
        append_actions(&mut actions, self.apply_diff(&outcome.diff));
        append_actions(&mut actions, remeasure_rows(outcome.remeasure.as_slice()));
        let replay_part = match event {
            TranscriptEvent::PartInserted { part_id, .. } => Some(*part_id),
            _ => None,
        };
        let mut turns: Vec<TurnId> = Vec::new();
        match self.streaming_turn {
            Some(turn) => {
                turns.push(turn);
            },
            None => {},
        }
        let ghost first = turns@;
        match event {
            TranscriptEvent::TailAppended { turn_ids } => {
                let mut i: usize = 0;
                while i < turn_ids.len()
                    invariant
                        i <= turn_ids@.len(),
                        turns@ == first + turn_ids@.take(i as int),
                    decreases turn_ids@.len() - i,
                {
                    turns.push(turn_ids[i]);
                    proof {
                        assert(turn_ids@.take(i + 1) =~= turn_ids@.take(i as int).push(
                            turn_ids@[i as int],
                        ));
                        assert(first + turn_ids@.take(i + 1) =~= (first + turn_ids@.take(
                            i as int,
                        )).push(turn_ids@[i as int]));
                    }
                    i += 1;
                }
                proof {
                    assert(turn_ids@.take(i as int) =~= turn_ids@);
                    assert(turn_ids.deep_view() =~= turn_ids@);
                }
            },
            TranscriptEvent::TurnReplaced { turn_id } => {
                turns.push(*turn_id);
            },
            _ => {},
        }
        proof {
            assert(turns@ =~= eager_turns(event.deep_view(), self.streaming_turn));
        }
        append_actions(&mut actions, self.fill_turns(&turns, replay_part));
        self.window_dirty = true;
        append_actions(&mut actions, self.schedule_sync());
        actions
    }

    fn release_outside(&mut self, zones: Zones) -> (actions: Vec<ViewAction>)
        requires
            old(self)@.wf(),
        ensures
            final(self)@ == (ViewState {
                slots: slots_kept(old(self)@, Some(zones)),
                ..old(self)@
            }),
            actions.deep_view() == emptied(old(self)@, zones, 0),
            final(self)@.wf(),
    {
        let ghost view = self@;
        let ghost all = emptied(view, zones, 0);
        let ghost kept = slots_kept(view, Some(zones));
        let mut actions: Vec<ViewAction> = Vec::new();
        let mut i: usize = 0;
        proof {
            assert(actions.deep_view() + all =~= all);
        }
        while i < self.slots.len()
            invariant
                view == old(self)@,
                view.wf(),
                kept == slots_kept(view, Some(zones)),
                self@ == (ViewState { slots: self.slots@, ..view }),
                self.slots@.len() == view.slots.len(),
                i <= self.slots@.len(),
                forall|k: int| 0 <= k < i ==> #[trigger] self.slots@[k] == kept[k],
                forall|k: int|
                    i <= k < view.slots.len() ==> #[trigger] self.slots@[k] == view.slots[k],
                actions.deep_view() + emptied(view, zones, i as int) == all,
            decreases self.slots@.len() - i,
        {
            let ghost before = actions.deep_view();
            let slot = self.slots[i];
            let row_id = self.rows[i].id;
            let kept_here = zones.retain_start <= i && i < zones.retain_end;
            let streaming = match self.streaming_turn {
                Some(turn) => turn == row_id.turn,
                None => false,
            };
            proof {
                assert(slot == view.slots[i as int]);
                assert(row_id == view.rows[i as int].id);
                assert(releases(view, zones, i as int) == (!kept_here && slot.materialized
                    && !streaming));
            }
            if !kept_here && slot.materialized && !streaming {
                self.slots.set(i, RowSlot { id: slot.id, materialized: false });
                let action = ViewAction::Release { index: i, row_id };
                let ghost model = action.deep_view();
                actions.push(action);
                proof {
                    let rest = emptied(view, zones, i + 1);
                    assert(before + (seq![model] + rest) =~= before.push(model) + rest);
                }
            }
            proof {
                assert(self.slots@[i as int] == kept[i as int]);
            }
            i += 1;
        }
        proof {
            assert(self.slots@ =~= kept);
            assert(actions.deep_view() =~= all);
        }
        actions
    }

    fn is_wanted(&self, zones: &Option<Zones>, index: usize) -> (yes: bool)
        requires
            index < self@.rows.len(),
        ensures
            yes == wanted(self@, *zones, index as int),
    {
        let near = match zones {
            Some(zones) => zones.materialize_start <= index && index < zones.materialize_end,
            None => false,
        };
        let streaming = match self.streaming_turn {
            Some(turn) => turn == self.rows[index].id.turn,
            None => false,
        };
        if near || streaming {
            return true;
        }
        let mut i: usize = 0;
        while i < self.pending_materialize.len()
            invariant
                i <= self.pending_materialize@.len(),
                forall|k: int|
                    0 <= k < i ==> index_of_row(self.rows@, #[trigger] self.pending_materialize@[k])
                        != Some(index),
            decreases self.pending_materialize@.len() - i,
        {
            match row_index(&self.rows, self.pending_materialize[i]) {
                Some(at) => {
                    if at == index {
                        proof {
                            assert(index_of_row(self@.rows, self@.pending[i as int]) == Some(index));
                            assert(is_pending(self@.rows, self@.pending, index as int));
                        }
                        return true;
                    }
                },
                None => {},
            }
            i += 1;
        }
        proof {
            assert(!is_pending(self@.rows, self@.pending, index as int));
        }
        false
    }

    fn fill_wanted(&mut self, zones: &Option<Zones>, Ghost(view): Ghost<ViewState>) -> (actions: Vec<
        ViewAction,
    >)
        requires
            view.wf(),
            old(self)@ == (ViewState { slots: slots_kept(view, *zones), ..view }),
            old(self)@.wf(),
        ensures
            final(self)@ == (ViewState {
                slots: slots_filled(view, slots_kept(view, *zones), *zones),
                ..view
            }),
            actions.deep_view() == wanted_fills(view, slots_kept(view, *zones), *zones, 0),
            final(self)@.wf(),
    {
        let ghost kept = slots_kept(view, *zones);
        let ghost full = slots_filled(view, kept, *zones);
        let ghost all = wanted_fills(view, kept, *zones, 0);
        let mut actions: Vec<ViewAction> = Vec::new();
        let mut i: usize = 0;
        proof {
            assert(actions.deep_view() + all =~= all);
        }
        while i < self.slots.len()
            invariant
                view.wf(),
                kept == slots_kept(view, *zones),
                full == slots_filled(view, kept, *zones),
                kept.len() == view.rows.len(),
                self@ == (ViewState { slots: self.slots@, ..view }),
                self.slots@.len() == kept.len(),
                i <= self.slots@.len(),
                forall|k: int| 0 <= k < i ==> #[trigger] self.slots@[k] == full[k],
                forall|k: int| i <= k < kept.len() ==> #[trigger] self.slots@[k] == kept[k],
                actions.deep_view() + wanted_fills(view, kept, *zones, i as int) == all,
            decreases self.slots@.len() - i,
        {
            let ghost before = actions.deep_view();
            let slot = self.slots[i];
            proof {
                assert(slot == kept[i as int]);
                assert(wanted(self@, *zones, i as int) == wanted(view, *zones, i as int));
            }
            if self.is_wanted(zones, i) && !slot.materialized {
                self.slots.set(i, RowSlot { id: slot.id, materialized: true });
                let action = ViewAction::Materialize {
                    index: i,
                    row_id: self.rows[i].id,
                    replay: false,
                };
                let ghost model = action.deep_view();
                actions.push(action);
                proof {
                    let rest = wanted_fills(view, kept, *zones, i + 1);
                    assert(before + (seq![model] + rest) =~= before.push(model) + rest);
                }
            }
            proof {
                assert(self.slots@[i as int] == full[i as int]);
            }
            i += 1;
        }
        proof {
            assert(self.slots@ =~= full);
            assert(actions.deep_view() =~= all);
        }
        actions
    }

    /// Brings the window up to date with the scroll position. `retyped` are the rows that a change
    /// of typography affects, if there was one.
    pub fn sync_window(
        &mut self,
        zones: Option<Zones>,
        retyped: Option<Vec<usize>>,
        jump_visible: bool,
    ) -> (actions: Vec<ViewAction>)
        requires
            old(self)@.wf(),
            retyped is Some ==> forall|i: int|
                0 <= i < retyped->0@.len() ==> #[trigger] retyped->0@[i] < usize::MAX,
        ensures
            final(self)@.wf(),
            (final(self)@, actions.deep_view()) == window_synced(
                old(self)@,
                zones,
                match retyped {
                    Some(rows) => Some(rows@),
                    None => None,
                },
                jump_visible,
            ),
    {
        let ghost view = self@;
        let ghost measured = match &retyped {
            Some(rows) => remeasure_actions(runs(ascending(rows@), 0)),
            None => Seq::empty(),
        };
        let mut actions: Vec<ViewAction> = Vec::new();
        let typography_changed = retyped.is_some();
        match &retyped {
            Some(rows) => append_actions(&mut actions, remeasure_rows(rows.as_slice())),
            None => {},
        }
        proof {
            assert(actions.deep_view() =~= measured);
        }
        let gone = match zones {
            Some(zones) => self.release_outside(zones),
            None => Vec::new(),
        };
        append_actions(&mut actions, gone);
        let fills = self.fill_wanted(&zones, Ghost(view));
        let filled = fills.len() > 0;
        append_actions(&mut actions, fills);
        append_actions(&mut actions, self.settle(filled || typography_changed, jump_visible));
        actions
    }

    /// Ends bringing the window up to date.
    fn settle(&mut self, changed: bool, jump_visible: bool) -> (actions: Vec<ViewAction>)
        ensures
            final(self)@ == (ViewState {
                sync_scheduled: false,
                pending: Seq::empty(),
                window_dirty: false,
                jump_visible,
                ..old(self)@
            }),
            actions.deep_view() == notices(
                jump_visible != old(self)@.jump_visible,
                old(self)@.window_dirty || changed,
            ),
    {
        let mut actions: Vec<ViewAction> = Vec::new();
        if jump_visible != self.jump_visible {
            self.jump_visible = jump_visible;
            actions.push(ViewAction::Notify);
        }
        if self.window_dirty || changed {
            actions.push(ViewAction::Notify);
        }
        self.window_dirty = false;
        self.pending_materialize = Vec::new();
        self.sync_scheduled = false;
        proof {
            assert(actions.deep_view() =~= notices(
                jump_visible != old(self)@.jump_visible,
                old(self)@.window_dirty || changed,
            ));
        }
        actions
    }

    /// How many rows hold content.
    pub fn materialized_row_count(&self) -> (count: usize)
        ensures
            count == self@.slots.filter(|slot: RowSlot| slot.materialized).len(),
    {
        let ghost holds = |slot: RowSlot| slot.materialized;
        let mut count: usize = 0;
        let mut i: usize = 0;
        proof {
            assert(self.slots@.take(0) =~= Seq::<RowSlot>::empty());
            reveal_with_fuel(Seq::filter, 2);
        }
        while i < self.slots.len()
            invariant
                forall|slot: RowSlot| #[trigger] holds(slot) == slot.materialized,
                i <= self.slots@.len(),
                count <= i,
                count == self.slots@.take(i as int).filter(holds).len(),
            decreases self.slots@.len() - i,
        {
            proof {
                let longer = self.slots@.take(i + 1);
                assert(longer.drop_last() =~= self.slots@.take(i as int));
                reveal(Seq::filter);
            }
            if self.slots[i].materialized {
                count += 1;
            }
            i += 1;
        }
        proof {
            assert(self.slots@.take(i as int) =~= self.slots@);
        }
        count
    }

    /// Draws a row.
    pub fn render_row(&mut self, index: usize) -> (drawn: (RowFace, Vec<ViewAction>))
        ensures
            drawn.0 == face_of(old(self)@, index as int),
            (final(self)@, drawn.1.deep_view()) == row_drawn(old(self)@, index as int),
            old(self)@.wf() ==> final(self)@.wf(),
    {
        if index >= self.rows.len() {
            let none: Vec<ViewAction> = Vec::new();
            return (RowFace::Missing, none);
        }
        let row = self.rows[index];
        let materialized = index < self.slots.len() && self.slots[index].materialized;
        if !materialized {
            self.pending_materialize.push(row.id);
            self.window_dirty = true;
            return (RowFace::Placeholder, self.schedule_sync());
        }
        let waiting = match self.waiting_turn {
            Some(turn) => turn == row.id.turn,
            None => false,
        };
        let face = if waiting {
            if row.first_in_turn {
                RowFace::Shimmer
            } else {
                RowFace::Hidden
            }
        } else {
            RowFace::Content
        };
        (face, self.schedule_sync())
    }

    /// Where a request to open or close a row leads. An open group has replaced its own row, so it
    /// has no place in the list.
    pub fn toggle_row_disclosure(&self, row_id: RowId, group: bool) -> (route: DisclosureRoute)
        ensures
            route == if group {
                DisclosureRoute::Group
            } else {
                match index_of_row(self@.rows, row_id) {
                    Some(index) => DisclosureRoute::Row(index),
                    None => DisclosureRoute::Nowhere,
                }
            },
    {
        if group {
            return DisclosureRoute::Group;
        }
        match row_index(&self.rows, row_id) {
            Some(index) => DisclosureRoute::Row(index),
            None => DisclosureRoute::Nowhere,
        }
    }

    /// Whether the measured height of a row is to be kept: the rows of a streaming turn still grow.
    pub fn is_settled(&self, row_id: RowId) -> (yes: bool)
        ensures
            yes == (self@.streaming_turn != Some(row_id.turn)),
    {
        match self.streaming_turn {
            Some(turn) => turn != row_id.turn,
            None => true,
        }
    }

    /// Whether a row shows nothing: it keeps a place for an answer that nobody waits for.
    pub fn is_invisible(&self, row_id: RowId) -> (yes: bool)
        ensures
            yes == (self@.waiting_turn != Some(row_id.turn) && row_id.kind
                == RowKind::AssistantProse && row_id.part == PartId(0)),
    {
        let waiting = match self.waiting_turn {
            Some(turn) => turn == row_id.turn,
            None => false,
        };
        !waiting && row_id.kind == RowKind::AssistantProse && row_id.part == PartId::none()
    }

    /// Empties the bubbles of the user, so that they come back in another presentation.
    pub fn release_user_bubble_rows(&mut self) -> (actions: Vec<ViewAction>)
        ensures
            ({
                let before = old(self)@;
                let emptied = ViewState {
                    slots: Seq::new(
                        before.slots.len(),
                        |i: int|
                            RowSlot {
                                id: before.slots[i].id,
                                materialized: before.slots[i].materialized
                                    && before.slots[i].id.kind != RowKind::UserBubble,
                            },
                    ),
                    window_dirty: true,
                    ..before
                };
                let (next, sync) = sync_scheduled(emptied);
                &&& final(self)@ == next
                &&& actions.deep_view() == released(before.slots, Some(RowKind::UserBubble), 0)
                    + sync
            }),
    {
        let ghost before = self@;
        let ghost kept = Seq::new(
            before.slots.len(),
            |i: int|
                RowSlot {
                    id: before.slots[i].id,
                    materialized: before.slots[i].materialized && before.slots[i].id.kind
                        != RowKind::UserBubble,
                },
        );
        let mut actions = release_slots(&self.slots, Some(RowKind::UserBubble));
        let mut i: usize = 0;
        while i < self.slots.len()
            invariant
                self@ == (ViewState { slots: self.slots@, ..before }),
                self.slots@.len() == before.slots.len(),
                kept.len() == before.slots.len(),
                i <= self.slots@.len(),
                forall|k: int| 0 <= k < i ==> #[trigger] self.slots@[k] == kept[k],
                forall|k: int|
                    i <= k < before.slots.len() ==> #[trigger] self.slots@[k] == before.slots[k],
                forall|k: int|
                    0 <= k < kept.len() ==> #[trigger] kept[k] == (RowSlot {
                        id: before.slots[k].id,
                        materialized: before.slots[k].materialized && before.slots[k].id.kind
                            != RowKind::UserBubble,
                    }),
            decreases self.slots@.len() - i,
        {
            let slot = self.slots[i];
            if slot.id.kind == RowKind::UserBubble && slot.materialized {
                self.slots.set(i, RowSlot { id: slot.id, materialized: false });
            }
            proof {
                assert(self.slots@[i as int] == kept[i as int]);
            }
            i += 1;
        }
        proof {
            assert(self.slots@ =~= kept);
        }
        self.window_dirty = true;
        append_actions(&mut actions, self.schedule_sync());
        actions
    }

    /// Gives the rows back, with every renderer emptied.
    pub fn cool_down(&mut self) -> (cooled: (Vec<Row>, Vec<ViewAction>))
        ensures
            cooled.0@ == old(self)@.rows,
            cooled.1.deep_view() == released(old(self)@.slots, None, 0),
            final(self)@ == (ViewState {
                rows: Seq::empty(),
                slots: Seq::empty(),
                ..old(self)@
            }),
            final(self)@.wf(),
    {
        let actions = release_slots(&self.slots, None);
        let mut rows: Vec<Row> = Vec::new();
        std::mem::swap(&mut rows, &mut self.rows);
        self.slots = Vec::new();
        (rows, actions)
    }

    /// Whether the reader is close enough to the top to load an earlier page, and there is one.
    pub fn wants_prepend(&self, snapshot: &TranscriptSnapshot, top_row: usize) -> (yes: bool)
        ensures
            yes == (snapshot.has_earlier && top_row < PREPEND_TRIGGER_ROWS),
    {
        snapshot.has_earlier && top_row < PREPEND_TRIGGER_ROWS
    }

    /// Remembers the row at the top before earlier rows move it down.
    pub fn capture_prepend_anchor(&mut self, top_row: usize)
        ensures
            final(self)@ == if top_row < old(self)@.rows.len() {
                ViewState { prepend_anchor: Some(old(self)@.rows[top_row as int].id), ..old(self)@ }
            } else {
                old(self)@
            },
    {
        if top_row < self.rows.len() {
            self.prepend_anchor = Some(self.rows[top_row].id);
        }
    }

    /// Where the remembered row is now, to scroll to.
    pub fn restore_prepend_anchor(&mut self) -> (top_row: Option<usize>)
        ensures
            final(self)@ == (ViewState { prepend_anchor: None, ..old(self)@ }),
            top_row == match old(self)@.prepend_anchor {
                Some(id) => index_of_row(old(self)@.rows, id),
                None => None,
            },
    {
        let anchor = self.prepend_anchor;
        self.prepend_anchor = None;
        match anchor {
            Some(id) => row_index(&self.rows, id),
            None => None,
        }
    }

    #[must_use]
    pub fn show_jump_button(&self) -> (yes: bool)
        ensures
            yes == self@.jump_visible,
    {
        self.jump_visible
    }

    /// Goes to the latest row: the button that leads there goes.
    pub fn jump_to_latest(&mut self)
        ensures
            final(self)@ == (ViewState { jump_visible: false, ..old(self)@ }),
    {
        self.jump_visible = false;
    }
}

proof fn lemma_position_bound(rows: Seq<Row>, id: RowId, at: int, start: int)
    requires
        0 <= start <= at < rows.len(),
        rows[at].id == id,
    ensures
        start <= row_position(rows, id, start) <= at,
    decreases at - start,
{
    if start < at && rows[start].id != id {
        lemma_position_bound(rows, id, at, start + 1);
    }
}

/// A row that is remembered is found again wherever earlier rows have moved it, as long as rows are
/// told apart by their identifiers.
pub proof fn the_anchor_is_found_again(earlier: Seq<Row>, rows: Seq<Row>, top: int)
    requires
        0 <= top < rows.len(),
        forall|i: int, j: int|
            0 <= i < j < (earlier + rows).len() ==> (earlier + rows)[i].id != (earlier
                + rows)[j].id,
        earlier.len() + rows.len() <= usize::MAX,
    ensures
        index_of_row(earlier + rows, rows[top].id) == Some((earlier.len() + top) as usize),
{
    let all = earlier + rows;
    let at = earlier.len() + top;
    assert(all[at] == rows[top]);
    lemma_position_bound(all, rows[top].id, at as int, 0);
    lemma_position_is_asked(all, rows[top].id, 0);
    let found = row_position(all, rows[top].id, 0);
    if found < at {
        assert(all[found].id != all[at as int].id);
    }
}

proof fn lemma_position_is_asked(rows: Seq<Row>, id: RowId, start: int)
    requires
        0 <= start <= rows.len(),
    ensures
        start <= row_position(rows, id, start) <= rows.len(),
        row_position(rows, id, start) < rows.len() ==> rows[row_position(rows, id, start)].id
            == id,
    decreases rows.len() - start,
{
    if start < rows.len() && rows[start].id != id {
        lemma_position_is_asked(rows, id, start + 1);
    }
}

} // verus!
