//! Which rows hold content, and what the list has to do about a change of the transcript.

use vstd::prelude::*;

use crate::chat::transcript::transcript::TranscriptEventModel;
use crate::chat::view::rows::{
    ProjectionDiff, Row, RowChangeKind, RowChangeModel, RowId, RowSlot, ViewAction, ViewActionModel,
};

verus! {

broadcast use crate::deep::group_models;

/// Rows near the top that make the view load an earlier page.
pub const PREPEND_TRIGGER_ROWS: usize = 8;

/// The first row with the identifier, from position `start` on, or the number of rows.
pub open spec fn row_position(rows: Seq<Row>, id: RowId, start: int) -> int
    decreases rows.len() - start,
{
    if start >= rows.len() || rows[start].id == id {
        start
    } else {
        row_position(rows, id, start + 1)
    }
}

/// The position of a row.
pub open spec fn index_of_row(rows: Seq<Row>, id: RowId) -> Option<usize> {
    let at = row_position(rows, id, 0);
    if 0 <= at < rows.len() {
        Some(at as usize)
    } else {
        None
    }
}

pub fn row_index(rows: &Vec<Row>, id: RowId) -> (index: Option<usize>)
    ensures
        index == index_of_row(rows@, id),
        index is Some ==> index->0 < rows@.len(),
{
    let mut i: usize = 0;
    while i < rows.len()
        invariant
            i <= rows@.len(),
            row_position(rows@, id, 0) == row_position(rows@, id, i as int),
        decreases rows@.len() - i,
    {
        if rows[i].id == id {
            return Some(i);
        }
        i += 1;
    }
    None
}

/// The last of the first `end` slots that was made for a row, or -1.
pub open spec fn last_slot(slots: Seq<RowSlot>, id: RowId, end: int) -> int
    decreases end,
{
    if end <= 0 {
        -1
    } else if slots[end - 1].id == id {
        end - 1
    } else {
        last_slot(slots, id, end - 1)
    }
}

/// The slot whose renderer row `i` takes over: the one that was made for it, unless an earlier row
/// has it.
pub open spec fn reused_slot(slots: Seq<RowSlot>, rows: Seq<Row>, i: int) -> Option<usize> {
    let at = last_slot(slots, rows[i].id, slots.len() as int);
    if at < 0 || row_position(rows, rows[i].id, 0) < i {
        None
    } else {
        Some(at as usize)
    }
}

/// For every row, the slot whose renderer it takes over.
pub open spec fn reused_slots(slots: Seq<RowSlot>, rows: Seq<Row>) -> Seq<Option<usize>> {
    Seq::new(rows.len(), |i: int| reused_slot(slots, rows, i))
}

/// One slot per row. A renderer that a row takes over keeps its content.
pub open spec fn slots_for(slots: Seq<RowSlot>, rows: Seq<Row>) -> Seq<RowSlot> {
    Seq::new(
        rows.len(),
        |i: int|
            RowSlot {
                id: rows[i].id,
                materialized: match reused_slot(slots, rows, i) {
                    Some(at) => slots[at as int].materialized,
                    None => false,
                },
            },
    )
}

/// Whether there is one slot for each row, in order.
pub open spec fn aligned(slots: Seq<RowSlot>, rows: Seq<Row>) -> bool {
    &&& slots.len() == rows.len()
    &&& forall|i: int| 0 <= i < rows.len() ==> (#[trigger] slots[i]).id == rows[i].id
}

/// A row that was there keeps its renderer, wherever it moved, as long as rows are told apart by
/// their identifiers.
pub proof fn renderers_follow_their_rows(
    before: Seq<RowSlot>,
    rows: Seq<Row>,
    from: int,
    to: int,
)
    requires
        0 <= from < before.len(),
        0 <= to < rows.len(),
        before[from].id == rows[to].id,
        forall|i: int, j: int| 0 <= i < j < before.len() ==> before[i].id != before[j].id,
        forall|i: int, j: int| 0 <= i < j < rows.len() ==> rows[i].id != rows[j].id,
        before.len() <= usize::MAX,
    ensures
        reused_slot(before, rows, to) == Some(from as usize),
        slots_for(before, rows)[to].materialized == before[from].materialized,
{
    lemma_last_slot_is(before, rows[to].id, from, before.len() as int);
    lemma_row_position_is(rows, rows[to].id, to, 0);
}

proof fn lemma_last_slot_is(slots: Seq<RowSlot>, id: RowId, at: int, end: int)
    requires
        0 <= at < end <= slots.len(),
        slots[at].id == id,
        forall|i: int, j: int| 0 <= i < j < slots.len() ==> slots[i].id != slots[j].id,
    ensures
        last_slot(slots, id, end) == at,
    decreases end,
{
    if at < end - 1 {
        assert(slots[at].id != slots[end - 1].id);
        lemma_last_slot_is(slots, id, at, end - 1);
    }
}

proof fn lemma_row_position_is(rows: Seq<Row>, id: RowId, at: int, start: int)
    requires
        0 <= start <= at < rows.len(),
        rows[at].id == id,
        forall|i: int, j: int| 0 <= i < j < rows.len() ==> rows[i].id != rows[j].id,
    ensures
        row_position(rows, id, start) == at,
    decreases at - start,
{
    if start < at {
        assert(rows[start].id != rows[at].id);
        lemma_row_position_is(rows, id, at, start + 1);
    }
}

/// The content changes that reach a renderer, from position `start` on.
pub open spec fn changes_from(
    changes: Seq<(RowId, RowChangeKind)>,
    start: int,
    rows: Seq<Row>,
    slots: Seq<RowSlot>,
    event: TranscriptEventModel,
) -> Seq<ViewActionModel>
    decreases changes.len() - start,
{
    if start < 0 || start >= changes.len() {
        Seq::empty()
    } else {
        let rest = changes_from(changes, start + 1, rows, slots, event);
        match change_action(changes[start], rows, slots, event) {
            Some(action) => seq![action] + rest,
            None => rest,
        }
    }
}

/// What a content change asks of the renderer of its row, if the row is there and holds content.
pub open spec fn change_action(
    change: (RowId, RowChangeKind),
    rows: Seq<Row>,
    slots: Seq<RowSlot>,
    event: TranscriptEventModel,
) -> Option<ViewActionModel> {
    match index_of_row(rows, change.0) {
        None => None,
        Some(index) => if index >= slots.len() || !slots[index as int].materialized {
            None
        } else {
            match (change.1, event) {
                (RowChangeKind::Append, TranscriptEventModel::PartChanged { delta, .. }) => Some(
                    ViewActionModel::Change {
                        index,
                        row_id: change.0,
                        change: RowChangeModel::Append { delta },
                    },
                ),
                (RowChangeKind::Append, _) => None,
                (RowChangeKind::Finished, _) => Some(
                    ViewActionModel::Change {
                        index,
                        row_id: change.0,
                        change: RowChangeModel::Finished,
                    },
                ),
                (RowChangeKind::Replace, _) => Some(
                    ViewActionModel::Change {
                        index,
                        row_id: change.0,
                        change: RowChangeModel::Replace,
                    },
                ),
            }
        },
    }
}

/// What a change of the set of rows asks of the list.
pub open spec fn diff_actions(diff: ProjectionDiff, count: nat) -> Seq<ViewActionModel> {
    match diff {
        ProjectionDiff::Unchanged => Seq::empty(),
        ProjectionDiff::Splice { start, end, inserted } => seq![
            ViewActionModel::Splice { start, end, inserted },
        ],
        ProjectionDiff::Rebuild => seq![ViewActionModel::Reset { count: count as usize }],
    }
}

/// The place of a number in an ascending list, from position `start` on.
pub open spec fn slot_of(sorted: Seq<usize>, x: usize, start: int) -> int
    decreases sorted.len() - start,
{
    if start >= sorted.len() || sorted[start] >= x {
        start
    } else {
        slot_of(sorted, x, start + 1)
    }
}

/// An ascending list with one more number, unless it holds it.
pub open spec fn with_number(sorted: Seq<usize>, x: usize) -> Seq<usize> {
    let at = slot_of(sorted, x, 0);
    if at < sorted.len() && sorted[at] == x {
        sorted
    } else {
        sorted.insert(at, x)
    }
}

/// The numbers in ascending order, each once.
pub open spec fn ascending(numbers: Seq<usize>) -> Seq<usize>
    decreases numbers.len(),
{
    if numbers.len() == 0 {
        Seq::empty()
    } else {
        with_number(ascending(numbers.drop_last()), numbers.last())
    }
}

/// Whether every number is above the one before.
pub open spec fn rising(numbers: Seq<usize>) -> bool {
    forall|i: int, j: int| 0 <= i < j < numbers.len() ==> numbers[i] < numbers[j]
}

proof fn lemma_slot_of(sorted: Seq<usize>, x: usize, start: int)
    requires
        0 <= start <= sorted.len(),
    ensures
        start <= slot_of(sorted, x, start) <= sorted.len(),
        forall|i: int| start <= i < slot_of(sorted, x, start) ==> #[trigger] sorted[i] < x,
        slot_of(sorted, x, start) < sorted.len() ==> sorted[slot_of(sorted, x, start)] >= x,
    decreases sorted.len() - start,
{
    if start < sorted.len() && sorted[start] < x {
        lemma_slot_of(sorted, x, start + 1);
    }
}

proof fn lemma_with_number(sorted: Seq<usize>, x: usize)
    requires
        rising(sorted),
    ensures
        rising(with_number(sorted, x)),
        forall|y: usize| #[trigger]
            with_number(sorted, x).contains(y) <==> (sorted.contains(y) || y == x),
{
    lemma_slot_of(sorted, x, 0);
    let at = slot_of(sorted, x, 0);
    let result = with_number(sorted, x);
    if at < sorted.len() && sorted[at] == x {
    } else {
        assert forall|y: usize| #[trigger] result.contains(y) <==> (sorted.contains(y) || y == x) by {
            if sorted.contains(y) {
                let i = choose|i: int| 0 <= i < sorted.len() && sorted[i] == y;
                if i < at {
                    assert(result[i] == y);
                } else {
                    assert(result[i + 1] == y);
                }
            }
            if y == x {
                assert(result[at] == y);
            }
            if result.contains(y) {
                let i = choose|i: int| 0 <= i < result.len() && result[i] == y;
                if i < at {
                    assert(sorted[i] == y);
                } else if i > at {
                    assert(sorted[i - 1] == y);
                }
            }
        }
    }
}

/// The list in ascending order rises, and holds the same numbers.
pub proof fn ascending_numbers_are_the_same(numbers: Seq<usize>)
    ensures
        rising(ascending(numbers)),
        forall|y: usize| #[trigger] ascending(numbers).contains(y) <==> numbers.contains(y),
    decreases numbers.len(),
{
    if numbers.len() > 0 {
        let rest = numbers.drop_last();
        let last = numbers.last();
        ascending_numbers_are_the_same(rest);
        lemma_with_number(ascending(rest), last);
        assert forall|y: usize| #[trigger] ascending(numbers).contains(y) <==> numbers.contains(y) by {
            if numbers.contains(y) && y != last {
                let i = choose|i: int| 0 <= i < numbers.len() && numbers[i] == y;
                assert(rest[i] == y);
                assert(rest.contains(y));
                assert(ascending(rest).contains(y));
            }
            if rest.contains(y) {
                let i = choose|i: int| 0 <= i < rest.len() && rest[i] == y;
                assert(numbers[i] == y);
            }
            if y == last {
                assert(numbers[numbers.len() - 1] == y);
            }
            if ascending(numbers).contains(y) && y != last {
                assert(ascending(rest).contains(y));
            }
        }
    }
}

fn in_ascending_order(numbers: &[usize]) -> (sorted: Vec<usize>)
    ensures
        sorted@ == ascending(numbers@),
{
    let mut sorted: Vec<usize> = Vec::new();
    let mut i: usize = 0;
    proof {
        assert(numbers@.take(0) =~= Seq::<usize>::empty());
    }
    while i < numbers.len()
        invariant
            i <= numbers@.len(),
            sorted@ == ascending(numbers@.take(i as int)),
        decreases numbers@.len() - i,
    {
        let x = numbers[i];
        let mut at: usize = 0;
        while at < sorted.len() && sorted[at] < x
            invariant
                at <= sorted@.len(),
                slot_of(sorted@, x, 0) == slot_of(sorted@, x, at as int),
            decreases sorted@.len() - at,
        {
            at += 1;
        }
        if at < sorted.len() && sorted[at] == x {
        } else {
            sorted.insert(at, x);
        }
        proof {
            assert(numbers@.take(i + 1).drop_last() =~= numbers@.take(i as int));
        }
        i += 1;
    }
    proof {
        assert(numbers@.take(i as int) =~= numbers@);
    }
    sorted
}

/// Where the run of consecutive numbers that goes through position `at` ends.
pub open spec fn run_end(sorted: Seq<usize>, at: int) -> int
    decreases sorted.len() - at,
{
    if 0 <= at && at + 1 < sorted.len() && sorted[at + 1] == sorted[at] + 1 {
        run_end(sorted, at + 1)
    } else {
        at
    }
}

/// The runs of consecutive numbers, from position `start` on, each from its first number up to the
/// one after its last.
pub open spec fn runs(sorted: Seq<usize>, start: int) -> Seq<(usize, usize)>
    decreases sorted.len() - start,
    via runs_decreases
{
    if start < 0 || start >= sorted.len() {
        Seq::empty()
    } else {
        let end = run_end(sorted, start);
        seq![(sorted[start], (sorted[end] + 1) as usize)] + runs(sorted, end + 1)
    }
}

#[via_fn]
proof fn runs_decreases(sorted: Seq<usize>, start: int) {
    if 0 <= start < sorted.len() {
        lemma_run_end(sorted, start);
    }
}

pub proof fn lemma_run_end(sorted: Seq<usize>, at: int)
    requires
        0 <= at < sorted.len(),
    ensures
        at <= run_end(sorted, at) < sorted.len(),
        forall|i: int| at <= i <= run_end(sorted, at) ==> #[trigger] sorted[i] == sorted[at] + (i - at),
        run_end(sorted, at) + 1 < sorted.len() ==> sorted[run_end(sorted, at) + 1]
            != sorted[run_end(sorted, at)] + 1,
    decreases sorted.len() - at,
{
    if at + 1 < sorted.len() && sorted[at + 1] == sorted[at] + 1 {
        lemma_run_end(sorted, at + 1);
    }
}

/// Whether a number lies in one of the runs.
pub open spec fn covered(ranges: Seq<(usize, usize)>, x: usize) -> bool {
    exists|k: int| 0 <= k < ranges.len() && (#[trigger] ranges[k]).0 <= x < ranges[k].1
}

proof fn lemma_runs(sorted: Seq<usize>, start: int)
    requires
        rising(sorted),
        0 <= start <= sorted.len(),
        forall|i: int| 0 <= i < sorted.len() ==> #[trigger] sorted[i] < usize::MAX,
    ensures
        forall|k: int|
            0 <= k < runs(sorted, start).len() ==> (#[trigger] runs(sorted, start)[k]).0 < runs(
                sorted,
                start,
            )[k].1,
        forall|j: int, k: int|
            0 <= j < k < runs(sorted, start).len() ==> runs(sorted, start)[j].1 < runs(
                sorted,
                start,
            )[k].0,
        start < sorted.len() ==> forall|k: int|
            0 <= k < runs(sorted, start).len() ==> (#[trigger] runs(sorted, start)[k]).0
                >= sorted[start],
        forall|x: usize| #[trigger]
            covered(runs(sorted, start), x) <==> sorted.skip(start).contains(x),
    decreases sorted.len() - start,
{
    let all = runs(sorted, start);
    if start < sorted.len() {
        lemma_run_end(sorted, start);
        let end = run_end(sorted, start);
        lemma_runs(sorted, end + 1);
        let rest = runs(sorted, end + 1);
        let first = (sorted[start], (sorted[end] + 1) as usize);
        assert(sorted[end] == sorted[start] + (end - start));
        assert forall|k: int| 0 <= k < rest.len() implies first.1 < (#[trigger] rest[k]).0 by {
            assert(end + 1 < sorted.len());
            assert(sorted[end + 1] > sorted[end]);
            assert(rest[k].0 >= sorted[end + 1]);
        }
        assert forall|j: int, k: int| 0 <= j < k < all.len() implies all[j].1 < all[k].0 by {
            assert(all[k] == rest[k - 1]);
            if j > 0 {
                assert(all[j] == rest[j - 1]);
            }
        }
        assert forall|k: int| 0 <= k < all.len() implies (#[trigger] all[k]).0 < all[k].1
            && all[k].0 >= sorted[start] by {
            if k > 0 {
                assert(all[k] == rest[k - 1]);
                assert(first.1 < rest[k - 1].0);
            }
        }
        assert forall|x: usize| #[trigger] covered(all, x) <==> sorted.skip(start).contains(x) by {
            if covered(all, x) {
                let k = choose|k: int| 0 <= k < all.len() && (#[trigger] all[k]).0 <= x < all[k].1;
                if k == 0 {
                    let i = start + (x - sorted[start]);
                    assert(sorted[i] == x);
                    assert(sorted.skip(start)[i - start] == x);
                } else {
                    assert(all[k] == rest[k - 1]);
                    assert(covered(rest, x));
                    let tail = sorted.skip(end + 1);
                    assert(tail.contains(x));
                    let i = choose|i: int| 0 <= i < tail.len() && tail[i] == x;
                    assert(sorted.skip(start)[i + end + 1 - start] == x);
                }
            }
            if sorted.skip(start).contains(x) {
                let tail = sorted.skip(start);
                let i = choose|i: int| 0 <= i < tail.len() && tail[i] == x;
                if i + start <= end {
                    assert(sorted[i + start] == x);
                    assert(all[0].0 <= x < all[0].1);
                } else {
                    assert(sorted.skip(end + 1)[i + start - end - 1] == x);
                    assert(covered(rest, x));
                    let k = choose|k: int|
                        0 <= k < rest.len() && (#[trigger] rest[k]).0 <= x < rest[k].1;
                    assert(all[k + 1].0 <= x < all[k + 1].1);
                }
            }
        }
    } else {
        assert forall|x: usize| !(#[trigger] covered(all, x)) && !sorted.skip(start).contains(x) by {}
    }
}

/// The ranges in which rows are measured again hold exactly those rows, and are the fewest: no two
/// of them touch.
pub proof fn ranges_hold_their_rows(rows: Seq<usize>)
    requires
        forall|i: int| 0 <= i < rows.len() ==> #[trigger] rows[i] < usize::MAX,
    ensures
        forall|x: usize| #[trigger] covered(runs(ascending(rows), 0), x) <==> rows.contains(x),
        forall|j: int, k: int|
            0 <= j < k < runs(ascending(rows), 0).len() ==> runs(ascending(rows), 0)[j].1 < runs(
                ascending(rows),
                0,
            )[k].0,
{
    ascending_numbers_are_the_same(rows);
    let sorted = ascending(rows);
    assert forall|i: int| 0 <= i < sorted.len() implies #[trigger] sorted[i] < usize::MAX by {
        assert(sorted.contains(sorted[i]));
        assert(rows.contains(sorted[i]));
    }
    lemma_runs(sorted, 0);
    assert(sorted.skip(0) =~= sorted);
}

/// The requests to measure ranges again, from position `start` on.
pub open spec fn remeasure_actions(ranges: Seq<(usize, usize)>) -> Seq<ViewActionModel> {
    Seq::new(
        ranges.len(),
        |i: int| ViewActionModel::Remeasure { start: ranges[i].0, end: ranges[i].1 },
    )
}

/// Measures rows again, merged into the fewest ranges.
pub fn remeasure_rows(rows: &[usize]) -> (actions: Vec<ViewAction>)
    requires
        forall|i: int| 0 <= i < rows@.len() ==> #[trigger] rows@[i] < usize::MAX,
    ensures
        actions.deep_view() == remeasure_actions(runs(ascending(rows@), 0)),
{
    let sorted = in_ascending_order(rows);
    let ghost all = runs(sorted@, 0);
    let ghost mut made: Seq<(usize, usize)> = Seq::empty();
    let mut actions: Vec<ViewAction> = Vec::new();
    let mut i: usize = 0;
    proof {
        ascending_numbers_are_the_same(rows@);
        assert forall|k: int| 0 <= k < sorted@.len() implies #[trigger] sorted@[k] < usize::MAX by {
            assert(sorted@.contains(sorted@[k]));
            assert(rows@.contains(sorted@[k]));
        }
        assert(actions.deep_view() =~= remeasure_actions(made));
        assert(made + all =~= all);
    }
    while i < sorted.len()
        invariant
            i <= sorted@.len(),
            all == runs(sorted@, 0),
            forall|k: int| 0 <= k < sorted@.len() ==> #[trigger] sorted@[k] < usize::MAX,
            actions.deep_view() == remeasure_actions(made),
            made + runs(sorted@, i as int) == all,
        decreases sorted@.len() - i,
    {
        let ghost first = i as int;
        let mut end: usize = i;
        while end + 1 < sorted.len() && sorted[end + 1] == sorted[end] + 1
            invariant
                first <= end < sorted@.len(),
                forall|k: int| 0 <= k < sorted@.len() ==> #[trigger] sorted@[k] < usize::MAX,
                run_end(sorted@, first) == run_end(sorted@, end as int),
            decreases sorted@.len() - end,
        {
            end += 1;
        }
        let range = (sorted[i], sorted[end] + 1);
        actions.push(ViewAction::Remeasure { start: range.0, end: range.1 });
        proof {
            let rest = runs(sorted@, end + 1);
            assert(made + (seq![range] + rest) =~= made.push(range) + rest);
            assert(remeasure_actions(made.push(range)) =~= remeasure_actions(made).push(
                ViewActionModel::Remeasure { start: range.0, end: range.1 },
            ));
            made = made.push(range);
        }
        i = end + 1;
    }
    proof {
        assert(made =~= all);
    }
    actions
}

} // verus!
