//! Which turn the pointer is over.

use vstd::prelude::*;

use crate::chat::transcript::model::TurnId;

verus! {

/// How many rows of a turn claim the pointer, turn by turn.
pub open spec fn claims_from(counts: Seq<(TurnId, u32)>, turn: TurnId, start: int) -> u32
    decreases counts.len() - start,
{
    if start < 0 || start >= counts.len() {
        0
    } else if counts[start].0 == turn {
        counts[start].1
    } else {
        claims_from(counts, turn, start + 1)
    }
}

/// How many rows of a turn claim the pointer.
pub open spec fn claims(counts: Seq<(TurnId, u32)>, turn: TurnId) -> u32 {
    claims_from(counts, turn, 0)
}

/// The place of a turn, from position `start` on, or the number of places.
pub open spec fn claim_position(counts: Seq<(TurnId, u32)>, turn: TurnId, start: int) -> int
    decreases counts.len() - start,
{
    if start >= counts.len() || counts[start].0 == turn {
        start
    } else {
        claim_position(counts, turn, start + 1)
    }
}

/// The claims after a row of the turn reported that the pointer entered or left it.
pub open spec fn counted(counts: Seq<(TurnId, u32)>, turn: TurnId, entered: bool) -> Seq<
    (TurnId, u32),
> {
    let at = claim_position(counts, turn, 0);
    if entered {
        if at < counts.len() {
            counts.update(at, (turn, (counts[at].1 + 1) as u32))
        } else {
            counts.push((turn, 1))
        }
    } else if at >= counts.len() {
        counts
    } else if counts[at].1 <= 1 {
        counts.remove(at)
    } else {
        counts.update(at, (turn, (counts[at].1 - 1) as u32))
    }
}

/// The turn that the pointer is over: the one entered last while it has claims, else the first
/// that has.
pub open spec fn resolved(counts: Seq<(TurnId, u32)>, last_entered: Option<TurnId>) -> Option<
    TurnId,
> {
    if last_entered is Some && claim_position(counts, last_entered->0, 0) < counts.len() {
        last_entered
    } else if counts.len() > 0 {
        Some(counts[0].0)
    } else {
        None
    }
}

/// Each turn is counted once, and only while it has claims.
pub open spec fn counts_wf(counts: Seq<(TurnId, u32)>) -> bool {
    &&& forall|i: int, j: int| 0 <= i < j < counts.len() ==> counts[i].0 != counts[j].0
    &&& forall|i: int| 0 <= i < counts.len() ==> (#[trigger] counts[i]).1 > 0
}

/// What a [`HoverState`] stands for.
pub struct HoverModel {
    pub counts: Seq<(TurnId, u32)>,
    pub last_entered: Option<TurnId>,
    pub hovered: Option<TurnId>,
    pub parked: bool,
}

impl HoverModel {
    pub open spec fn wf(self) -> bool {
        counts_wf(self.counts)
    }
}

/// The state after a report. A pointer that rests where it was parked reports nothing: the rows
/// moved, not the pointer.
pub open spec fn hover_reported(state: HoverModel, turn: TurnId, entered: bool, rests: bool) -> HoverModel {
    if state.parked && rests {
        state
    } else {
        let counts = counted(state.counts, turn, entered);
        let last_entered = if entered {
            Some(turn)
        } else {
            state.last_entered
        };
        HoverModel {
            counts,
            last_entered,
            hovered: resolved(counts, last_entered),
            parked: false,
        }
    }
}

/// Which turn the pointer is over. One move of the pointer makes the rows report in any order, so
/// their claims are counted.
pub struct HoverState {
    pub counts: Vec<(TurnId, u32)>,
    pub last_entered: Option<TurnId>,
    pub hovered: Option<TurnId>,
    pub parked: bool,
}

impl View for HoverState {
    type V = HoverModel;

    open spec fn view(&self) -> HoverModel {
        HoverModel {
            counts: self.counts@,
            last_entered: self.last_entered,
            hovered: self.hovered,
            parked: self.parked,
        }
    }
}

impl HoverState {
    pub fn new() -> (state: Self)
        ensures
            state@.wf(),
            state@ == (HoverModel {
                counts: Seq::empty(),
                last_entered: None,
                hovered: None,
                parked: false,
            }),
    {
        HoverState { counts: Vec::new(), last_entered: None, hovered: None, parked: false }
    }

    fn position(&self, turn: TurnId) -> (at: usize)
        ensures
            at == claim_position(self@.counts, turn, 0),
            at <= self@.counts.len(),
            at < self@.counts.len() ==> self@.counts[at as int].0 == turn,
            forall|i: int| 0 <= i < at ==> (#[trigger] self@.counts[i]).0 != turn,
    {
        let mut i: usize = 0;
        while i < self.counts.len() && self.counts[i].0 != turn
            invariant
                i <= self.counts@.len(),
                claim_position(self.counts@, turn, 0) == claim_position(
                    self.counts@,
                    turn,
                    i as int,
                ),
                forall|k: int| 0 <= k < i ==> (#[trigger] self.counts@[k]).0 != turn,
            decreases self.counts@.len() - i,
        {
            i += 1;
        }
        i
    }

    /// Takes in that the pointer entered or left a row of the turn. `rests` says that it is where
    /// it was when it was parked. The result says whether another turn is under the pointer now.
    pub fn handle_hover_turn(&mut self, turn: TurnId, entered: bool, rests: bool) -> (changed: bool)
        requires
            old(self)@.wf(),
            entered ==> claims(old(self)@.counts, turn) < u32::MAX,
        ensures
            final(self)@ == hover_reported(old(self)@, turn, entered, rests),
            final(self)@.wf(),
            changed == (final(self)@.hovered != old(self)@.hovered),
    {
        if self.parked {
            if rests {
                return false;
            }
            self.parked = false;
        }
        let ghost before = self.counts@;
        let at = self.position(turn);
        proof {
            lemma_claims(before, turn, 0);
        }
        if entered {
            if at < self.counts.len() {
                let count = self.counts[at].1;
                self.counts.set(at, (turn, count + 1));
            } else {
                self.counts.push((turn, 1));
            }
            self.last_entered = Some(turn);
        } else if at < self.counts.len() {
            let count = self.counts[at].1;
            if count <= 1 {
                let _ = self.counts.remove(at);
            } else {
                self.counts.set(at, (turn, count - 1));
            }
        }
        proof {
            lemma_counted_is_wf(before, turn, entered);
            assert(self.counts@ == counted(before, turn, entered));
        }
        let next = match self.last_entered {
            Some(last) => if self.position(last) < self.counts.len() {
                Some(last)
            } else {
                self.first_claim()
            },
            None => self.first_claim(),
        };
        let changed = match (self.hovered, next) {
            (Some(a), Some(b)) => a != b,
            (None, None) => false,
            _ => true,
        };
        self.hovered = next;
        changed
    }

    fn first_claim(&self) -> (turn: Option<TurnId>)
        ensures
            turn == if self@.counts.len() > 0 {
                Some(self@.counts[0].0)
            } else {
                None
            },
    {
        if self.counts.len() > 0 {
            Some(self.counts[0].0)
        } else {
            None
        }
    }

    /// Freezes what is under the pointer before rows slide underneath it.
    pub fn park_pointer(&mut self)
        ensures
            final(self)@ == (HoverModel { parked: true, ..old(self)@ }),
    {
        self.parked = true;
    }

    #[must_use]
    pub fn hovered_turn(&self) -> (turn: Option<TurnId>)
        ensures
            turn == self@.hovered,
    {
        self.hovered
    }
}

proof fn lemma_claims(counts: Seq<(TurnId, u32)>, turn: TurnId, start: int)
    requires
        0 <= start,
    ensures
        ({
            let at = claim_position(counts, turn, start);
            claims_from(counts, turn, start) == if at < counts.len() {
                counts[at].1
            } else {
                0
            }
        }),
    decreases counts.len() - start,
{
    if start < counts.len() && counts[start].0 != turn {
        lemma_claims(counts, turn, start + 1);
    }
}

proof fn lemma_claim_position(counts: Seq<(TurnId, u32)>, turn: TurnId, start: int)
    requires
        0 <= start <= counts.len(),
    ensures
        ({
            let at = claim_position(counts, turn, start);
            &&& start <= at <= counts.len()
            &&& at < counts.len() ==> counts[at].0 == turn
            &&& forall|i: int| start <= i < at ==> (#[trigger] counts[i]).0 != turn
        }),
    decreases counts.len() - start,
{
    if start < counts.len() && counts[start].0 != turn {
        lemma_claim_position(counts, turn, start + 1);
    }
}

proof fn lemma_counted_is_wf(counts: Seq<(TurnId, u32)>, turn: TurnId, entered: bool)
    requires
        counts_wf(counts),
        entered ==> claims(counts, turn) < u32::MAX,
    ensures
        counts_wf(counted(counts, turn, entered)),
{
    lemma_claim_position(counts, turn, 0);
    lemma_claims(counts, turn, 0);
}

/// What is known of a turn's claims where the place of its count is known.
proof fn lemma_claims_at(counts: Seq<(TurnId, u32)>, turn: TurnId, at: int)
    requires
        counts_wf(counts),
        0 <= at < counts.len(),
        counts[at].0 == turn,
    ensures
        claims(counts, turn) == counts[at].1,
{
    lemma_claims(counts, turn, 0);
    lemma_claim_position(counts, turn, 0);
    let found = claim_position(counts, turn, 0);
    if found < at {
        assert(counts[found].0 != counts[at].0);
    }
}

proof fn lemma_no_claims(counts: Seq<(TurnId, u32)>, turn: TurnId)
    requires
        forall|i: int| 0 <= i < counts.len() ==> (#[trigger] counts[i]).0 != turn,
    ensures
        claims(counts, turn) == 0,
{
    lemma_claims(counts, turn, 0);
    lemma_claim_position(counts, turn, 0);
}

/// A report changes the claims of its turn alone, by one: whatever the order of the reports, a turn
/// has as many claims as rows that were entered and not left.
pub proof fn reports_are_counted(
    counts: Seq<(TurnId, u32)>,
    turn: TurnId,
    entered: bool,
    other: TurnId,
)
    requires
        counts_wf(counts),
        entered ==> claims(counts, turn) < u32::MAX,
    ensures
        counts_wf(counted(counts, turn, entered)),
        claims(counted(counts, turn, entered), other) == if other != turn {
            claims(counts, other) as int
        } else if entered {
            claims(counts, turn) + 1
        } else if claims(counts, turn) == 0 {
            0
        } else {
            claims(counts, turn) - 1
        },
{
    lemma_counted_is_wf(counts, turn, entered);
    lemma_claim_position(counts, turn, 0);
    lemma_claim_position(counts, other, 0);
    lemma_claims(counts, turn, 0);
    lemma_claims(counts, other, 0);
    let next = counted(counts, turn, entered);
    let at = claim_position(counts, turn, 0);
    let place = claim_position(counts, other, 0);
    if other == turn {
        if entered {
            lemma_claims_at(next, turn, at);
        } else if at < counts.len() {
            if counts[at].1 <= 1 {
                assert forall|i: int| 0 <= i < next.len() implies (#[trigger] next[i]).0 != turn by {
                    let from = if i < at {
                        i
                    } else {
                        i + 1
                    };
                    assert(next[i] == counts[from]);
                    if from < at {
                        assert(counts[from].0 != counts[at].0);
                    } else {
                        assert(counts[at].0 != counts[from].0);
                    }
                }
                lemma_no_claims(next, turn);
            } else {
                lemma_claims_at(next, turn, at);
            }
        }
    } else if place < counts.len() {
        if !entered && at < counts.len() && counts[at].1 <= 1 {
            let to = if place < at {
                place
            } else {
                place - 1
            };
            assert(next[to] == counts[place]);
            lemma_claims_at(next, other, to);
        } else {
            assert(next[place] == counts[place]);
            lemma_claims_at(next, other, place);
        }
    } else {
        assert forall|i: int| 0 <= i < next.len() implies (#[trigger] next[i]).0 != other by {
            if !entered && at < counts.len() && counts[at].1 <= 1 {
                let from = if i < at {
                    i
                } else {
                    i + 1
                };
                assert(next[i] == counts[from]);
            } else if i < counts.len() && i != at {
                assert(next[i] == counts[i]);
            }
        }
        lemma_no_claims(next, other);
    }
}

/// The turn under the pointer is one whose rows claim it, and there is one whenever any row does.
pub proof fn hovered_turns_claim_the_pointer(
    state: HoverModel,
    turn: TurnId,
    entered: bool,
    rests: bool,
)
    requires
        state.wf(),
        entered ==> claims(state.counts, turn) < u32::MAX,
        !(state.parked && rests),
    ensures
        ({
            let next = hover_reported(state, turn, entered, rests);
            &&& next.hovered is Some <==> next.counts.len() > 0
            &&& next.hovered is Some ==> claims(next.counts, next.hovered->0) > 0
            &&& entered ==> next.hovered == Some(turn)
        }),
{
    let next = hover_reported(state, turn, entered, rests);
    lemma_counted_is_wf(state.counts, turn, entered);
    if next.last_entered is Some {
        lemma_claim_position(next.counts, next.last_entered->0, 0);
        lemma_claims(next.counts, next.last_entered->0, 0);
    }
    if next.counts.len() > 0 {
        lemma_claims_at(next.counts, next.counts[0].0, 0);
    }
    if entered {
        reports_are_counted(state.counts, turn, entered, turn);
        lemma_claims(next.counts, turn, 0);
    }
}

} // verus!
