//! Recent outcomes, bounded in number, and usage totals per route.
//!
//! What is stored leaves messages and captured upstream text out: routing, timing, status, safe
//! errors and token counts remain.

use vstd::prelude::*;

use crate::deep::models;
use crate::llm::error::{storage_safe, GatewayError, GatewayErrorModel};
use crate::llm::event::{GenerationOutcome, GenerationOutcomeModel, OutcomeStatus};
use crate::llm::model::{no_usage, saturating_sum, usage_sum, Usage, UsageProvenance};
use crate::llm::protocol::Protocol;
use crate::text::same_text;

verus! {

broadcast use crate::deep::group_models;

/// The route that outcomes are counted by.
#[derive(Debug, PartialEq, Eq, Hash)]
pub struct AggregateKey {
    pub profile_id: String,
    pub model_id: String,
    pub protocol: Protocol,
}

/// What an [`AggregateKey`] stands for.
pub struct AggregateKeyModel {
    pub profile_id: Seq<char>,
    pub model_id: Seq<char>,
    pub protocol: Protocol,
}

impl DeepView for AggregateKey {
    type V = AggregateKeyModel;

    open spec fn deep_view(&self) -> AggregateKeyModel {
        AggregateKeyModel {
            profile_id: self.profile_id@,
            model_id: self.model_id@,
            protocol: self.protocol,
        }
    }
}

impl Clone for AggregateKey {
    fn clone(&self) -> (copy: Self)
        ensures
            copy.deep_view() == self.deep_view(),
    {
        AggregateKey {
            profile_id: self.profile_id.clone(),
            model_id: self.model_id.clone(),
            protocol: self.protocol,
        }
    }
}

/// The totals of a route.
#[derive(Clone, Copy, Debug, PartialEq, Eq, Structural)]
pub struct AggregateUsage {
    pub requests: u64,
    pub completed: u64,
    pub failed: u64,
    pub cancelled: u64,
    pub usage: Usage,
}

impl DeepView for AggregateUsage {
    type V = AggregateUsage;

    open spec fn deep_view(&self) -> AggregateUsage {
        *self
    }
}

/// The totals of a route without outcomes.
pub open spec fn no_aggregate() -> AggregateUsage {
    AggregateUsage { requests: 0, completed: 0, failed: 0, cancelled: 0, usage: no_usage() }
}

impl Default for AggregateUsage {
    fn default() -> (aggregate: Self)
        ensures
            aggregate == no_aggregate(),
    {
        AggregateUsage {
            requests: 0,
            completed: 0,
            failed: 0,
            cancelled: 0,
            usage: Usage::default(),
        }
    }
}

/// The totals with one more outcome.
pub open spec fn counted(aggregate: AggregateUsage, outcome: GenerationOutcomeModel) -> AggregateUsage {
    AggregateUsage {
        requests: saturating_sum(aggregate.requests, 1),
        completed: if outcome.status == OutcomeStatus::Completed {
            saturating_sum(aggregate.completed, 1)
        } else {
            aggregate.completed
        },
        failed: if outcome.status == OutcomeStatus::Failed {
            saturating_sum(aggregate.failed, 1)
        } else {
            aggregate.failed
        },
        cancelled: if outcome.status == OutcomeStatus::Cancelled {
            saturating_sum(aggregate.cancelled, 1)
        } else {
            aggregate.cancelled
        },
        usage: usage_sum(aggregate.usage, outcome.usage),
    }
}

pub open spec fn route_of(outcome: GenerationOutcomeModel) -> AggregateKeyModel {
    AggregateKeyModel {
        profile_id: outcome.profile_id,
        model_id: outcome.model_id,
        protocol: outcome.protocol,
    }
}

/// The outcome as it is stored.
pub open spec fn stored(outcome: GenerationOutcomeModel) -> GenerationOutcomeModel {
    GenerationOutcomeModel {
        message: None,
        error: match outcome.error {
            Some(error) => Some(storage_safe(error)),
            None => None,
        },
        ..outcome
    }
}

/// Whether an outcome holds nothing that must not be stored.
pub open spec fn is_storable(outcome: GenerationOutcomeModel) -> bool {
    &&& outcome.message is None
    &&& outcome.error is Some ==> outcome.error->0.upstream_body is None
}

/// Whatever is stored is fit for storage.
pub proof fn stored_outcomes_are_storable(outcome: GenerationOutcomeModel)
    ensures
        is_storable(stored(outcome)),
{
}

/// The first position, from `start` on, of the route.
pub open spec fn route_position(
    totals: Seq<(AggregateKeyModel, AggregateUsage)>,
    key: AggregateKeyModel,
    start: int,
) -> int
    decreases totals.len() - start,
{
    if start >= totals.len() || totals[start].0 == key {
        start
    } else {
        route_position(totals, key, start + 1)
    }
}

/// The totals of a route.
pub open spec fn total_of(
    totals: Seq<(AggregateKeyModel, AggregateUsage)>,
    key: AggregateKeyModel,
) -> Option<AggregateUsage> {
    let at = route_position(totals, key, 0);
    if at < totals.len() {
        Some(totals[at].1)
    } else {
        None
    }
}

/// The totals with one more outcome counted.
pub open spec fn with_outcome(
    totals: Seq<(AggregateKeyModel, AggregateUsage)>,
    outcome: GenerationOutcomeModel,
) -> Seq<(AggregateKeyModel, AggregateUsage)> {
    let key = route_of(outcome);
    let at = route_position(totals, key, 0);
    if at < totals.len() {
        totals.update(at, (key, counted(totals[at].1, outcome)))
    } else {
        totals.push((key, counted(no_aggregate(), outcome)))
    }
}

proof fn lemma_route_position(
    totals: Seq<(AggregateKeyModel, AggregateUsage)>,
    key: AggregateKeyModel,
    start: int,
)
    requires
        0 <= start <= totals.len(),
    ensures
        start <= route_position(totals, key, start) <= totals.len(),
        forall|i: int| start <= i < route_position(totals, key, start) ==> (#[trigger] totals[i]).0 != key,
        route_position(totals, key, start) < totals.len() ==> totals[route_position(
            totals,
            key,
            start,
        )].0 == key,
    decreases totals.len() - start,
{
    if start < totals.len() && totals[start].0 != key {
        lemma_route_position(totals, key, start + 1);
    }
}

proof fn lemma_route_position_is(
    totals: Seq<(AggregateKeyModel, AggregateUsage)>,
    key: AggregateKeyModel,
    at: int,
)
    requires
        0 <= at <= totals.len(),
        forall|i: int| 0 <= i < at ==> (#[trigger] totals[i]).0 != key,
        at < totals.len() ==> totals[at].0 == key,
    ensures
        route_position(totals, key, 0) == at,
{
    lemma_route_position(totals, key, 0);
    let found = route_position(totals, key, 0);
    if found < at {
        assert(totals[found].0 != key);
    }
    if at < found {
        assert(totals[at].0 != key);
    }
}

/// An outcome counts for its own route, and for no other.
pub proof fn outcomes_count_for_their_route(
    totals: Seq<(AggregateKeyModel, AggregateUsage)>,
    outcome: GenerationOutcomeModel,
    key: AggregateKeyModel,
)
    ensures
        total_of(with_outcome(totals, outcome), key) == if key == route_of(outcome) {
            Some(
                counted(
                    match total_of(totals, key) {
                        Some(total) => total,
                        None => no_aggregate(),
                    },
                    outcome,
                ),
            )
        } else {
            total_of(totals, key)
        },
{
    let route = route_of(outcome);
    let next = with_outcome(totals, outcome);
    lemma_route_position(totals, route, 0);
    lemma_route_position(totals, key, 0);
    let at = route_position(totals, route, 0);
    let was = route_position(totals, key, 0);
    if key == route {
        lemma_route_position_is(next, key, at);
    } else if was < totals.len() {
        lemma_route_position_is(next, key, was);
    } else {
        lemma_route_position_is(next, key, next.len() as int);
    }
}

/// The last outcomes, at most `capacity` of them.
pub open spec fn last_of(
    outcomes: Seq<GenerationOutcomeModel>,
    capacity: nat,
) -> Seq<GenerationOutcomeModel> {
    if outcomes.len() > capacity {
        outcomes.skip(outcomes.len() - capacity)
    } else {
        outcomes
    }
}

/// What an [`InMemoryMetrics`] stands for.
pub struct MetricsModel {
    pub capacity: usize,
    pub recent: Seq<GenerationOutcomeModel>,
    pub aggregates: Seq<(AggregateKeyModel, AggregateUsage)>,
}

/// The metrics after an outcome.
pub open spec fn recorded(metrics: MetricsModel, outcome: GenerationOutcomeModel) -> MetricsModel {
    MetricsModel {
        capacity: metrics.capacity,
        recent: if metrics.capacity > 0 {
            last_of(metrics.recent.push(stored(outcome)), metrics.capacity as nat)
        } else {
            metrics.recent
        },
        aggregates: with_outcome(metrics.aggregates, outcome),
    }
}

/// Outcomes kept in memory.
pub struct InMemoryMetrics {
    capacity: usize,
    recent: Vec<GenerationOutcome>,
    aggregates: Vec<(AggregateKey, AggregateUsage)>,
}

impl DeepView for InMemoryMetrics {
    type V = MetricsModel;

    closed spec fn deep_view(&self) -> MetricsModel {
        MetricsModel {
            capacity: self.capacity,
            recent: models(self.recent@),
            aggregates: models(self.aggregates@),
        }
    }
}

pub fn metrics_record(outcome: &GenerationOutcome) -> (record: GenerationOutcome)
    ensures
        record.deep_view() == stored(outcome.deep_view()),
{
    GenerationOutcome {
        request_id: outcome.request_id.clone(),
        profile_id: outcome.profile_id.clone(),
        model_id: outcome.model_id.clone(),
        protocol: outcome.protocol,
        status: outcome.status,
        finish_reason: outcome.finish_reason.clone(),
        usage: outcome.usage,
        response_id: outcome.response_id.clone(),
        upstream_model: outcome.upstream_model.clone(),
        time_to_first_event: outcome.time_to_first_event,
        latency: outcome.latency,
        message: None,
        error: match &outcome.error {
            Some(error) => Some(metrics_error(error)),
            None => None,
        },
    }
}

/// The part of an error that may be stored.
pub fn metrics_error(error: &GatewayError) -> (result: GatewayError)
    ensures
        result.deep_view() == storage_safe(error.deep_view()),
{
    error.storage_safe_clone()
}

fn same_route(a: &AggregateKey, b: &AggregateKey) -> (same: bool)
    ensures
        same == (a.deep_view() == b.deep_view()),
{
    same_text(a.profile_id.as_str(), b.profile_id.as_str()) && same_text(
        a.model_id.as_str(),
        b.model_id.as_str(),
    ) && a.protocol == b.protocol
}

impl InMemoryMetrics {
    #[verifier::type_invariant]
    spec fn well_formed(self) -> bool {
        &&& self.recent@.len() <= self.capacity
        &&& forall|i: int| 0 <= i < self.recent@.len() ==> is_storable(
            (#[trigger] self.recent@[i]).deep_view(),
        )
    }

    pub fn new(capacity: usize) -> (metrics: Self)
        ensures
            metrics.deep_view() == (MetricsModel {
                capacity,
                recent: Seq::empty(),
                aggregates: Seq::empty(),
            }),
    {
        InMemoryMetrics { capacity, recent: Vec::new(), aggregates: Vec::new() }
    }

    /// The stored outcomes, oldest first. They are never more than the capacity, and none holds a
    /// message or captured upstream text.
    pub fn recent(&self) -> (outcomes: Vec<GenerationOutcome>)
        ensures
            outcomes.deep_view() == self.deep_view().recent,
            outcomes.deep_view().len() <= self.deep_view().capacity,
            forall|i: int|
                0 <= i < outcomes.deep_view().len() ==> is_storable(
                    #[trigger] outcomes.deep_view()[i],
                ),
    {
        proof {
            use_type_invariant(self);
        }
        let outcomes = self.recent.clone();
        proof {
            assert(outcomes.deep_view() =~= self.recent.deep_view());
            assert forall|i: int| 0 <= i < outcomes.deep_view().len() implies is_storable(
                #[trigger] outcomes.deep_view()[i],
            ) by {
                assert(is_storable(self.recent@[i].deep_view()));
            }
        }
        outcomes
    }

    fn seek(&self, key: &AggregateKey) -> (at: usize)
        ensures
            at == route_position(models(self.aggregates@), key.deep_view(), 0),
            at <= self.aggregates@.len(),
    {
        let ghost all = models(self.aggregates@);
        let mut at: usize = 0;
        while at < self.aggregates.len() && !same_route(&self.aggregates[at].0, key)
            invariant
                all == models(self.aggregates@),
                at <= self.aggregates@.len(),
                route_position(all, key.deep_view(), 0) == route_position(
                    all,
                    key.deep_view(),
                    at as int,
                ),
            decreases self.aggregates@.len() - at,
        {
            at += 1;
        }
        at
    }

    /// The totals of a route.
    pub fn aggregate(&self, key: &AggregateKey) -> (total: Option<AggregateUsage>)
        ensures
            total == total_of(self.deep_view().aggregates, key.deep_view()),
    {
        let at = self.seek(key);
        if at < self.aggregates.len() {
            Some(self.aggregates[at].1)
        } else {
            None
        }
    }

    /// Counts an outcome and stores what may be stored of it.
    pub fn on_finish(&mut self, outcome: &GenerationOutcome)
        ensures
            final(self).deep_view() == recorded(old(self).deep_view(), outcome.deep_view()),
    {
        let key = AggregateKey {
            profile_id: outcome.profile_id.clone(),
            model_id: outcome.model_id.clone(),
            protocol: outcome.protocol,
        };
        let at = self.seek(&key);
        let known = at < self.aggregates.len();
        let mut total = if known {
            self.aggregates[at].1
        } else {
            AggregateUsage::default()
        };
        total.requests = total.requests.saturating_add(1);
        match outcome.status {
            OutcomeStatus::Completed => {
                total.completed = total.completed.saturating_add(1);
            },
            OutcomeStatus::Failed => {
                total.failed = total.failed.saturating_add(1);
            },
            OutcomeStatus::Cancelled => {
                total.cancelled = total.cancelled.saturating_add(1);
            },
        }
        total.usage.add_assign(&outcome.usage);
        proof {
            use_type_invariant(&*self);
        }
        let mut aggregates: Vec<(AggregateKey, AggregateUsage)> = Vec::new();
        std::mem::swap(&mut aggregates, &mut self.aggregates);
        if known {
            aggregates.set(at, (key, total));
        } else {
            aggregates.push((key, total));
        }
        self.aggregates = aggregates;
        if self.capacity > 0 {
            let capacity = self.capacity;
            let ghost before = self.recent@;
            let ghost all = models(before).push(stored(outcome.deep_view()));
            let record = metrics_record(outcome);
            let mut recent: Vec<GenerationOutcome> = Vec::new();
            std::mem::swap(&mut recent, &mut self.recent);
            recent.push(record);
            if recent.len() > capacity {
                let _ = recent.remove(0);
                proof {
                    assert(models(recent@) =~= all.skip(1));
                }
            }
            proof {
                assert forall|i: int| 0 <= i < recent@.len() implies is_storable(
                    (#[trigger] recent@[i]).deep_view(),
                ) by {
                    if before.len() + 1 > capacity {
                        assert(models(recent@)[i] == all[i + 1]);
                    } else {
                        assert(models(recent@)[i] == all[i]);
                    }
                    let j = if before.len() + 1 > capacity {
                        i + 1
                    } else {
                        i
                    };
                    if j < before.len() {
                        assert(is_storable(before[j].deep_view()));
                    }
                }
            }
            self.recent = recent;
        }
    }
}

/// What is counted of an outcome: one request, one of its status, and its tokens.
pub proof fn outcomes_are_counted(total: AggregateUsage, outcome: GenerationOutcomeModel)
    requires
        total.requests < u64::MAX,
        total.completed < u64::MAX,
        total.failed < u64::MAX,
        total.cancelled < u64::MAX,
        total.usage.input_tokens + outcome.usage.input_tokens <= u64::MAX,
        total.usage.cache_read_tokens + outcome.usage.cache_read_tokens <= u64::MAX,
        total.usage.cache_write_tokens + outcome.usage.cache_write_tokens <= u64::MAX,
        total.usage.output_tokens + outcome.usage.output_tokens <= u64::MAX,
        total.usage.reasoning_tokens + outcome.usage.reasoning_tokens <= u64::MAX,
        total.usage.total_tokens + outcome.usage.total_tokens <= u64::MAX,
    ensures
        ({
            let after = counted(total, outcome);
            let (done, lost, left) = match outcome.status {
                OutcomeStatus::Completed => (1int, 0int, 0int),
                OutcomeStatus::Failed => (0int, 1int, 0int),
                OutcomeStatus::Cancelled => (0int, 0int, 1int),
            };
            &&& after.requests == total.requests + 1
            &&& after.completed == total.completed + done
            &&& after.failed == total.failed + lost
            &&& after.cancelled == total.cancelled + left
            &&& after.usage.input_tokens == total.usage.input_tokens + outcome.usage.input_tokens
            &&& after.usage.cache_read_tokens == total.usage.cache_read_tokens
                + outcome.usage.cache_read_tokens
            &&& after.usage.cache_write_tokens == total.usage.cache_write_tokens
                + outcome.usage.cache_write_tokens
            &&& after.usage.output_tokens == total.usage.output_tokens
                + outcome.usage.output_tokens
            &&& after.usage.reasoning_tokens == total.usage.reasoning_tokens
                + outcome.usage.reasoning_tokens
            &&& after.usage.total_tokens == total.usage.total_tokens + outcome.usage.total_tokens
        }),
{
}

/// An estimated count makes the sum an estimate; otherwise a reported one makes it reported.
pub proof fn estimates_stay_estimates(total: AggregateUsage, outcome: GenerationOutcomeModel)
    ensures
        ({
            let a = total.usage.provenance;
            let b = outcome.usage.provenance;
            let after = counted(total, outcome).usage.provenance;
            &&& after == UsageProvenance::Estimated <==> a == UsageProvenance::Estimated || b
                == UsageProvenance::Estimated
            &&& after == UsageProvenance::Unavailable <==> a == UsageProvenance::Unavailable && b
                == UsageProvenance::Unavailable
        }),
{
}

/// The recent outcomes are the last that were recorded, the newest behind the others, as many as
/// there is room for: a full store gives up its oldest.
pub proof fn the_newest_outcomes_are_kept(metrics: MetricsModel, outcome: GenerationOutcomeModel)
    requires
        metrics.recent.len() <= metrics.capacity,
    ensures
        ({
            let after = recorded(metrics, outcome);
            let kept = after.recent;
            &&& after.capacity == metrics.capacity
            &&& metrics.capacity == 0 ==> kept.len() == 0
            &&& metrics.capacity > 0 ==> {
                &&& kept.len() > 0
                &&& kept.last() == (GenerationOutcomeModel {
                    message: None,
                    error: kept.last().error,
                    ..outcome
                })
                &&& kept.last().error is Some <==> outcome.error is Some
                &&& outcome.error is Some ==> kept.last().error->0 == (GatewayErrorModel {
                    upstream_body: None,
                    ..outcome.error->0
                })
                &&& metrics.recent.len() < metrics.capacity ==> kept.drop_last() == metrics.recent
                &&& metrics.recent.len() == metrics.capacity ==> kept.drop_last()
                    == metrics.recent.skip(1)
            }
        }),
{
    let kept = recorded(metrics, outcome).recent;
    if metrics.capacity > 0 {
        if metrics.recent.len() < metrics.capacity {
            assert(kept.drop_last() =~= metrics.recent);
        } else {
            assert(kept.drop_last() =~= metrics.recent.skip(1));
        }
    }
}

/// Outcomes are counted for the profile, the model and the protocol that they name.
pub proof fn routes_are_told_apart(outcome: GenerationOutcomeModel)
    ensures
        route_of(outcome).profile_id == outcome.profile_id,
        route_of(outcome).model_id == outcome.model_id,
        route_of(outcome).protocol == outcome.protocol,
{
}

} // verus!
