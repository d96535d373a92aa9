//! One iteration of the eviction task: plan, evict batch by batch, report.
//!
//! The iteration itself does nothing to the outside world. `action` says
//! what is to be done next: collect the candidates, evict a batch of one
//! timeline, or report the outcome. What came of it is handed back with
//! `candidates_collected` and `batch_evicted`.
//!
//! Planning walks the candidates in eviction order until the projected usage
//! shows no pressure any more. Where it reaches the first reserved layer it
//! remembers the projection so far: that is what respecting every
//! reservation could have achieved.

use vstd::prelude::*;
use std::collections::HashMap;
use crate::disk_usage_eviction_task::{
    AssumedUsage,
    IterationOutcome,
    IterationOutcomeFinished,
    LayerCount,
    PlannedUsage,
    Usage,
};
use crate::disk_usage_eviction_task::candidates::{
    EvictionCandidate,
    MinResidentSizePartition,
    size_sum,
};
use crate::disk_usage_eviction_task::collect::{
    EvictionCandidates,
    MinResidentSizePartitionedCandidates,
};
use crate::disk_usage_eviction_task::filesystem_level_usage::saturating_sum;

verus! {

/// What became of one layer of a batch.
#[derive(Debug, Clone, Copy, PartialEq, Eq)]
pub enum LayerEviction {
    /// The layer is no longer resident.
    Evicted,
    /// The layer was not found, or was not what was expected.
    NotFound,
    /// The eviction was cancelled before it reached the layer.
    Cancelled,
    /// The eviction of the layer failed with an error.
    Failed,
}

/// The layers of one timeline that were planned for eviction, in eviction order.
#[derive(Debug)]
pub struct EvictionBatch {
    pub timeline: u64,
    pub layers: Vec<EvictionCandidate>,
}

/// Where an iteration stands.
#[derive(Debug, Clone, Copy, PartialEq, Eq)]
pub enum Phase {
    /// There is pressure; the candidates have not been collected yet.
    AwaitingCandidates,
    /// Batches are being evicted.
    Evicting,
    /// Ended: there was no pressure to begin with.
    NoPressure,
    /// Ended: cancellation was seen.
    Cancelled,
    /// Ended: every batch was handled.
    Finished,
}

/// What the caller is to do next.
#[derive(Debug, Clone, Copy, PartialEq, Eq)]
pub enum Action {
    /// Collect the candidates and call `candidates_collected`.
    Collect,
    /// Evict the batch with this index and call `batch_evicted`.
    Evict(usize),
    /// The iteration has ended: see `outcome`.
    Report,
}

/// One iteration, from the first look at the usage to its outcome.
#[derive(Debug)]
pub struct Iteration<U: Usage> {
    pub phase: Phase,
    /// The usage that the iteration started with.
    pub before: U,
    pub planned: PlannedUsage<U>,
    /// The planned layers, grouped by timeline.
    pub batches: Vec<EvictionBatch>,
    /// How many batches have been evicted.
    pub next_batch: usize,
    /// `before`, plus the layers that were evicted so far.
    pub assumed: U,
    /// The layers that were not evicted although planned.
    pub failed: LayerCount,
}

/// A batch as a value of specifications.
pub struct BatchView {
    pub timeline: u64,
    pub layers: Seq<EvictionCandidate>,
}

/// An iteration as a value of specifications.
pub struct IterationView<U> {
    pub phase: Phase,
    pub before: U,
    pub planned: PlannedUsage<U>,
    pub batches: Seq<BatchView>,
    pub next_batch: nat,
    pub assumed: U,
    pub failed: LayerCount,
}

/// The running account of the evictions: usage, failures, and whether a
/// cancelled eviction was met.
pub struct Account<U> {
    pub assumed: U,
    pub failed: LayerCount,
    pub cancelled: bool,
}

impl View for EvictionBatch {
    type V = BatchView;

    open spec fn view(&self) -> BatchView {
        BatchView { timeline: self.timeline, layers: self.layers@ }
    }
}

/// The views of `batches`.
pub open spec fn batch_views(batches: Seq<EvictionBatch>) -> Seq<BatchView> {
    Seq::new(batches.len(), |i: int| batches[i]@)
}

impl<U: Usage> View for Iteration<U> {
    type V = IterationView<U>;

    open spec fn view(&self) -> IterationView<U> {
        IterationView {
            phase: self.phase,
            before: self.before,
            planned: self.planned,
            batches: batch_views(self.batches@),
            next_batch: self.next_batch as nat,
            assumed: self.assumed,
            failed: self.failed,
        }
    }
}

/// The usage after every candidate of `evicted` was freed.
pub open spec fn usage_after<U: Usage>(usage: U, evicted: Seq<EvictionCandidate>) -> U
    decreases evicted.len(),
{
    if evicted.len() == 0 {
        usage
    } else {
        usage_after(usage, evicted.drop_last()).freed(evicted.last().file_size)
    }
}

/// Where planning stops when it has taken the first `taken` candidates of
/// `order` under pressure: at the first candidate before which the
/// projection shows no pressure, or at the end.
pub open spec fn planned_count_from<U: Usage>(
    usage: U,
    order: Seq<EvictionCandidate>,
    taken: nat,
) -> nat
    decreases order.len() - taken,
{
    if taken >= order.len() || !usage_after(usage, order.take(taken as int)).pressure() {
        taken
    } else {
        planned_count_from(usage, order, taken + 1)
    }
}

/// How many leading candidates of `order` are planned for eviction.
pub open spec fn planned_count<U: Usage>(usage: U, order: Seq<EvictionCandidate>) -> nat {
    planned_count_from(usage, order, 0)
}

/// What planning projects for candidates `above` and `below` the reservations.
pub open spec fn planned_usage<U: Usage>(
    usage: U,
    above: Seq<EvictionCandidate>,
    below: Seq<EvictionCandidate>,
) -> PlannedUsage<U> {
    let order = above + below;
    let count = planned_count(usage, order);
    if count > above.len() {
        PlannedUsage {
            respecting_tenant_min_resident_size: usage_after(usage, above),
            fallback_to_global_lru: Some(usage_after(usage, order.take(count as int))),
        }
    } else {
        PlannedUsage {
            respecting_tenant_min_resident_size: usage_after(usage, order.take(count as int)),
            fallback_to_global_lru: None,
        }
    }
}

/// The timelines of `selected`, each once, in the order of first appearance.
pub open spec fn batch_timelines(selected: Seq<EvictionCandidate>) -> Seq<u64>
    decreases selected.len(),
{
    if selected.len() == 0 {
        Seq::empty()
    } else {
        let before = batch_timelines(selected.drop_last());
        if before.contains(selected.last().timeline) {
            before
        } else {
            before.push(selected.last().timeline)
        }
    }
}

/// The candidates of `selected` that `timeline` owns, in their order.
pub open spec fn batch_of(selected: Seq<EvictionCandidate>, timeline: u64) -> Seq<
    EvictionCandidate,
> {
    selected.filter(|c: EvictionCandidate| c.timeline == timeline)
}

/// `selected`, grouped by timeline.
pub open spec fn batches_of(selected: Seq<EvictionCandidate>) -> Seq<BatchView> {
    let timelines = batch_timelines(selected);
    Seq::new(
        timelines.len(),
        |i: int| BatchView { timeline: timelines[i], layers: batch_of(selected, timelines[i]) },
    )
}

/// `count` with one more layer of `file_size` bytes.
pub open spec fn counted(count: LayerCount, file_size: u64) -> LayerCount {
    LayerCount {
        file_sizes: saturating_sum(count.file_sizes, file_size),
        count: if count.count < usize::MAX {
            (count.count + 1) as usize
        } else {
            count.count
        },
    }
}

/// The account after one more result: an evicted layer frees its bytes, a
/// layer that was not found or whose eviction failed is counted as failed,
/// and a cancelled eviction closes the account.
pub open spec fn account_one<U: Usage>(
    account: Account<U>,
    layer: EvictionCandidate,
    result: LayerEviction,
) -> Account<U> {
    if account.cancelled {
        account
    } else {
        match result {
            LayerEviction::Evicted => Account {
                assumed: account.assumed.freed(layer.file_size),
                ..account
            },
            LayerEviction::NotFound | LayerEviction::Failed => Account {
                failed: counted(account.failed, layer.file_size),
                ..account
            },
            LayerEviction::Cancelled => Account { cancelled: true, ..account },
        }
    }
}

/// The account after the first `n` results of a batch.
pub open spec fn account_after<U: Usage>(
    account: Account<U>,
    layers: Seq<EvictionCandidate>,
    results: Seq<LayerEviction>,
    n: nat,
) -> Account<U>
    decreases n,
{
    if n == 0 {
        account
    } else {
        account_one(
            account_after(account, layers, results, (n - 1) as nat),
            layers[n - 1],
            results[n - 1],
        )
    }
}

impl<U: Usage> IterationView<U> {
    /// The iteration that starts with `usage_pre`.
    pub open spec fn begin(usage_pre: U) -> Self {
        IterationView {
            phase: if usage_pre.pressure() {
                Phase::AwaitingCandidates
            } else {
                Phase::NoPressure
            },
            before: usage_pre,
            planned: PlannedUsage {
                respecting_tenant_min_resident_size: usage_pre,
                fallback_to_global_lru: None,
            },
            batches: Seq::empty(),
            next_batch: 0,
            assumed: usage_pre,
            failed: LayerCount { file_sizes: 0, count: 0 },
        }
    }

    /// Whether the iteration has ended.
    pub open spec fn ended(self) -> bool {
        self.phase == Phase::NoPressure || self.phase == Phase::Cancelled || self.phase
            == Phase::Finished
    }

    /// The iteration after the collection was cancelled.
    pub open spec fn collection_cancelled(self) -> Self {
        if self.phase == Phase::AwaitingCandidates {
            IterationView { phase: Phase::Cancelled, ..self }
        } else {
            self
        }
    }

    /// The iteration after planning over `above` and `below`.
    pub open spec fn planned_over(
        self,
        above: Seq<EvictionCandidate>,
        below: Seq<EvictionCandidate>,
    ) -> Self {
        if self.phase == Phase::AwaitingCandidates {
            let order = above + below;
            let selected = order.take(planned_count(self.before, order) as int);
            let batches = batches_of(selected);
            IterationView {
                phase: if batches.len() == 0 {
                    Phase::Finished
                } else {
                    Phase::Evicting
                },
                planned: planned_usage(self.before, above, below),
                batches,
                ..self
            }
        } else {
            self
        }
    }

    /// Whether a batch is waiting to be evicted.
    pub open spec fn evicting(self) -> bool {
        self.phase == Phase::Evicting && self.next_batch < self.batches.len()
    }

    /// The iteration after the eviction of the next batch. `results` holds
    /// one result for each layer of the batch, or is `None` where the
    /// eviction failed as a whole; `cancelled` says whether cancellation
    /// was signalled by the time the eviction returned.
    pub open spec fn batch_evicted(
        self,
        results: Option<Seq<LayerEviction>>,
        cancelled: bool,
    ) -> Self {
        if self.evicting() {
            let open = Account { assumed: self.assumed, failed: self.failed, cancelled: false };
            let account = match results {
                Some(results) => account_after(
                    open,
                    self.batches[self.next_batch as int].layers,
                    results,
                    results.len(),
                ),
                None => open,
            };
            IterationView {
                phase: if cancelled || account.cancelled {
                    Phase::Cancelled
                } else if self.next_batch + 1 == self.batches.len() {
                    Phase::Finished
                } else {
                    Phase::Evicting
                },
                next_batch: self.next_batch + 1,
                assumed: account.assumed,
                failed: account.failed,
                ..self
            }
        } else {
            self
        }
    }

    /// What is to be done next.
    pub open spec fn action(self) -> Action {
        if self.phase == Phase::AwaitingCandidates {
            Action::Collect
        } else if self.evicting() {
            Action::Evict(self.next_batch as usize)
        } else {
            Action::Report
        }
    }

    /// The outcome, once the iteration has ended.
    pub open spec fn outcome(self) -> Option<IterationOutcome<U>> {
        match self.phase {
            Phase::NoPressure => Some(IterationOutcome::NoPressure),
            Phase::Cancelled => Some(IterationOutcome::Cancelled),
            Phase::Finished => Some(
                IterationOutcome::Finished(
                    IterationOutcomeFinished {
                        before: self.before,
                        planned: self.planned,
                        assumed: AssumedUsage {
                            projected_after: self.assumed,
                            failed: self.failed,
                        },
                    },
                ),
            ),
            _ => None,
        }
    }
}

/// No timeline has two batches.
pub proof fn lemma_batch_timelines_distinct(selected: Seq<EvictionCandidate>)
    ensures
        batch_timelines(selected).no_duplicates(),
    decreases selected.len(),
{
    if selected.len() > 0 {
        lemma_batch_timelines_distinct(selected.drop_last());
    }
}

/// Every selected candidate is in the batch of its timeline, and every
/// batch holds candidates of its timeline only, in the order of selection.
pub proof fn lemma_batches_cover(selected: Seq<EvictionCandidate>, i: int)
    requires
        0 <= i < selected.len(),
    ensures
        batch_timelines(selected).contains(selected[i].timeline),
        batch_of(selected, selected[i].timeline).contains(selected[i]),
        forall|timeline: u64, k: int|
            0 <= k < batch_of(selected, timeline).len() ==> (#[trigger] batch_of(
                selected,
                timeline,
            )[k]).timeline == timeline,
    decreases selected.len(),
{
    broadcast use Seq::lemma_filter_contains_rev;

    let before = batch_timelines(selected.drop_last());
    let timelines = batch_timelines(selected);
    if i < selected.len() - 1 {
        lemma_batches_cover(selected.drop_last(), i);
        let at = choose|at: int| 0 <= at < before.len() && before[at] == selected[i].timeline;
        assert(timelines[at] == selected[i].timeline);
    } else if before.contains(selected[i].timeline) {
    } else {
        assert(timelines[before.len() as int] == selected[i].timeline);
    }
    assert forall|timeline: u64, k: int|
        0 <= k < batch_of(selected, timeline).len() implies (#[trigger] batch_of(
        selected,
        timeline,
    )[k]).timeline == timeline by {
        let pred = |c: EvictionCandidate| c.timeline == timeline;
        selected.lemma_filter_pred(pred, k);
    }
}

/// Whether `index` says of each timeline where its batch stands.
pub open spec fn indexes(index: Map<u64, usize>, timelines: Seq<u64>) -> bool {
    &&& forall|timeline: u64| #[trigger]
        index.dom().contains(timeline) ==> index[timeline] < timelines.len()
            && timelines[index[timeline] as int] == timeline
    &&& forall|b: int| 0 <= b < timelines.len() ==> index.dom().contains(#[trigger] timelines[b])
}

/// The position of the batch of `timeline`, where it has one.
fn find_batch(
    index: &HashMap<u64, usize>,
    timeline: u64,
    Ghost(timelines): Ghost<Seq<u64>>,
) -> (found: Option<usize>)
    requires
        indexes(index@, timelines),
    ensures
        match found {
            Some(b) => b < timelines.len() && timelines[b as int] == timeline,
            None => !timelines.contains(timeline),
        },
{
    match index.get(&timeline) {
        Some(b) => Some(*b),
        None => {
            proof {
                if timelines.contains(timeline) {
                    let b = choose|b: int| 0 <= b < timelines.len() && timelines[b] == timeline;
                    assert(index@.dom().contains(timelines[b]));
                }
            }
            None
        },
    }
}

/// Adds `candidate` to the batch of its timeline, which is opened at the
/// end where the timeline has none yet.
fn add_to_batch(
    batches: &mut Vec<EvictionBatch>,
    index: &mut HashMap<u64, usize>,
    candidate: EvictionCandidate,
    Ghost(selected): Ghost<Seq<EvictionCandidate>>,
)
    requires
        batch_views(old(batches)@) == batches_of(selected),
        indexes(old(index)@, batch_timelines(selected)),
    ensures
        batch_views(final(batches)@) == batches_of(selected.push(candidate)),
        indexes(final(index)@, batch_timelines(selected.push(candidate))),
{
    broadcast use Seq::lemma_filter_push;

    let ghost extended = selected.push(candidate);
    let ghost timelines = batch_timelines(selected);
    proof {
        lemma_batch_timelines_distinct(selected);
        assert(extended.drop_last() == selected);
        assert(extended.last() == candidate);
        assert(batch_views(batches@).len() == batches@.len());
        assert(batches_of(selected).len() == timelines.len());
        assert forall|b: int| 0 <= b < batches@.len() implies (#[trigger] batches@[b]).timeline
            == timelines[b] && batches@[b].layers@ == batch_of(selected, timelines[b]) by {
            assert(batch_views(batches@)[b] == batches@[b]@);
            assert(batches_of(selected)[b] == BatchView {
                timeline: timelines[b],
                layers: batch_of(selected, timelines[b]),
            });
        }
    }
    match find_batch(index, candidate.timeline, Ghost(timelines)) {
        Some(b) => {
            batches[b].layers.push(candidate);
            proof {
                assert(timelines[b as int] == candidate.timeline);
                assert(timelines.contains(candidate.timeline));
                assert(batch_timelines(extended) == timelines);
                assert(batch_views(batches@).len() == batches_of(extended).len());
                assert forall|k: int| 0 <= k < batches@.len() implies #[trigger] batch_views(
                    batches@,
                )[k] == batches_of(extended)[k] by {
                    if k != b {
                        assert(timelines[k] != timelines[b as int]);
                    }
                    assert(batches@[k].layers@ == batch_of(extended, timelines[k]));
                }
                assert(batch_views(batches@) =~= batches_of(extended));
            }
        },
        None => {
            let mut layers: Vec<EvictionCandidate> = Vec::new();
            layers.push(candidate);
            index.insert(candidate.timeline, batches.len());
            batches.push(EvictionBatch { timeline: candidate.timeline, layers });
            proof {
                let longer = timelines.push(candidate.timeline);
                assert forall|timeline: u64| #[trigger]
                    index@.dom().contains(timeline) implies index@[timeline] < longer.len()
                    && longer[index@[timeline] as int] == timeline by {
                    if timeline != candidate.timeline {
                        assert(old(index)@.dom().contains(timeline));
                    }
                }
                assert forall|b: int| 0 <= b < longer.len() implies index@.dom().contains(
                    #[trigger] longer[b],
                ) by {
                    if b < timelines.len() {
                        assert(old(index)@.dom().contains(timelines[b]));
                    }
                }
                assert(batch_timelines(extended) == timelines.push(candidate.timeline));
                lemma_new_timeline_owns_nothing(selected, candidate.timeline);
                assert(batch_views(batches@).len() == batches_of(extended).len());
                assert forall|k: int| 0 <= k < batches@.len() implies #[trigger] batch_views(
                    batches@,
                )[k] == batches_of(extended)[k] by {
                    if k < old(batches)@.len() {
                        assert(timelines[k] != candidate.timeline);
                        assert(batches@[k].layers@ == batch_of(extended, timelines[k]));
                    } else {
                        assert(batches@[k].layers@ =~= batch_of(extended, candidate.timeline));
                    }
                }
                assert(batch_views(batches@) =~= batches_of(extended));
            }
        },
    }
}

/// A timeline without a batch owns none of the selected candidates.
proof fn lemma_new_timeline_owns_nothing(selected: Seq<EvictionCandidate>, timeline: u64)
    requires
        !batch_timelines(selected).contains(timeline),
    ensures
        batch_of(selected, timeline) == Seq::<EvictionCandidate>::empty(),
    decreases selected.len(),
{
    broadcast use Seq::lemma_filter_push;

    if selected.len() > 0 {
        let before = batch_timelines(selected.drop_last());
        let last = selected.last();
        assert(selected == selected.drop_last().push(last));
        if before.contains(last.timeline) {
            lemma_new_timeline_owns_nothing(selected.drop_last(), timeline);
        } else {
            assert(before.push(last.timeline).last() == last.timeline);
            assert forall|k: int| 0 <= k < before.len() implies before[k] != timeline by {
                assert(before.push(last.timeline)[k] == before[k]);
            }
            lemma_new_timeline_owns_nothing(selected.drop_last(), timeline);
        }
    }
}

/// Phase 1: walks the candidates in eviction order until the projection
/// shows no pressure, and groups what it took by timeline.
fn plan<U: Usage>(usage_pre: U, candidates: MinResidentSizePartitionedCandidates) -> (res: (
    PlannedUsage<U>,
    Vec<EvictionBatch>,
))
    requires
        candidates.spec_is_sorted(),
        candidates.above@.len() + candidates.below@.len() <= usize::MAX,
    ensures
        res.0 == planned_usage(usage_pre, candidates.above@, candidates.below@),
        batch_views(res.1@) == batches_of(
            (candidates.above@ + candidates.below@).take(
                planned_count(usage_pre, candidates.above@ + candidates.below@) as int,
            ),
        ),
{
    let ghost above = candidates.above@;
    let ghost below = candidates.below@;
    let ghost order = above + below;
    let in_order = candidates.into_iter_in_eviction_order();
    let mut batched: Vec<EvictionBatch> = Vec::new();
    // where the batch of each timeline stands in `batched`
    let mut index: HashMap<u64, usize> = HashMap::new();
    let mut warned: Option<U> = None;
    let mut usage_planned = usage_pre;
    let mut i: usize = 0;
    proof {
        assert(order.take(0) == Seq::<EvictionCandidate>::empty());
        assert(batch_views(batched@) =~= batches_of(order.take(0)));
    }
    while i < in_order.len() && usage_planned.has_pressure()
        invariant
            i <= in_order@.len(),
            in_order@.len() == order.len(),
            order == above + below,
            forall|k: int|
                0 <= k < order.len() ==> (#[trigger] in_order@[k]).1 == order[k] && (in_order@[k].0
                    == MinResidentSizePartition::Below <==> k >= above.len()),
            usage_planned == usage_after(usage_pre, order.take(i as int)),
            planned_count_from(usage_pre, order, i as nat) == planned_count(usage_pre, order),
            i <= above.len() ==> warned == None::<U>,
            i > above.len() ==> warned == Some(usage_after(usage_pre, above)),
            batch_views(batched@) == batches_of(order.take(i as int)),
            indexes(index@, batch_timelines(order.take(i as int))),
        decreases in_order@.len() - i,
    {
        let (partition, candidate) = in_order[i];
        let reserved = match partition {
            MinResidentSizePartition::Below => true,
            MinResidentSizePartition::Above => false,
        };
        if reserved && warned.is_none() {
            // Respecting the reservations did not relieve the pressure:
            // from here on the plan follows the global order.
            proof {
                assert(i == above.len());
                assert(order.take(i as int) == above);
            }
            warned = Some(usage_planned);
        }
        usage_planned.add_available_bytes(candidate.file_size);
        add_to_batch(&mut batched, &mut index, candidate, Ghost(order.take(i as int)));
        proof {
            assert(order.take(i + 1).drop_last() == order.take(i as int));
            assert(order.take(i + 1) == order.take(i as int).push(candidate));
        }
        i = i + 1;
    }
    let planned = match warned {
        Some(respecting_tenant_min_resident_size) => PlannedUsage {
            respecting_tenant_min_resident_size,
            fallback_to_global_lru: Some(usage_planned),
        },
        None => PlannedUsage {
            respecting_tenant_min_resident_size: usage_planned,
            fallback_to_global_lru: None,
        },
    };
    (planned, batched)
}

/// `count` with one more layer.
fn count_layer(count: LayerCount, file_size: u64) -> (res: LayerCount)
    ensures
        res == counted(count, file_size),
{
    LayerCount {
        file_sizes: count.file_sizes.saturating_add(file_size),
        count: if count.count < usize::MAX {
            count.count + 1
        } else {
            count.count
        },
    }
}

impl<U: Usage> Iteration<U> {
    /// Starts an iteration with the usage that was just measured. Without
    /// pressure the iteration ends at once.
    pub fn begin(usage_pre: U) -> (iteration: Self)
        ensures
            iteration@ == IterationView::begin(usage_pre),
    {
        let phase = if usage_pre.has_pressure() {
            Phase::AwaitingCandidates
        } else {
            Phase::NoPressure
        };
        let iteration = Iteration {
            phase,
            before: usage_pre,
            planned: PlannedUsage {
                respecting_tenant_min_resident_size: usage_pre,
                fallback_to_global_lru: None,
            },
            batches: Vec::new(),
            next_batch: 0,
            assumed: usage_pre,
            failed: LayerCount { file_sizes: 0, count: 0 },
        };
        assert(iteration@.batches =~= Seq::<BatchView>::empty());
        iteration
    }

    /// What is to be done next. A batch is named by its index in `batches`.
    pub fn action(&self) -> (action: Action)
        ensures
            action == self@.action(),
            action matches Action::Evict(batch) ==> batch < self.batches@.len(),
    {
        match self.phase {
            Phase::AwaitingCandidates => Action::Collect,
            Phase::Evicting => {
                if self.next_batch < self.batches.len() {
                    Action::Evict(self.next_batch)
                } else {
                    Action::Report
                }
            },
            _ => Action::Report,
        }
    }

    /// Takes what the collection of candidates ended with. A cancelled
    /// collection ends the iteration. Otherwise the evictions are planned;
    /// where nothing is planned the iteration has finished.
    ///
    /// Outside of `Phase::AwaitingCandidates` nothing changes.
    pub fn candidates_collected(&mut self, candidates: EvictionCandidates)
        requires
            candidates matches EvictionCandidates::Finished(c) ==> c.spec_is_sorted()
                && c.above@.len() + c.below@.len() <= usize::MAX,
        ensures
            match candidates {
                EvictionCandidates::Cancelled => final(self)@ == old(self)@.collection_cancelled(),
                EvictionCandidates::Finished(c) => final(self)@ == old(self)@.planned_over(
                    c.above@,
                    c.below@,
                ),
            },
    {
        match self.phase {
            Phase::AwaitingCandidates => {},
            _ => {
                return;
            },
        }
        match candidates {
            EvictionCandidates::Cancelled => {
                self.phase = Phase::Cancelled;
            },
            EvictionCandidates::Finished(partitioned) => {
                let (planned, batches) = plan(self.before, partitioned);
                self.planned = planned;
                self.phase = if batches.len() == 0 {
                    Phase::Finished
                } else {
                    Phase::Evicting
                };
                self.batches = batches;
            },
        }
    }

    /// Takes what the eviction of the next batch ended with: one result for
    /// each layer of the batch, or `None` where the eviction failed as a
    /// whole, and whether cancellation was signalled by then.
    ///
    /// Evicted layers are added to the assumed usage. Layers that were not
    /// found, and layers whose eviction failed, are counted as failed. A
    /// cancelled eviction, or the signal, ends the iteration as cancelled.
    /// While no batch is waiting nothing changes.
    pub fn batch_evicted(&mut self, results: Option<Vec<LayerEviction>>, cancelled: bool)
        requires
            old(self)@.evicting() ==> (results matches Some(r) ==> r@.len() == old(
                self,
            ).batches@[old(self).next_batch as int].layers@.len()),
        ensures
            final(self)@ == old(self)@.batch_evicted(
                match results {
                    Some(r) => Some(r@),
                    None => None,
                },
                cancelled,
            ),
    {
        match self.phase {
            Phase::Evicting => {},
            _ => {
                return;
            },
        }
        if self.next_batch >= self.batches.len() {
            return;
        }
        let ghost open = Account { assumed: self.assumed, failed: self.failed, cancelled: false };
        let ghost layers = self.batches@[self.next_batch as int].layers@;
        assert(layers == self@.batches[self.next_batch as int].layers);
        let mut stopped = false;
        match results {
            Some(results) => {
                let n = results.len();
                let mut i: usize = 0;
                while i < n && !stopped
                    invariant
                        i <= n,
                        n == results@.len(),
                        n == layers.len(),
                        self.next_batch < self.batches@.len(),
                        self.batches@ == old(self).batches@,
                        self.next_batch == old(self).next_batch,
                        self.phase == old(self).phase,
                        self.before == old(self).before,
                        self.planned == old(self).planned,
                        layers == self.batches@[self.next_batch as int].layers@,
                        account_after(open, layers, results@, i as nat) == (Account {
                            assumed: self.assumed,
                            failed: self.failed,
                            cancelled: stopped,
                        }),
                    decreases n - i,
                {
                    let file_size = self.batches[self.next_batch].layers[i].file_size;
                    match results[i] {
                        LayerEviction::Evicted => {
                            self.assumed.add_available_bytes(file_size);
                        },
                        LayerEviction::NotFound | LayerEviction::Failed => {
                            // not evicted, and not tried again in this iteration
                            self.failed = count_layer(self.failed, file_size);
                        },
                        LayerEviction::Cancelled => {
                            stopped = true;
                        },
                    }
                    i = i + 1;
                }
                proof {
                    lemma_account_closed(open, layers, results@, i as nat, n as nat);
                }
            },
            None => {},
        }
        self.next_batch = self.next_batch + 1;
        self.phase = if cancelled || stopped {
            Phase::Cancelled
        } else if self.next_batch == self.batches.len() {
            Phase::Finished
        } else {
            Phase::Evicting
        };
    }

    /// The outcome, once the iteration has ended.
    pub fn outcome(&self) -> (outcome: Option<IterationOutcome<U>>)
        ensures
            outcome == self@.outcome(),
    {
        match self.phase {
            Phase::NoPressure => Some(IterationOutcome::NoPressure),
            Phase::Cancelled => Some(IterationOutcome::Cancelled),
            Phase::Finished => Some(
                IterationOutcome::Finished(
                    IterationOutcomeFinished {
                        before: self.before,
                        planned: self.planned,
                        assumed: AssumedUsage {
                            projected_after: self.assumed,
                            failed: self.failed,
                        },
                    },
                ),
            ),
            _ => None,
        }
    }
}

/// Once a cancelled eviction was met, later results change nothing.
pub proof fn lemma_account_closed<U: Usage>(
    account: Account<U>,
    layers: Seq<EvictionCandidate>,
    results: Seq<LayerEviction>,
    i: nat,
    n: nat,
)
    requires
        i <= n,
        account_after(account, layers, results, i).cancelled || i == n,
    ensures
        account_after(account, layers, results, n) == account_after(account, layers, results, i),
    decreases n,
{
    if i < n {
        lemma_account_closed(account, layers, results, i, (n - 1) as nat);
    }
}

/// What the outside hands back to an iteration.
pub enum Event {
    /// The collection of candidates was cancelled.
    CollectionCancelled,
    /// The candidates above and below the reservations were collected.
    Collected(Seq<EvictionCandidate>, Seq<EvictionCandidate>),
    /// The next batch was evicted, with these results and this signal.
    BatchEvicted(Option<Seq<LayerEviction>>, bool),
}

impl<U: Usage> IterationView<U> {
    /// The iteration after `event`.
    pub open spec fn after(self, event: Event) -> Self {
        match event {
            Event::CollectionCancelled => self.collection_cancelled(),
            Event::Collected(above, below) => self.planned_over(above, below),
            Event::BatchEvicted(results, cancelled) => self.batch_evicted(results, cancelled),
        }
    }

    /// The iteration after all of `events`, in their order.
    pub open spec fn after_all(self, events: Seq<Event>) -> Self
        decreases events.len(),
    {
        if events.len() == 0 {
            self
        } else {
            self.after_all(events.drop_last()).after(events.last())
        }
    }
}

/// An iteration that has ended stays as it is, whatever is handed to it,
/// and asks for nothing but to be reported.
pub proof fn lemma_ended_is_final<U: Usage>(iteration: IterationView<U>, events: Seq<Event>)
    requires
        iteration.ended(),
    ensures
        iteration.after_all(events) == iteration,
        iteration.action() == Action::Report,
        iteration.outcome() is Some,
    decreases events.len(),
{
    if events.len() > 0 {
        lemma_ended_is_final(iteration, events.drop_last());
    }
}

/// Without pressure at the start the outcome is `NoPressure`, and at no
/// point is a collection or an eviction asked for.
pub proof fn lemma_no_pressure_short_circuit<U: Usage>(usage_pre: U, events: Seq<Event>)
    requires
        !usage_pre.pressure(),
    ensures
        IterationView::begin(usage_pre).after_all(events).outcome() == Some(
            IterationOutcome::<U>::NoPressure,
        ),
        IterationView::begin(usage_pre).after_all(events).action() == Action::Report,
{
    lemma_ended_is_final(IterationView::begin(usage_pre), events);
}

/// The outcome is decided by the usage at the start and by what the
/// outside answers: two iterations that agree on both agree on every state.
pub proof fn lemma_same_answers_same_outcome<U: Usage>(
    first: U,
    second: U,
    first_events: Seq<Event>,
    second_events: Seq<Event>,
)
    requires
        first == second,
        first_events =~= second_events,
    ensures
        IterationView::begin(first).after_all(first_events) == IterationView::begin(
            second,
        ).after_all(second_events),
{
}

/// Cancellation ends the iteration: once the collection is cancelled, a
/// batch meets a cancelled eviction, or the signal is seen after a batch,
/// the outcome is `Cancelled` and no further eviction is asked for,
/// whatever follows.
pub proof fn lemma_cancellation_respected<U: Usage>(
    iteration: IterationView<U>,
    event: Event,
    later: Seq<Event>,
)
    requires
        match event {
            Event::CollectionCancelled => iteration.phase == Phase::AwaitingCandidates,
            Event::Collected(_, _) => false,
            Event::BatchEvicted(results, cancelled) => iteration.evicting() && (cancelled || (
                results matches Some(r) && r.contains(LayerEviction::Cancelled))),
        },
    ensures
        iteration.after(event).after_all(later).outcome() == Some(
            IterationOutcome::<U>::Cancelled,
        ),
        iteration.after(event).after_all(later).action() == Action::Report,
        iteration.after(event).after_all(later).assumed == iteration.after(event).assumed,
{
    if let Event::BatchEvicted(Some(results), cancelled) = event {
        if results.contains(LayerEviction::Cancelled) {
            let open = Account {
                assumed: iteration.assumed,
                failed: iteration.failed,
                cancelled: false,
            };
            let at = choose|i: int| 0 <= i < results.len() && results[i] == LayerEviction::Cancelled;
            lemma_cancelled_result_closes(
                open,
                iteration.batches[iteration.next_batch as int].layers,
                results,
                at as nat,
                results.len(),
            );
        }
    }
    lemma_ended_is_final(iteration.after(event), later);
}

/// From a cancelled result on, the account is closed.
pub proof fn lemma_cancelled_result_closes<U: Usage>(
    account: Account<U>,
    layers: Seq<EvictionCandidate>,
    results: Seq<LayerEviction>,
    at: nat,
    n: nat,
)
    requires
        at < n <= results.len(),
        results[at as int] == LayerEviction::Cancelled,
    ensures
        account_after(account, layers, results, n).cancelled,
    decreases n,
{
    if at + 1 < n {
        lemma_cancelled_result_closes(account, layers, results, at, (n - 1) as nat);
    }
}

/// While planning walks, the projection shows pressure before every
/// candidate that it takes; it stops at the first candidate before which
/// the pressure is gone.
pub proof fn lemma_planned_count<U: Usage>(usage: U, order: Seq<EvictionCandidate>, taken: nat)
    requires
        taken <= order.len(),
    ensures
        taken <= planned_count_from(usage, order, taken) <= order.len(),
        forall|k: int|
            taken <= k < planned_count_from(usage, order, taken) ==> #[trigger] usage_after(
                usage,
                order.take(k),
            ).pressure(),
        planned_count_from(usage, order, taken) < order.len() ==> !usage_after(
            usage,
            order.take(planned_count_from(usage, order, taken) as int),
        ).pressure(),
    decreases order.len() - taken,
{
    if taken < order.len() && usage_after(usage, order.take(taken as int)).pressure() {
        lemma_planned_count(usage, order, taken + 1);
    }
}

/// Evicting one list of layers after another is evicting them in a row.
pub proof fn lemma_usage_after_both<U: Usage>(
    usage: U,
    first: Seq<EvictionCandidate>,
    then: Seq<EvictionCandidate>,
)
    ensures
        usage_after(usage, first + then) == usage_after(usage_after(usage, first), then),
    decreases then.len(),
{
    if then.len() == 0 {
        assert(first + then == first);
    } else {
        lemma_usage_after_both(usage, first, then.drop_last());
        assert((first + then).drop_last() == first + then.drop_last());
        assert((first + then).last() == then.last());
    }
}

/// Planning falls back to the global order exactly when there are reserved
/// layers and the projection showed pressure all the way through the
/// layers outside the reservations. The plan then holds both projections.
/// The one that respected the reservations has every layer outside the
/// reservations evicted. The final one has the oldest reserved layers
/// evicted on top of that, as many as were planned, and at least one.
pub proof fn lemma_reservation_fallback<U: Usage>(
    usage: U,
    above: Seq<EvictionCandidate>,
    below: Seq<EvictionCandidate>,
)
    ensures
        planned_usage(usage, above, below).fallback_to_global_lru is Some <==> below.len() > 0
            && forall|k: int|
            0 <= k <= above.len() ==> #[trigger] usage_after(usage, above.take(k)).pressure(),
        planned_usage(usage, above, below).fallback_to_global_lru is Some <==> planned_count(
            usage,
            above + below,
        ) > above.len(),
        planned_usage(usage, above, below).fallback_to_global_lru matches Some(fallback) ==> ({
            let respecting = planned_usage(usage, above, below).respecting_tenant_min_resident_size;
            let reserved = planned_count(usage, above + below) - above.len();
            &&& respecting == usage_after(usage, above)
            &&& respecting.pressure()
            &&& 0 < reserved <= below.len()
            &&& fallback == usage_after(respecting, below.take(reserved))
        }),
{
    let order = above + below;
    let count = planned_count(usage, order);
    lemma_planned_count(usage, order, 0);
    assert forall|k: int| 0 <= k <= above.len() implies order.take(k) == above.take(k) by {
        assert(order.take(k) =~= above.take(k));
    }
    assert(above.take(above.len() as int) == above);
    if count > above.len() {
        assert forall|k: int| 0 <= k <= above.len() implies #[trigger] usage_after(
            usage,
            above.take(k),
        ).pressure() by {
            assert(usage_after(usage, order.take(k)).pressure());
        }
        let reserved = count - above.len();
        assert(order.take(count as int) == above + below.take(reserved));
        lemma_usage_after_both(usage, above, below.take(reserved));
    } else if below.len() > 0 {
        assert(count < order.len());
        assert(order.take(count as int) == above.take(count as int));
        assert(!usage_after(usage, above.take(count as int)).pressure());
    }
}

/// Whether freeing bytes never brings pressure about.
pub open spec fn frees_monotonically<U: Usage>() -> bool {
    forall|usage: U, bytes: u64| !usage.pressure() ==> !(#[trigger] usage.freed(bytes)).pressure()
}

/// With a usage that frees monotonically, pressure that is gone stays away.
pub proof fn lemma_relieved_stays_relieved<U: Usage>(
    usage: U,
    evicted: Seq<EvictionCandidate>,
    upto: int,
)
    requires
        frees_monotonically::<U>(),
        0 <= upto <= evicted.len(),
        !usage_after(usage, evicted.take(upto)).pressure(),
    ensures
        !usage_after(usage, evicted).pressure(),
    decreases evicted.len() - upto,
{
    if upto < evicted.len() {
        let next = evicted.take(upto + 1);
        assert(next.drop_last() == evicted.take(upto));
        let relieved = usage_after(usage, evicted.take(upto));
        assert(!relieved.freed(next.last().file_size).pressure());
        lemma_relieved_stays_relieved(usage, evicted, upto + 1);
    } else {
        assert(evicted.take(upto) == evicted);
    }
}

/// With a usage that frees monotonically, planning falls back to the
/// global order exactly when there are reserved layers and evicting every
/// layer outside the reservations does not relieve the pressure.
pub proof fn lemma_fallback_when_reservations_do_not_suffice<U: Usage>(
    usage: U,
    above: Seq<EvictionCandidate>,
    below: Seq<EvictionCandidate>,
)
    requires
        frees_monotonically::<U>(),
    ensures
        planned_usage(usage, above, below).fallback_to_global_lru is Some <==> below.len() > 0
            && usage_after(usage, above).pressure(),
{
    lemma_reservation_fallback(usage, above, below);
    assert(above.take(above.len() as int) == above);
    if usage_after(usage, above).pressure() {
        assert forall|k: int| 0 <= k <= above.len() implies #[trigger] usage_after(
            usage,
            above.take(k),
        ).pressure() by {
            if !usage_after(usage, above.take(k)).pressure() {
                lemma_relieved_stays_relieved(usage, above, k);
            }
        }
    }
}

/// The results of a batch of `n` layers that were all evicted.
pub open spec fn all_evicted(n: nat) -> Seq<LayerEviction> {
    Seq::new(n, |i: int| LayerEviction::Evicted)
}

impl<U: Usage> IterationView<U> {
    /// The iteration after its next `k` batches were evicted in full,
    /// without a signal of cancellation.
    pub open spec fn fully_evicted(self, k: nat) -> Self
        decreases k,
    {
        if k == 0 {
            self
        } else {
            let before = self.fully_evicted((k - 1) as nat);
            if before.evicting() {
                before.batch_evicted(
                    Some(all_evicted(before.batches[before.next_batch as int].layers.len())),
                    false,
                )
            } else {
                before
            }
        }
    }
}

/// The bytes of `selected` that the first `k` of `timelines` own.
pub open spec fn owned_size(selected: Seq<EvictionCandidate>, timelines: Seq<u64>, k: nat) -> nat
    decreases k,
{
    if k == 0 {
        0
    } else {
        owned_size(selected, timelines, (k - 1) as nat) + size_sum(
            batch_of(selected, timelines[k - 1]),
        )
    }
}

/// A batch that is evicted in full frees each of its layers.
pub proof fn lemma_all_evicted<U: Usage>(
    account: Account<U>,
    layers: Seq<EvictionCandidate>,
    k: nat,
)
    requires
        !account.cancelled,
        k <= layers.len(),
    ensures
        account_after(account, layers, all_evicted(layers.len()), k) == (Account {
            assumed: usage_after(account.assumed, layers.take(k as int)),
            ..account
        }),
    decreases k,
{
    if k == 0 {
        assert(layers.take(0) == Seq::<EvictionCandidate>::empty());
    } else {
        lemma_all_evicted(account, layers, (k - 1) as nat);
        assert(layers.take(k as int).drop_last() == layers.take(k - 1));
        assert(layers.take(k as int).last() == layers[k - 1]);
    }
}

/// One more candidate adds its bytes to the timeline that owns it.
proof fn lemma_owned_size_push(
    selected: Seq<EvictionCandidate>,
    candidate: EvictionCandidate,
    timelines: Seq<u64>,
    k: nat,
)
    requires
        timelines.no_duplicates(),
        k <= timelines.len(),
    ensures
        owned_size(selected.push(candidate), timelines, k) == owned_size(selected, timelines, k)
            + (if exists|i: int| 0 <= i < k && timelines[i] == candidate.timeline {
            candidate.file_size as nat
        } else {
            0
        }),
    decreases k,
{
    broadcast use Seq::lemma_filter_push;

    if k > 0 {
        lemma_owned_size_push(selected, candidate, timelines, (k - 1) as nat);
        let timeline = timelines[k - 1];
        let owned = batch_of(selected, timeline);
        if timeline == candidate.timeline {
            assert(batch_of(selected.push(candidate), timeline) == owned.push(candidate));
            assert(owned.push(candidate).drop_last() == owned);
            assert(!exists|i: int| 0 <= i < k - 1 && timelines[i] == candidate.timeline);
        } else {
            assert(batch_of(selected.push(candidate), timeline) == owned);
            if exists|i: int| 0 <= i < k && timelines[i] == candidate.timeline {
                let i = choose|i: int| 0 <= i < k && timelines[i] == candidate.timeline;
                assert(0 <= i < k - 1 && timelines[i] == candidate.timeline);
            }
        }
    }
}

/// What timelines own depends on the timelines that are looked at only.
proof fn lemma_owned_size_prefix(
    selected: Seq<EvictionCandidate>,
    timelines: Seq<u64>,
    longer: Seq<u64>,
    k: nat,
)
    requires
        k <= timelines.len() <= longer.len(),
        forall|i: int| 0 <= i < k ==> timelines[i] == longer[i],
    ensures
        owned_size(selected, timelines, k) == owned_size(selected, longer, k),
    decreases k,
{
    if k > 0 {
        lemma_owned_size_prefix(selected, timelines, longer, (k - 1) as nat);
    }
}

/// The batches hold the bytes of the selection, no more and no less.
pub proof fn lemma_batches_hold_the_selection(selected: Seq<EvictionCandidate>)
    ensures
        owned_size(selected, batch_timelines(selected), batch_timelines(selected).len())
            == size_sum(selected),
    decreases selected.len(),
{
    broadcast use Seq::lemma_filter_push;

    if selected.len() > 0 {
        let before = selected.drop_last();
        let last = selected.last();
        let timelines = batch_timelines(before);
        assert(selected == before.push(last));
        lemma_batches_hold_the_selection(before);
        lemma_batch_timelines_distinct(before);
        lemma_owned_size_push(before, last, timelines, timelines.len());
        if timelines.contains(last.timeline) {
            let i = choose|i: int| 0 <= i < timelines.len() && timelines[i] == last.timeline;
            assert(0 <= i < timelines.len() && timelines[i] == last.timeline);
        } else {
            let longer = timelines.push(last.timeline);
            lemma_owned_size_prefix(selected, timelines, longer, timelines.len());
            lemma_new_timeline_owns_nothing(before, last.timeline);
            let owned = batch_of(selected, last.timeline);
            assert(owned == Seq::<EvictionCandidate>::empty().push(last));
            assert(owned.drop_last() == Seq::<EvictionCandidate>::empty());
            assert(owned.last() == last);
            assert(size_sum(Seq::<EvictionCandidate>::empty()) == 0);
            assert(size_sum(owned) == last.file_size);
            assert(longer[timelines.len() as int] == last.timeline);
        }
    }
}

} // verus!
