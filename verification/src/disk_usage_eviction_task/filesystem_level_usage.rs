//! Disk usage as the filesystem reports it.

use vstd::prelude::*;
use crate::disk_usage_eviction_task::{
    AssumedUsage,
    DiskUsageEvictionTaskConfig,
    IterationOutcome,
    IterationOutcomeFinished,
    LayerCount,
};
use crate::disk_usage_eviction_task::Usage as _;
use crate::disk_usage_eviction_task::candidates::{EvictionCandidate, size_sum};
use crate::disk_usage_eviction_task::iteration::{
    Account,
    IterationView,
    Phase,
    batch_of,
    batch_timelines,
    batches_of,
    lemma_all_evicted,
    lemma_batches_hold_the_selection,
    frees_monotonically,
    lemma_fallback_when_reservations_do_not_suffice,
    owned_size,
    planned_count,
    planned_usage,
    usage_after,
};

verus! {

/// The numbers of one `statvfs` answer that the usage is computed from.
#[derive(Debug, Clone, Copy, PartialEq, Eq)]
pub struct Statvfs {
    /// Fundamental block size; zero where the filesystem reports none.
    pub fragment_size: u64,
    /// Block size, used where `fragment_size` is zero.
    pub block_size: u64,
    /// Blocks available to unprivileged users.
    pub blocks_available: u64,
    /// Blocks in the filesystem.
    pub blocks: u64,
}

impl Statvfs {
    /// The size that the block counts are multiplied by.
    pub open spec fn unit(self) -> int {
        if self.fragment_size > 0 {
            self.fragment_size as int
        } else {
            self.block_size as int
        }
    }
}

/// Filesystem-level usage, held against the thresholds of `config`.
#[derive(Debug, Clone, Copy, PartialEq, Eq)]
pub struct Usage<'a> {
    pub config: &'a DiskUsageEvictionTaskConfig,
    /// Filesystem capacity
    pub total_bytes: u64,
    /// Free filesystem space
    pub avail_bytes: u64,
}

/// The used share of the filesystem in whole percent, rounded down; zero for
/// an empty filesystem and where at least the total is available.
pub open spec fn usage_pct(total_bytes: int, avail_bytes: int) -> int {
    if total_bytes <= 0 || avail_bytes >= total_bytes {
        0
    } else {
        (100 * (total_bytes - avail_bytes)) / total_bytes
    }
}

/// `a + b`, capped at the largest `u64`.
pub open spec fn saturating_sum(a: u64, b: u64) -> u64 {
    if a + b > u64::MAX {
        u64::MAX
    } else {
        (a + b) as u64
    }
}

fn compute_usage_pct(total_bytes: u64, avail_bytes: u64) -> (pct: u64)
    ensures
        pct == usage_pct(total_bytes as int, avail_bytes as int),
        pct <= 100,
{
    if total_bytes == 0 || avail_bytes >= total_bytes {
        0
    } else {
        let used: u128 = (total_bytes - avail_bytes) as u128;
        let total: u128 = total_bytes as u128;
        assert(0 <= (100 * used) / (total as int) <= 100) by (nonlinear_arith)
            requires
                0 < used <= total,
        ;
        ((100 * used) / total) as u64
    }
}

impl<'a> crate::disk_usage_eviction_task::Usage for Usage<'a> {
    /// Too few bytes are available, or too large a share is used.
    open spec fn pressure(&self) -> bool {
        self.avail_bytes < self.config.min_avail_bytes || usage_pct(
            self.total_bytes as int,
            self.avail_bytes as int,
        ) > self.config.max_usage_pct.value()
    }

    /// `bytes` more are available; the count stops at the largest `u64`.
    open spec fn freed(&self, bytes: u64) -> Self {
        Usage {
            config: self.config,
            total_bytes: self.total_bytes,
            avail_bytes: saturating_sum(self.avail_bytes, bytes),
        }
    }

    fn has_pressure(&self) -> (pressure: bool) {
        let usage_pct = compute_usage_pct(self.total_bytes, self.avail_bytes);
        let max_usage_pct: u64 = self.config.max_usage_pct.get() as u64;
        self.avail_bytes < self.config.min_avail_bytes || usage_pct > max_usage_pct
    }

    fn add_available_bytes(&mut self, bytes: u64) {
        self.avail_bytes = self.avail_bytes.saturating_add(bytes);
    }
}

/// The usage that `stat` describes: block counts times the fragment size,
/// or times the block size where no fragment size is reported.
pub fn get<'a>(stat: &Statvfs, config: &'a DiskUsageEvictionTaskConfig) -> (usage: Usage<'a>)
    requires
        stat.blocks_available * stat.unit() <= u64::MAX,
        stat.blocks * stat.unit() <= u64::MAX,
    ensures
        usage.config == config,
        usage.avail_bytes == stat.blocks_available * stat.unit(),
        usage.total_bytes == stat.blocks * stat.unit(),
{
    // https://unix.stackexchange.com/a/703650
    let blocksize = if stat.fragment_size > 0 {
        stat.fragment_size
    } else {
        stat.block_size
    };
    // blocks_available is what an unprivileged user may still fill
    let avail_bytes = stat.blocks_available * blocksize;
    let total_bytes = stat.blocks * blocksize;
    Usage { config, total_bytes, avail_bytes }
}

/// The more is available, the smaller is the used share.
pub proof fn lemma_usage_pct_falls(total_bytes: int, avail_bytes: int, more: int)
    requires
        0 <= avail_bytes <= more,
    ensures
        0 <= usage_pct(total_bytes, more) <= usage_pct(total_bytes, avail_bytes),
{
    if total_bytes > 0 && more < total_bytes {
        assert(0 <= (100 * (total_bytes - more)) / total_bytes <= (100 * (total_bytes
            - avail_bytes)) / total_bytes) by (nonlinear_arith)
            requires
                total_bytes > 0,
                0 <= avail_bytes <= more < total_bytes,
        ;
    } else if total_bytes > 0 && avail_bytes < total_bytes {
        assert(0 <= (100 * (total_bytes - avail_bytes)) / total_bytes) by (nonlinear_arith)
            requires
                total_bytes > 0,
                avail_bytes < total_bytes,
        ;
    }
}

/// Freeing bytes never brings pressure about: the available bytes do not
/// shrink, and a usage without pressure stays without pressure.
pub proof fn lemma_freeing_relieves(usage: Usage, bytes: u64)
    ensures
        usage.freed(bytes).avail_bytes >= usage.avail_bytes,
        usage.freed(bytes).total_bytes == usage.total_bytes,
        usage.freed(bytes).config == usage.config,
        !usage.pressure() ==> !usage.freed(bytes).pressure(),
{
    lemma_usage_pct_falls(
        usage.total_bytes as int,
        usage.avail_bytes as int,
        usage.freed(bytes).avail_bytes as int,
    );
}

/// The usage of a filesystem frees monotonically. With that, every law of
/// planning that asks for it holds of a filesystem.
pub proof fn lemma_frees_monotonically()
    ensures
        frees_monotonically::<Usage>(),
{
    assert forall|usage: Usage, bytes: u64| !usage.pressure() implies !(#[trigger] usage.freed(
        bytes,
    )).pressure() by {
        lemma_freeing_relieves(usage, bytes);
    }
}

/// For the usage of a filesystem, planning falls back to the global order
/// exactly when there are reserved layers and evicting every layer outside
/// the reservations does not relieve the pressure.
pub proof fn lemma_filesystem_fallback(
    usage: Usage,
    above: Seq<EvictionCandidate>,
    below: Seq<EvictionCandidate>,
)
    ensures
        planned_usage(usage, above, below).fallback_to_global_lru is Some <==> below.len() > 0
            && usage_after(usage, above).pressure(),
{
    lemma_frees_monotonically();
    lemma_fallback_when_reservations_do_not_suffice(usage, above, below);
}

/// `usage` with `bytes` more bytes available, capped at the largest `u64`.
pub open spec fn with_freed<'a>(usage: Usage<'a>, bytes: nat) -> Usage<'a> {
    Usage {
        config: usage.config,
        total_bytes: usage.total_bytes,
        avail_bytes: if usage.avail_bytes + bytes > u64::MAX {
            u64::MAX
        } else {
            (usage.avail_bytes + bytes) as u64
        },
    }
}

/// Evicting layers makes their bytes available, in whatever order.
pub proof fn lemma_usage_after(usage: Usage, evicted: Seq<EvictionCandidate>)
    ensures
        usage_after(usage, evicted) == with_freed(usage, size_sum(evicted)),
    decreases evicted.len(),
{
    if evicted.len() > 0 {
        lemma_usage_after(usage, evicted.drop_last());
    }
}

/// After the first `k` batches of a plan were evicted in full, the assumed
/// usage has the bytes of these batches available, and nothing has failed.
proof fn lemma_fully_evicted(
    usage: Usage,
    above: Seq<EvictionCandidate>,
    below: Seq<EvictionCandidate>,
    k: nat,
)
    requires
        usage.pressure(),
        k <= batch_timelines(
            (above + below).take(planned_count(usage, above + below) as int),
        ).len(),
    ensures
        ({
            let selected = (above + below).take(planned_count(usage, above + below) as int);
            let timelines = batch_timelines(selected);
            let planned = IterationView::begin(usage).planned_over(above, below);
            let now = planned.fully_evicted(k);
            &&& now.batches == batches_of(selected)
            &&& now.before == usage
            &&& now.planned == planned.planned
            &&& now.next_batch == k
            &&& now.assumed == with_freed(usage, owned_size(selected, timelines, k))
            &&& now.failed == (LayerCount { file_sizes: 0, count: 0 })
            &&& now.phase == if k == timelines.len() {
                Phase::Finished
            } else {
                Phase::Evicting
            }
        }),
    decreases k,
{
    let selected = (above + below).take(planned_count(usage, above + below) as int);
    let timelines = batch_timelines(selected);
    let planned = IterationView::begin(usage).planned_over(above, below);
    assert(batches_of(selected).len() == timelines.len());
    if k > 0 {
        lemma_fully_evicted(usage, above, below, (k - 1) as nat);
        let before = planned.fully_evicted((k - 1) as nat);
        assert(before.evicting());
        let layers = before.batches[k - 1].layers;
        assert(layers == batch_of(selected, timelines[k - 1]));
        let open = Account { assumed: before.assumed, failed: before.failed, cancelled: false };
        lemma_all_evicted(open, layers, layers.len());
        assert(layers.take(layers.len() as int) == layers);
        lemma_usage_after(before.assumed, layers);
    }
}

/// Where every planned layer is evicted, the usage assumed in the end is
/// the planned one, and no layer is counted as failed.
pub proof fn lemma_assumed_is_planned(
    usage: Usage,
    above: Seq<EvictionCandidate>,
    below: Seq<EvictionCandidate>,
)
    requires
        usage.pressure(),
    ensures
        ({
            let planned = IterationView::begin(usage).planned_over(above, below);
            planned.fully_evicted(planned.batches.len()).outcome() == Some(
                IterationOutcome::Finished(
                    IterationOutcomeFinished {
                        before: usage,
                        planned: planned.planned,
                        assumed: AssumedUsage {
                            projected_after: match planned.planned.fallback_to_global_lru {
                                Some(fallback) => fallback,
                                None => planned.planned.respecting_tenant_min_resident_size,
                            },
                            failed: LayerCount { file_sizes: 0, count: 0 },
                        },
                    },
                ),
            )
        }),
{
    let selected = (above + below).take(planned_count(usage, above + below) as int);
    let timelines = batch_timelines(selected);
    assert(batches_of(selected).len() == timelines.len());
    lemma_fully_evicted(usage, above, below, timelines.len());
    lemma_batches_hold_the_selection(selected);
    lemma_usage_after(usage, selected);
}

} // verus!
