//! Collecting the eviction candidates of all tenants into one list, ordered
//! as they should be evicted.
//!
//! For example, take two tenants, A and B, with five layers each, `a` to
//! `e`. Each layer has size 100, and both tenants reserve 150 bytes. The
//! candidates come out in this order:
//!
//! | last activity | tenant/layer | reservation |
//! |---------------|--------------|-------------|
//! | 18:29         | B/c          | above       |
//! | 18:30         | A/c          | above       |
//! | 19:00         | A/b          | above       |
//! | 19:05         | B/b          | above       |
//! | 20:00         | B/a          | above       |
//! | 20:03         | A/a          | above       |
//! | 20:30         | A/d          | below       |
//! | 20:40         | B/d          | below       |
//! | 20:45         | B/e          | below       |
//! | 20:58         | A/e          | below       |

use vstd::prelude::*;
use crate::disk_usage_eviction_task::candidates::{
    EvictionCandidate,
    MinResidentSizePartition,
    lemma_lru_sorted,
    lru_sorted,
    partition_tenant,
    sort_lru,
    sorted_by_last_activity,
    tenant_above,
    tenant_below,
};

verus! {

/// What a timeline reports of one of its resident layers.
#[derive(Debug, Clone, Copy, PartialEq, Eq)]
pub struct LayerInfo {
    /// Identity of the layer.
    pub layer: u64,
    /// Size of the layer file in bytes.
    pub file_size: u64,
    /// Time of the last access, in nanoseconds since the Unix epoch.
    pub last_activity_ts: u64,
}

/// The layers of one timeline at the time of the snapshot.
#[derive(Debug)]
pub struct TimelineLayers {
    /// Identity of the timeline.
    pub timeline: u64,
    /// Layers of timelines that are not active are left alone.
    pub is_active: bool,
    /// The layers that are resident on local disk.
    pub resident_layers: Vec<LayerInfo>,
    /// Size of the timeline's largest layer, resident or not.
    pub max_layer_size: Option<u64>,
}

/// The timelines of one tenant at the time of the snapshot.
#[derive(Debug)]
pub struct TenantLayers {
    /// The tenant's own reservation, where it is configured.
    pub min_resident_size_override: Option<u64>,
    pub timelines: Vec<TimelineLayers>,
}

/// All candidates, split by their tenant's reservation. Both lists are
/// ordered by last activity, oldest first.
#[derive(Debug)]
pub struct MinResidentSizePartitionedCandidates {
    pub above: Vec<EvictionCandidate>,
    pub below: Vec<EvictionCandidate>,
}

/// What a collection ended with.
#[derive(Debug)]
pub enum EvictionCandidates {
    Cancelled,
    Finished(MinResidentSizePartitionedCandidates),
}

impl LayerInfo {
    /// The layer as a candidate of `timeline`.
    pub open spec fn candidate(self, timeline: u64) -> EvictionCandidate {
        EvictionCandidate {
            timeline,
            layer: self.layer,
            file_size: self.file_size,
            last_activity_ts: self.last_activity_ts,
        }
    }
}

impl TimelineLayers {
    /// The resident layers as candidates, in the order reported.
    pub open spec fn candidates(self) -> Seq<EvictionCandidate> {
        Seq::new(
            self.resident_layers@.len(),
            |i: int| self.resident_layers@[i].candidate(self.timeline),
        )
    }

    /// What the timeline adds to the tenant's largest layer size.
    pub open spec fn largest_layer(self) -> u64 {
        match self.max_layer_size {
            Some(size) => size,
            None => 0,
        }
    }
}

impl TenantLayers {
    /// The candidates of the active ones among the first `n` timelines.
    pub open spec fn candidates_of_first(self, n: nat) -> Seq<EvictionCandidate>
        decreases n,
    {
        if n == 0 {
            Seq::empty()
        } else {
            let timeline = self.timelines@[n - 1];
            let before = self.candidates_of_first((n - 1) as nat);
            if timeline.is_active {
                before + timeline.candidates()
            } else {
                before
            }
        }
    }

    /// The largest layer size among the active ones of the first `n`
    /// timelines; zero where there is none.
    pub open spec fn max_layer_size_of_first(self, n: nat) -> u64
        decreases n,
    {
        if n == 0 {
            0
        } else {
            let timeline = self.timelines@[n - 1];
            let before = self.max_layer_size_of_first((n - 1) as nat);
            if timeline.is_active && timeline.largest_layer() > before {
                timeline.largest_layer()
            } else {
                before
            }
        }
    }

    /// The resident layers of all active timelines.
    pub open spec fn candidates(self) -> Seq<EvictionCandidate> {
        self.candidates_of_first(self.timelines@.len())
    }

    /// The bytes that the tenant keeps resident: its override, or else the
    /// size of its largest layer, so that at least one layer can stay.
    pub open spec fn min_resident_size(self) -> u64 {
        match self.min_resident_size_override {
            Some(size) => size,
            None => self.max_layer_size_of_first(self.timelines@.len()),
        }
    }
}

/// The candidates outside the reservations of the first `n` tenants.
pub open spec fn above_of_first(tenants: Seq<TenantLayers>, n: nat) -> Seq<EvictionCandidate>
    decreases n,
{
    if n == 0 {
        Seq::empty()
    } else {
        above_of_first(tenants, (n - 1) as nat) + tenant_above(
            tenants[n - 1].candidates(),
            tenants[n - 1].min_resident_size(),
        )
    }
}

/// The candidates inside the reservations of the first `n` tenants.
pub open spec fn below_of_first(tenants: Seq<TenantLayers>, n: nat) -> Seq<EvictionCandidate>
    decreases n,
{
    if n == 0 {
        Seq::empty()
    } else {
        below_of_first(tenants, (n - 1) as nat) + tenant_below(
            tenants[n - 1].candidates(),
            tenants[n - 1].min_resident_size(),
        )
    }
}

/// Each candidate of `candidates` with `partition`.
pub open spec fn tagged(
    partition: MinResidentSizePartition,
    candidates: Seq<EvictionCandidate>,
) -> Seq<(MinResidentSizePartition, EvictionCandidate)> {
    Seq::new(candidates.len(), |i: int| (partition, candidates[i]))
}

/// `is_sorted_by_key` of the crate `is_sorted`, over the candidates' last
/// activity: whether no candidate is followed by one of earlier activity.
#[verifier::external_body]
fn is_sorted_by_last_activity(candidates: &Vec<EvictionCandidate>) -> (sorted: bool)
    ensures
        sorted == sorted_by_last_activity(candidates@),
{
    is_sorted::IsSorted::is_sorted_by_key(&mut candidates.iter(), |c| c.last_activity_ts)
}

impl MinResidentSizePartitionedCandidates {
    /// Both lists are ordered by last activity, oldest first.
    pub open spec fn spec_is_sorted(&self) -> bool {
        sorted_by_last_activity(self.above@) && sorted_by_last_activity(self.below@)
    }

    /// All candidates in eviction order: `above`, then `below`.
    pub open spec fn eviction_order(self) -> Seq<(MinResidentSizePartition, EvictionCandidate)> {
        tagged(MinResidentSizePartition::Above, self.above@) + tagged(
            MinResidentSizePartition::Below,
            self.below@,
        )
    }

    /// Whether both lists are ordered as eviction expects them.
    #[verifier::when_used_as_spec(spec_is_sorted)]
    pub fn is_sorted(&self) -> (sorted: bool)
        ensures
            sorted == self.spec_is_sorted(),
    {
        is_sorted_by_last_activity(&self.above) && is_sorted_by_last_activity(&self.below)
    }

    pub fn num_candidates(&self) -> (n: usize)
        requires
            self.above@.len() + self.below@.len() <= usize::MAX,
        ensures
            n == self.above@.len() + self.below@.len(),
    {
        self.above.len() + self.below.len()
    }

    /// The candidates in the order in which they are evicted: everything
    /// outside the reservations, oldest first, then the reserved layers,
    /// oldest first. Each candidate is tagged with its side.
    pub fn into_iter_in_eviction_order(self) -> (order: Vec<
        (MinResidentSizePartition, EvictionCandidate),
    >)
        requires
            self.spec_is_sorted(),
            self.above@.len() + self.below@.len() <= usize::MAX,
        ensures
            order@ == self.eviction_order(),
    {
        let mut order: Vec<(MinResidentSizePartition, EvictionCandidate)> = Vec::new();
        let mut i: usize = 0;
        while i < self.above.len()
            invariant
                i <= self.above@.len(),
                order@ == tagged(MinResidentSizePartition::Above, self.above@.take(i as int)),
            decreases self.above@.len() - i,
        {
            order.push((MinResidentSizePartition::Above, self.above[i]));
            i = i + 1;
            assert(order@ == tagged(MinResidentSizePartition::Above, self.above@.take(i as int)));
        }
        assert(self.above@.take(i as int) == self.above@);
        let mut j: usize = 0;
        while j < self.below.len()
            invariant
                j <= self.below@.len(),
                order@ == tagged(MinResidentSizePartition::Above, self.above@) + tagged(
                    MinResidentSizePartition::Below,
                    self.below@.take(j as int),
                ),
            decreases self.below@.len() - j,
        {
            order.push((MinResidentSizePartition::Below, self.below[j]));
            j = j + 1;
            assert(order@ == tagged(MinResidentSizePartition::Above, self.above@) + tagged(
                MinResidentSizePartition::Below,
                self.below@.take(j as int),
            ));
        }
        assert(self.below@.take(j as int) == self.below@);
        order
    }
}

/// The resident layers of the tenant's active timelines, and the size of
/// the largest layer that these timelines report.
fn tenant_candidates(tenant: &TenantLayers) -> (res: (Vec<EvictionCandidate>, u64))
    ensures
        res.0@ == tenant.candidates(),
        res.1 == tenant.max_layer_size_of_first(tenant.timelines@.len()),
{
    let mut candidates: Vec<EvictionCandidate> = Vec::new();
    let mut max_layer_size: u64 = 0;
    let mut t: usize = 0;
    while t < tenant.timelines.len()
        invariant
            t <= tenant.timelines@.len(),
            candidates@ == tenant.candidates_of_first(t as nat),
            max_layer_size == tenant.max_layer_size_of_first(t as nat),
        decreases tenant.timelines@.len() - t,
    {
        let tl = &tenant.timelines[t];
        if tl.is_active {
            let ghost before = candidates@;
            let mut l: usize = 0;
            while l < tl.resident_layers.len()
                invariant
                    l <= tl.resident_layers@.len(),
                    candidates@ == before + tl.candidates().take(l as int),
                decreases tl.resident_layers@.len() - l,
            {
                let info = &tl.resident_layers[l];
                candidates.push(
                    EvictionCandidate {
                        timeline: tl.timeline,
                        layer: info.layer,
                        file_size: info.file_size,
                        last_activity_ts: info.last_activity_ts,
                    },
                );
                l = l + 1;
                assert(candidates@ == before + tl.candidates().take(l as int));
            }
            assert(tl.candidates().take(l as int) == tl.candidates());
            let largest = match tl.max_layer_size {
                Some(size) => size,
                None => 0,
            };
            if largest > max_layer_size {
                max_layer_size = largest;
            }
        }
        t = t + 1;
    }
    (candidates, max_layer_size)
}

/// Collects the resident layers of all active timelines of all tenants, and
/// returns them in the order in which they should be evicted.
///
/// Each tenant keeps its most recently used layers, up to its reservation:
/// walking its layers from the most recently used one, a layer is reserved
/// while the layers before it hold no more than the reservation. The
/// reservation is the tenant's override or else the size of its largest
/// layer. Reserved layers go to `below`, all others to `above`, and each
/// list is then ordered least recently used first over all tenants.
pub fn collect_eviction_candidates(tenants: &Vec<TenantLayers>) -> (res:
    MinResidentSizePartitionedCandidates)
    ensures
        res.above@ == lru_sorted(above_of_first(tenants@, tenants@.len())),
        res.below@ == lru_sorted(below_of_first(tenants@, tenants@.len())),
        res.above@.to_multiset() == above_of_first(tenants@, tenants@.len()).to_multiset(),
        res.below@.to_multiset() == below_of_first(tenants@, tenants@.len()).to_multiset(),
        res.spec_is_sorted(),
{
    let mut above_min_resident_size: Vec<EvictionCandidate> = Vec::new();
    let mut below_min_resident_size: Vec<EvictionCandidate> = Vec::new();
    let mut i: usize = 0;
    while i < tenants.len()
        invariant
            i <= tenants@.len(),
            above_min_resident_size@ == above_of_first(tenants@, i as nat),
            below_min_resident_size@ == below_of_first(tenants@, i as nat),
        decreases tenants@.len() - i,
    {
        let tenant = &tenants[i];
        let (candidates, max_layer_size) = tenant_candidates(tenant);
        // The reservation defaults to the size of the tenant's largest
        // layer, so that at least one layer can be resident at any time.
        let min_resident_size = match tenant.min_resident_size_override {
            Some(size) => size,
            None => max_layer_size,
        };
        partition_tenant(
            candidates,
            min_resident_size,
            &mut above_min_resident_size,
            &mut below_min_resident_size,
        );
        i = i + 1;
    }
    proof {
        lemma_lru_sorted(above_min_resident_size@);
        lemma_lru_sorted(below_min_resident_size@);
    }
    sort_lru(&mut above_min_resident_size);
    sort_lru(&mut below_min_resident_size);
    MinResidentSizePartitionedCandidates {
        above: above_min_resident_size,
        below: below_min_resident_size,
    }
}

} // verus!
