//! Disk-usage-driven eviction: which resident layers to evict, in which
//! order, until the projected usage clears every threshold.
//!
//! There are two thresholds. `max_usage_pct` bounds the used share of the
//! filesystem, `min_avail_bytes` the absolute free space. Layers are evicted
//! least recently used first, but each tenant keeps a reservation of its most
//! recently used bytes. Only when evicting everything outside the
//! reservations does not relieve the pressure are reserved layers taken too,
//! again least recently used first.

use vstd::prelude::*;
use crate::percent::Percent;

pub mod candidates;
pub mod collect;
pub mod iteration;
pub mod filesystem_level_usage;

verus! {

/// Thresholds and cadence of the eviction task.
#[derive(Debug, Clone, Copy, PartialEq, Eq)]
pub struct DiskUsageEvictionTaskConfig {
    /// Pressure when more than this share of the filesystem is used.
    pub max_usage_pct: Percent,
    /// Pressure when fewer than this many bytes are available.
    pub min_avail_bytes: u64,
    /// Time between the starts of two iterations, in nanoseconds.
    pub period: u64,
}

/// A snapshot of disk usage that can be asked for pressure and that can
/// simulate the effect of freeing bytes.
pub trait Usage: Copy {
    /// Whether a threshold is violated in this snapshot.
    spec fn pressure(&self) -> bool;

    /// The snapshot after `bytes` more bytes became available.
    spec fn freed(&self, bytes: u64) -> Self;

    fn has_pressure(&self) -> (pressure: bool)
        ensures
            pressure == self.pressure(),
    ;

    fn add_available_bytes(&mut self, bytes: u64)
        ensures
            *final(self) == old(self).freed(bytes),
    ;
}

/// What one iteration ended with.
#[derive(Debug, Clone, Copy, PartialEq, Eq)]
pub enum IterationOutcome<U> {
    NoPressure,
    Cancelled,
    Finished(IterationOutcomeFinished<U>),
}

/// The three usages of an iteration that ran to its end.
#[derive(Debug, Clone, Copy, PartialEq, Eq)]
pub struct IterationOutcomeFinished<U> {
    /// The actual usage observed before the iteration started.
    pub before: U,
    /// The usage expected after the iteration, as planning projected it.
    pub planned: PlannedUsage<U>,
    /// What the evictions achieved by the iteration's own accounting. The
    /// layers are evicted timeline by timeline, not in the order in which
    /// they were planned. Where every planned layer could be evicted, and
    /// the usage does not depend on the order in which bytes are freed, as
    /// that of a filesystem does not, this is the planned usage.
    pub assumed: AssumedUsage<U>,
}

/// The outcome of the evictions themselves.
#[derive(Debug, Clone, Copy, PartialEq, Eq)]
pub struct AssumedUsage<U> {
    /// The usage expected after the evictions that succeeded.
    pub projected_after: U,
    /// The layers that could not be evicted.
    pub failed: LayerCount,
}

/// The outcome of planning.
#[derive(Debug, Clone, Copy, PartialEq, Eq)]
pub struct PlannedUsage<U> {
    /// The projection that leaves every reservation alone. Where no reserved
    /// layer had to be planned, it is the whole projection.
    pub respecting_tenant_min_resident_size: U,
    /// The whole projection, where reserved layers had to be planned too.
    pub fallback_to_global_lru: Option<U>,
}

/// A number of layers and the bytes they hold. Both stop counting at the
/// largest value of their type.
#[derive(Debug, Clone, Copy, PartialEq, Eq)]
pub struct LayerCount {
    pub file_sizes: u64,
    pub count: usize,
}

} // verus!
