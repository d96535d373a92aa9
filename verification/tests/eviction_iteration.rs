use pageserver_core::disk_usage_eviction_task::candidates::EvictionCandidate;
use pageserver_core::disk_usage_eviction_task::collect::{
    EvictionCandidates, MinResidentSizePartitionedCandidates,
};
use pageserver_core::disk_usage_eviction_task::filesystem_level_usage::{get, Statvfs, Usage};
use pageserver_core::disk_usage_eviction_task::iteration::{
    Action, Iteration, LayerEviction, Phase,
};
use pageserver_core::disk_usage_eviction_task::{
    AssumedUsage, DiskUsageEvictionTaskConfig, IterationOutcome, IterationOutcomeFinished,
    LayerCount, PlannedUsage,
};
use pageserver_core::percent::Percent;

fn config(min_avail_bytes: u64) -> DiskUsageEvictionTaskConfig {
    DiskUsageEvictionTaskConfig {
        max_usage_pct: Percent::new(100).unwrap(),
        min_avail_bytes,
        period: 1,
    }
}

fn usage(config: &DiskUsageEvictionTaskConfig, avail: u64) -> Usage<'_> {
    get(
        &Statvfs { fragment_size: 1, block_size: 1, blocks_available: avail, blocks: 10_000 },
        config,
    )
}

fn with_avail<'a>(config: &'a DiskUsageEvictionTaskConfig, avail: u64) -> Usage<'a> {
    Usage { config, total_bytes: 10_000, avail_bytes: avail }
}

fn candidate(timeline: u64, layer: u64, file_size: u64, ts: u64) -> EvictionCandidate {
    EvictionCandidate { timeline, layer, file_size, last_activity_ts: ts }
}

/// Two timelines; four layers above the reservations, two below.
fn candidates() -> MinResidentSizePartitionedCandidates {
    MinResidentSizePartitionedCandidates {
        above: vec![
            candidate(1, 10, 100, 1),
            candidate(2, 20, 100, 2),
            candidate(1, 11, 100, 3),
            candidate(2, 21, 100, 4),
        ],
        below: vec![candidate(2, 22, 100, 5), candidate(1, 12, 100, 6)],
    }
}

fn layers_of(candidates: &[EvictionCandidate]) -> Vec<u64> {
    candidates.iter().map(|c| c.layer).collect()
}

/// Evicts every batch with full success.
fn run_to_end(iteration: &mut Iteration<Usage<'_>>) -> usize {
    let mut evictions = 0;
    while let Action::Evict(batch) = iteration.action() {
        let n = iteration.batches[batch].layers.len();
        iteration.batch_evicted(Some(vec![LayerEviction::Evicted; n]), false);
        evictions += 1;
    }
    evictions
}

#[test]
fn no_pressure_short_circuit() {
    let config = config(500);
    let mut iteration = Iteration::begin(usage(&config, 500));
    assert_eq!(iteration.phase, Phase::NoPressure);
    assert_eq!(iteration.action(), Action::Report);
    assert_eq!(iteration.outcome(), Some(IterationOutcome::NoPressure));

    // whatever is handed to it later changes nothing
    iteration.candidates_collected(EvictionCandidates::Finished(candidates()));
    assert_eq!(iteration.action(), Action::Report);
    assert!(iteration.batches.is_empty());
    iteration.batch_evicted(Some(vec![LayerEviction::Evicted]), true);
    assert_eq!(iteration.outcome(), Some(IterationOutcome::NoPressure));
}

#[test]
fn plans_until_pressure_is_relieved() {
    let config = config(500);
    let before = usage(&config, 250);
    let mut iteration = Iteration::begin(before);
    assert_eq!(iteration.action(), Action::Collect);
    assert_eq!(iteration.outcome(), None);

    iteration.candidates_collected(EvictionCandidates::Finished(candidates()));
    // 250 bytes are missing: three layers of 100
    assert_eq!(iteration.phase, Phase::Evicting);
    assert_eq!(iteration.batches.len(), 2);
    assert_eq!(iteration.batches[0].timeline, 1);
    assert_eq!(layers_of(&iteration.batches[0].layers), vec![10, 11]);
    assert_eq!(iteration.batches[1].timeline, 2);
    assert_eq!(layers_of(&iteration.batches[1].layers), vec![20]);
    assert_eq!(
        iteration.planned,
        PlannedUsage {
            respecting_tenant_min_resident_size: with_avail(&config, 550),
            fallback_to_global_lru: None,
        }
    );

    assert_eq!(iteration.action(), Action::Evict(0));
    iteration.batch_evicted(
        Some(vec![LayerEviction::Evicted, LayerEviction::NotFound]),
        false,
    );
    assert_eq!(iteration.action(), Action::Evict(1));
    assert_eq!(iteration.outcome(), None);
    iteration.batch_evicted(Some(vec![LayerEviction::Evicted]), false);
    assert_eq!(iteration.action(), Action::Report);

    assert_eq!(
        iteration.outcome(),
        Some(IterationOutcome::Finished(IterationOutcomeFinished {
            before,
            planned: PlannedUsage {
                respecting_tenant_min_resident_size: with_avail(&config, 550),
                fallback_to_global_lru: None,
            },
            assumed: AssumedUsage {
                projected_after: with_avail(&config, 450),
                failed: LayerCount { file_sizes: 100, count: 1 },
            },
        }))
    );
}

#[test]
fn idempotence_under_no_change() {
    let config = config(500);
    let mut first = Iteration::begin(usage(&config, 100));
    first.candidates_collected(EvictionCandidates::Finished(candidates()));
    let mut second = Iteration::begin(usage(&config, 100));
    second.candidates_collected(EvictionCandidates::Finished(candidates()));
    assert_eq!(run_to_end(&mut first), 2);
    assert_eq!(run_to_end(&mut second), 2);
    assert!(matches!(first.outcome(), Some(IterationOutcome::Finished(_))));
    assert_eq!(first.outcome(), second.outcome());
}

#[test]
fn cancellation_respected() {
    let config = config(500);
    let mut iteration = Iteration::begin(usage(&config, 100));
    iteration.candidates_collected(EvictionCandidates::Finished(candidates()));
    assert_eq!(iteration.action(), Action::Evict(0));
    // the signal came between planning and the first eviction: the batch
    // reports every layer as cancelled
    iteration.batch_evicted(
        Some(vec![LayerEviction::Cancelled, LayerEviction::Cancelled]),
        true,
    );
    assert_eq!(iteration.phase, Phase::Cancelled);
    assert_eq!(iteration.action(), Action::Report);
    assert_eq!(iteration.outcome(), Some(IterationOutcome::Cancelled));
    assert_eq!(iteration.assumed, usage(&config, 100));

    // no eviction counts after that
    iteration.batch_evicted(Some(vec![LayerEviction::Evicted, LayerEviction::Evicted]), false);
    assert_eq!(iteration.assumed, usage(&config, 100));
    assert_eq!(iteration.outcome(), Some(IterationOutcome::Cancelled));
}

#[test]
fn a_cancelled_layer_cancels_the_iteration() {
    let config = config(500);
    let mut iteration = Iteration::begin(usage(&config, 100));
    iteration.candidates_collected(EvictionCandidates::Finished(candidates()));
    iteration.batch_evicted(
        Some(vec![LayerEviction::Evicted, LayerEviction::Cancelled]),
        false,
    );
    assert_eq!(iteration.outcome(), Some(IterationOutcome::Cancelled));
    assert_eq!(iteration.action(), Action::Report);
}

#[test]
fn the_signal_after_a_batch_cancels_the_iteration() {
    let config = config(500);
    let mut iteration = Iteration::begin(usage(&config, 100));
    iteration.candidates_collected(EvictionCandidates::Finished(candidates()));
    iteration.batch_evicted(Some(vec![LayerEviction::Evicted, LayerEviction::Evicted]), true);
    assert_eq!(iteration.outcome(), Some(IterationOutcome::Cancelled));
}

#[test]
fn a_cancelled_collection_cancels_the_iteration() {
    let config = config(500);
    let mut iteration = Iteration::begin(usage(&config, 100));
    iteration.candidates_collected(EvictionCandidates::Cancelled);
    assert_eq!(iteration.action(), Action::Report);
    assert_eq!(iteration.outcome(), Some(IterationOutcome::Cancelled));
}

#[test]
fn reservation_fallback() {
    let config = config(500);
    let before = usage(&config, 50);
    let mut iteration = Iteration::begin(before);
    iteration.candidates_collected(EvictionCandidates::Finished(candidates()));
    // 450 bytes are missing, 400 lie outside the reservations
    assert_eq!(
        iteration.planned,
        PlannedUsage {
            respecting_tenant_min_resident_size: with_avail(&config, 450),
            fallback_to_global_lru: Some(with_avail(&config, 550)),
        }
    );
    assert_eq!(layers_of(&iteration.batches[0].layers), vec![10, 11]);
    assert_eq!(layers_of(&iteration.batches[1].layers), vec![20, 21, 22]);
    assert_eq!(run_to_end(&mut iteration), 2);
    match iteration.outcome() {
        Some(IterationOutcome::Finished(finished)) => {
            assert_eq!(finished.before, before);
            assert!(finished.planned.fallback_to_global_lru.is_some());
            assert_eq!(finished.assumed.projected_after, with_avail(&config, 550));
            assert_eq!(finished.assumed.failed, LayerCount { file_sizes: 0, count: 0 });
        }
        other => panic!("unexpected outcome {other:?}"),
    }
}

#[test]
fn no_fallback_where_the_reservations_suffice_exactly() {
    let config = config(500);
    let mut iteration = Iteration::begin(usage(&config, 100));
    iteration.candidates_collected(EvictionCandidates::Finished(candidates()));
    // exactly the four layers above the reservations
    assert_eq!(
        iteration.planned,
        PlannedUsage {
            respecting_tenant_min_resident_size: with_avail(&config, 500),
            fallback_to_global_lru: None,
        }
    );
}

#[test]
fn pressure_that_cannot_be_relieved_takes_everything() {
    let config = config(5_000);
    let mut iteration = Iteration::begin(usage(&config, 0));
    iteration.candidates_collected(EvictionCandidates::Finished(candidates()));
    assert_eq!(
        iteration.planned,
        PlannedUsage {
            respecting_tenant_min_resident_size: with_avail(&config, 400),
            fallback_to_global_lru: Some(with_avail(&config, 600)),
        }
    );
    assert_eq!(layers_of(&iteration.batches[0].layers), vec![10, 11, 12]);
    assert_eq!(layers_of(&iteration.batches[1].layers), vec![20, 21, 22]);
}

#[test]
fn nothing_to_evict_finishes_at_once() {
    let config = config(500);
    let before = usage(&config, 0);
    let mut iteration = Iteration::begin(before);
    iteration.candidates_collected(EvictionCandidates::Finished(
        MinResidentSizePartitionedCandidates { above: vec![], below: vec![] },
    ));
    assert_eq!(iteration.action(), Action::Report);
    assert_eq!(
        iteration.outcome(),
        Some(IterationOutcome::Finished(IterationOutcomeFinished {
            before,
            planned: PlannedUsage {
                respecting_tenant_min_resident_size: before,
                fallback_to_global_lru: None,
            },
            assumed: AssumedUsage {
                projected_after: before,
                failed: LayerCount { file_sizes: 0, count: 0 },
            },
        }))
    );
}

#[test]
fn a_failed_batch_is_passed_over() {
    let config = config(500);
    let mut iteration = Iteration::begin(usage(&config, 250));
    iteration.candidates_collected(EvictionCandidates::Finished(candidates()));
    // the eviction of the first batch failed as a whole
    iteration.batch_evicted(None, false);
    assert_eq!(iteration.action(), Action::Evict(1));
    assert_eq!(iteration.assumed, with_avail(&config, 250));
    assert_eq!(iteration.failed, LayerCount { file_sizes: 0, count: 0 });
    iteration.batch_evicted(Some(vec![LayerEviction::Evicted]), false);
    match iteration.outcome() {
        Some(IterationOutcome::Finished(finished)) => {
            assert_eq!(finished.assumed.projected_after, with_avail(&config, 350));
            assert_eq!(finished.assumed.failed, LayerCount { file_sizes: 0, count: 0 });
        }
        other => panic!("unexpected outcome {other:?}"),
    }
}

#[test]
fn a_layer_whose_eviction_failed_is_counted_as_failed() {
    let config = config(500);
    let mut iteration = Iteration::begin(usage(&config, 250));
    iteration.candidates_collected(EvictionCandidates::Finished(candidates()));
    iteration.batch_evicted(Some(vec![LayerEviction::Failed, LayerEviction::Evicted]), false);
    assert_eq!(iteration.assumed, with_avail(&config, 350));
    assert_eq!(iteration.failed, LayerCount { file_sizes: 100, count: 1 });
    iteration.batch_evicted(Some(vec![LayerEviction::Failed]), false);
    match iteration.outcome() {
        Some(IterationOutcome::Finished(finished)) => {
            // the failed layers are not counted as evicted
            assert_eq!(finished.assumed.projected_after, with_avail(&config, 350));
            assert_eq!(finished.assumed.failed, LayerCount { file_sizes: 200, count: 2 });
        }
        other => panic!("unexpected outcome {other:?}"),
    }
}

#[test]
fn failed_and_missing_layers_are_counted_together() {
    let config = config(5_000);
    let mut iteration = Iteration::begin(usage(&config, 0));
    iteration.candidates_collected(EvictionCandidates::Finished(
        MinResidentSizePartitionedCandidates {
            above: vec![
                candidate(1, 1, 10, 1),
                candidate(1, 2, 20, 2),
                candidate(1, 3, 40, 3),
                candidate(1, 4, 80, 4),
            ],
            below: vec![],
        },
    ));
    iteration.batch_evicted(
        Some(vec![
            LayerEviction::Failed,
            LayerEviction::Evicted,
            LayerEviction::NotFound,
            LayerEviction::Failed,
        ]),
        false,
    );
    assert_eq!(iteration.assumed, with_avail(&config, 20));
    assert_eq!(iteration.failed, LayerCount { file_sizes: 130, count: 3 });
}

#[test]
fn failed_sizes_stop_at_the_largest_value() {
    let config = config(u64::MAX);
    let mut iteration = Iteration::begin(usage(&config, 0));
    iteration.candidates_collected(EvictionCandidates::Finished(
        MinResidentSizePartitionedCandidates {
            above: vec![candidate(1, 1, u64::MAX - 1, 1), candidate(1, 2, 5, 2)],
            below: vec![],
        },
    ));
    iteration.batch_evicted(
        Some(vec![LayerEviction::NotFound, LayerEviction::NotFound]),
        false,
    );
    assert_eq!(iteration.failed, LayerCount { file_sizes: u64::MAX, count: 2 });
}

#[test]
fn the_assumed_usage_is_the_planned_one_where_everything_is_evicted() {
    let config = config(500);
    for avail in [0, 50, 100, 250, 399, 499] {
        let mut iteration = Iteration::begin(usage(&config, avail));
        iteration.candidates_collected(EvictionCandidates::Finished(candidates()));
        let planned = iteration.planned;
        run_to_end(&mut iteration);
        match iteration.outcome() {
            Some(IterationOutcome::Finished(finished)) => {
                let projected = planned
                    .fallback_to_global_lru
                    .unwrap_or(planned.respecting_tenant_min_resident_size);
                assert_eq!(finished.assumed.projected_after, projected);
                assert_eq!(finished.assumed.failed, LayerCount { file_sizes: 0, count: 0 });
                assert_eq!(finished.planned, planned);
            }
            other => panic!("unexpected outcome {other:?}"),
        }
    }
}
