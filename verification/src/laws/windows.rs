//! What snapshots and windows show, counter by counter.

use vstd::prelude::*;

use crate::bucket::CALIBRATION_BUCKETS;
use crate::calibration::StageCalibrationReport;
use crate::counts::total;
use crate::init::StageId;
use crate::layout::{
    CalibrationDistribution, Cell, DiagnosticCounter, ONLINE_COUNTERS_PER_STAGE,
};
use crate::matrix::MatrixCell;
use crate::snapshot::{
    CalibrationPopulation, CalibrationState, DeltaError, DeltaSnapshot, OnlineDeltaAvailability,
    Snapshot,
};

verus! {

/// A window shows, of every counter, what was added between its ends; only the
/// online cells of different epochs are not compared and show nothing.
pub proof fn law_windows_subtract_every_counter(later: Snapshot, earlier: Snapshot, cell: Cell)
    requires
        later.wf(),
        earlier.wf(),
        later.layout == earlier.layout,
        later.layout.holds(cell),
    ensures
        ({
            let place = later.layout.offset(cell);
            later.difference(earlier, place) == (if cell is Online && later.calibration_epoch
                != earlier.calibration_epoch {
                0int
            } else {
                later.counters@[place] - earlier.counters@[place]
            })
        }),
{
    later.layout.lemma_offset_bounded(cell);
}

/// Whether a window compares the counter of a cell.
pub open spec fn compared(later: Snapshot, earlier: Snapshot, place: int) -> bool {
    later.calibration_epoch == earlier.calibration_epoch || place < later.layout.online_start
        || place >= later.layout.completion_start
}

/// A window is refused exactly when a compared counter is below its earlier
/// value, and the error shows the two values of the first such counter.
pub proof fn law_windows_are_refused_for_the_first_smaller_counter(
    later: Snapshot,
    earlier: Snapshot,
    end: int,
)
    requires
        0 <= end,
    ensures
        match later.underflow(earlier, end) {
            None => forall|i: int|
                0 <= i < end && compared(later, earlier, i) ==> later.counters@[i]
                    >= #[trigger] earlier.counters@[i],
            Some(error) => exists|i: int|
                #![trigger earlier.counters@[i]]
                0 <= i < end && compared(later, earlier, i) && later.counters@[i]
                    < earlier.counters@[i] && error == (DeltaError::CounterUnderflow {
                    earlier: earlier.counters@[i],
                    later: later.counters@[i],
                }) && forall|j: int|
                    0 <= j < i && compared(later, earlier, j) ==> later.counters@[j]
                        >= #[trigger] earlier.counters@[j],
        },
    decreases end,
{
    if end > 0 {
        law_windows_are_refused_for_the_first_smaller_counter(later, earlier, end - 1);
        assert(earlier.counters@[end - 1] == earlier.counters@[end - 1]);
    }
}

/// A window says whether its ends belong to one epoch, and to which ones.
pub proof fn law_windows_name_their_epochs(later: Snapshot, earlier: Snapshot)
    ensures
        later.online_availability(earlier) == (if later.calibration_epoch
            == earlier.calibration_epoch {
            OnlineDeltaAvailability::SameEpoch { epoch: earlier.calibration_epoch }
        } else {
            OnlineDeltaAvailability::EpochMismatch {
                earlier: earlier.calibration_epoch,
                later: later.calibration_epoch,
            }
        }),
{
}

/// A window is otherwise its later end: brand, stages, places, bounds, quantile,
/// calibration and memory.
pub proof fn law_windows_keep_their_later_end(window: Snapshot, later: Snapshot)
    requires
        window.same_but_counters(later),
    ensures
        window.cookie == later.cookie,
        window.stages@ == later.stages@,
        window.layout == later.layout,
        window.bucket_bounds@ == later.bucket_bounds@,
        window.calibration_bucket_bounds@ == later.calibration_bucket_bounds@,
        window.tail_quantile == later.tail_quantile,
        window.calibration_state == later.calibration_state,
        window.calibration_epoch == later.calibration_epoch,
        window.calibration_report is Some <==> later.calibration_report is Some,
        window.calibration_report is Some ==> {
            &&& window.calibration_report->0.epoch == later.calibration_report->0.epoch
            &&& window.calibration_report->0.consistency == later.calibration_report->0.consistency
            &&& window.calibration_report->0.stages@ == later.calibration_report->0.stages@
        },
        window.memory_budget_bytes == later.memory_budget_bytes,
        window.memory_estimate == later.memory_estimate,
{
}

/// Distributions and matrices of a stage are its counters in their order: by
/// bucket, by row and column, and by truth cell.
pub proof fn law_distributions_are_the_counters_of_their_stage(
    snapshot: Snapshot,
    stage: StageId,
    distribution: CalibrationDistribution,
)
    requires
        snapshot.wf(),
        snapshot.owns(stage),
    ensures
        ({
            let index = stage.index as usize;
            &&& snapshot.local_of(stage) == Seq::new(
                64,
                |b: int|
                    snapshot.count(
                        Cell::Matrix(MatrixCell::Local { stage: index, bucket: b as usize }),
                    ),
            )
            &&& snapshot.cumulative_of(stage) == Seq::new(
                64,
                |b: int|
                    snapshot.count(
                        Cell::Matrix(MatrixCell::Cumulative { stage: index, bucket: b as usize }),
                    ),
            )
            &&& snapshot.cause_of(stage) == Seq::new(
                4096,
                |i: int|
                    snapshot.count(
                        Cell::Matrix(
                            MatrixCell::Cause {
                                destination: index,
                                previous: (i / 64) as usize,
                                local: (i % 64) as usize,
                            },
                        ),
                    ),
            )
            &&& stage.index > 0 ==> snapshot.incoming_of(stage) == Seq::new(
                4096,
                |i: int|
                    snapshot.count(
                        Cell::Matrix(
                            MatrixCell::Incoming {
                                destination: index,
                                previous: (i / 64) as usize,
                                after: (i % 64) as usize,
                            },
                        ),
                    ),
            )
            &&& snapshot.calibration_of(stage, distribution) == Seq::new(
                250,
                |b: int|
                    snapshot.count(
                        Cell::Calibration { stage: index, distribution, bucket: b as usize },
                    ),
            )
            &&& snapshot.online_of(stage) == Seq::new(
                12,
                |c: int| snapshot.count(Cell::Online { stage: index, counter: c as usize }),
            )
        }),
{
    let index = stage.index as usize;
    let layout = snapshot.layout;
    assert(snapshot.local_of(stage) =~= Seq::new(
        64,
        |b: int|
            snapshot.count(Cell::Matrix(MatrixCell::Local { stage: index, bucket: b as usize })),
    ));
    assert(snapshot.cumulative_of(stage) =~= Seq::new(
        64,
        |b: int|
            snapshot.count(
                Cell::Matrix(MatrixCell::Cumulative { stage: index, bucket: b as usize }),
            ),
    ));
    assert(snapshot.cause_of(stage) =~= Seq::new(
        4096,
        |i: int|
            snapshot.count(
                Cell::Matrix(
                    MatrixCell::Cause {
                        destination: index,
                        previous: (i / 64) as usize,
                        local: (i % 64) as usize,
                    },
                ),
            ),
    ));
    if stage.index > 0 {
        assert(snapshot.incoming_of(stage) =~= Seq::new(
            4096,
            |i: int|
                snapshot.count(
                    Cell::Matrix(
                        MatrixCell::Incoming {
                            destination: index,
                            previous: (i / 64) as usize,
                            after: (i % 64) as usize,
                        },
                    ),
                ),
        ));
    }
    layout.lemma_offset_bounded(
        Cell::Calibration {
            stage: index,
            distribution,
            bucket: (CALIBRATION_BUCKETS - 1) as usize,
        },
    );
    assert(snapshot.calibration_of(stage, distribution) =~= Seq::new(
        250,
        |b: int|
            snapshot.count(Cell::Calibration { stage: index, distribution, bucket: b as usize }),
    ));
    layout.lemma_offset_bounded(
        Cell::Online { stage: index, counter: (ONLINE_COUNTERS_PER_STAGE - 1) as usize },
    );
    assert(snapshot.online_of(stage) =~= Seq::new(
        12,
        |c: int| snapshot.count(Cell::Online { stage: index, counter: c as usize }),
    ));
}

/// Sample counts are the sums of the distributions of their names; the first
/// stage has no incoming ones.
pub proof fn law_sample_counts_are_sums(snapshot: Snapshot, stage: StageId)
    requires
        snapshot.wf(),
        snapshot.owns(stage),
    ensures
        ({
            let samples = snapshot.samples_of(stage);
            let calibration = |distribution: CalibrationDistribution|
                total(snapshot.calibration_of(stage, distribution));
            &&& samples.local == total(snapshot.local_of(stage))
            &&& samples.cumulative_after == total(snapshot.cumulative_of(stage))
            &&& samples.cause == total(snapshot.cause_of(stage))
            &&& samples.incoming == (if stage.index == 0 {
                0
            } else {
                total(snapshot.incoming_of(stage))
            })
            &&& samples.calibration_local == calibration(CalibrationDistribution::Local)
            &&& samples.calibration_cumulative_after == calibration(
                CalibrationDistribution::CumulativeAfter,
            )
            &&& samples.calibration_previous_cumulative == calibration(
                CalibrationDistribution::PreviousCumulative,
            )
            &&& samples.online == total(snapshot.online_of(stage))
        }),
{
    law_distributions_are_the_counters_of_their_stage(
        snapshot,
        stage,
        CalibrationDistribution::Local,
    );
    law_distributions_are_the_counters_of_their_stage(
        snapshot,
        stage,
        CalibrationDistribution::CumulativeAfter,
    );
    law_distributions_are_the_counters_of_their_stage(
        snapshot,
        stage,
        CalibrationDistribution::PreviousCumulative,
    );
    lemma_fits(snapshot.local_of(stage));
    lemma_fits(snapshot.cumulative_of(stage));
    lemma_fits(snapshot.cause_of(stage));
    if stage.index > 0 {
        lemma_fits(snapshot.incoming_of(stage));
    }
    lemma_fits(snapshot.calibration_of(stage, CalibrationDistribution::Local));
    lemma_fits(snapshot.calibration_of(stage, CalibrationDistribution::CumulativeAfter));
    lemma_fits(snapshot.calibration_of(stage, CalibrationDistribution::PreviousCumulative));
    lemma_fits(snapshot.online_of(stage));
}

proof fn lemma_fits(counts: Seq<u64>)
    requires
        counts.len() <= 4096,
    ensures
        total(counts) <= u128::MAX,
{
    crate::counts::lemma_total_bound(counts);
    assert(counts.len() * u64::MAX <= 4096 * u64::MAX) by (nonlinear_arith)
        requires
            counts.len() <= 4096,
    ;
}

/// Scores are available from the matrices when both hold samples, and online
/// when frozen truth cells hold some; in a window, only within one epoch.
pub proof fn law_availability_asks_for_samples(window: DeltaSnapshot, stage: StageId)
    ensures
        ({
            let snapshot = window.snapshot;
            let samples = snapshot.samples_of(stage);
            let seen = snapshot.availability_of(stage);
            let shown = window.availability_of(stage);
            &&& seen.matrix_derived <==> samples.cause > 0 && samples.incoming > 0
            &&& seen.calibrated_online <==> snapshot.calibration_state == CalibrationState::Frozen
                && samples.online > 0
            &&& shown.matrix_derived == seen.matrix_derived
            &&& shown.calibrated_online <==> seen.calibrated_online && (
            window.online_delta_availability is SameEpoch)
        }),
{
}

/// Diagnostics show the counter of their name.
pub proof fn law_diagnostics_show_the_counter_of_their_name(snapshot: Snapshot)
    ensures
        ({
            let shown = snapshot.diagnostics_of();
            let count = |diagnostic: DiagnosticCounter|
                snapshot.counters@[snapshot.layout.offset(Cell::Diagnostic(diagnostic))];
            &&& shown.invalid_stage_marks == count(DiagnosticCounter::InvalidStageMarks)
            &&& shown.invalid_context_marks == count(DiagnosticCounter::InvalidContextMarks)
            &&& shown.non_monotonic_marks == count(DiagnosticCounter::NonMonotonicMarks)
            &&& shown.clock_regressions == count(DiagnosticCounter::ClockRegressions)
            &&& shown.latency_overflows == count(DiagnosticCounter::LatencyOverflows)
            &&& shown.cumulative_overflows == count(DiagnosticCounter::CumulativeOverflows)
            &&& shown.calibration_samples_skipped_while_freezing == count(
                DiagnosticCounter::CalibrationSamplesSkippedWhileFreezing,
            )
            &&& shown.online_samples_skipped_missing_previous_threshold == count(
                DiagnosticCounter::OnlineSamplesSkippedMissingPreviousThreshold,
            )
        }),
{
}

/// Populations are read from the distribution that they are collected in.
pub proof fn law_populations_have_their_own_distribution(population: CalibrationPopulation)
    ensures
        crate::snapshot::distribution_of(population) == (if population
            == CalibrationPopulation::Local {
            CalibrationDistribution::Local
        } else if population == CalibrationPopulation::CumulativeAfter {
            CalibrationDistribution::CumulativeAfter
        } else {
            CalibrationDistribution::PreviousCumulative
        }),
{
}

/// Published reports are those of the stages that have one, and nothing else.
pub proof fn law_published_reports_are_those_of_their_stages(
    frozen: Seq<Option<crate::calibration::FrozenStageCalibration>>,
    end: int,
    report: StageCalibrationReport,
)
    requires
        0 <= end <= frozen.len(),
    ensures
        crate::freeze::published_reports(frozen, end).contains(report) <==> exists|i: int|
            0 <= i < end && #[trigger] frozen[i] is Some && frozen[i]->0.report == report,
    decreases end,
{
    if end > 0 {
        law_published_reports_are_those_of_their_stages(frozen, end - 1, report);
        let rest = crate::freeze::published_reports(frozen, end - 1);
        let all = crate::freeze::published_reports(frozen, end);
        if frozen[end - 1] is Some {
            let last = frozen[end - 1]->0.report;
            assert(all == rest.push(last));
            assert(all[rest.len() as int] == last);
            if rest.contains(report) {
                let i = choose|i: int| 0 <= i < rest.len() && rest[i] == report;
                assert(all[i] == report);
            }
            if all.contains(report) {
                let i = choose|i: int| 0 <= i < all.len() && all[i] == report;
                if i < rest.len() {
                    assert(rest[i] == report);
                } else {
                    assert(frozen[end - 1]->0.report == report);
                }
            }
        }
    }
}

/// Published reports come in registration order.
pub proof fn law_published_reports_are_in_registration_order(
    frozen: Seq<Option<crate::calibration::FrozenStageCalibration>>,
    end: int,
)
    requires
        0 <= end <= frozen.len(),
        forall|i: int|
            0 <= i < frozen.len() && #[trigger] frozen[i] is Some
                ==> frozen[i]->0.report.stage.index == i,
    ensures
        ({
            let all = crate::freeze::published_reports(frozen, end);
            &&& forall|i: int| 0 <= i < all.len() ==> (#[trigger] all[i]).stage.index < end
            &&& forall|i: int, j: int|
                0 <= i < j < all.len() ==> (#[trigger] all[i]).stage.index < (
                #[trigger] all[j]).stage.index
        }),
    decreases end,
{
    if end > 0 {
        law_published_reports_are_in_registration_order(frozen, end - 1);
        assert(frozen[end - 1] is Some ==> frozen[end - 1]->0.report.stage.index == end - 1);
    }
}

} // verus!
