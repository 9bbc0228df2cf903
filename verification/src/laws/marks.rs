//! What a mark counts, in terms of latencies and published thresholds.

use vstd::prelude::*;

use crate::bucket::{
    bucket_of, calibration_grid, default_grid, law_grids_increase, lemma_bucket_of,
    lemma_bucket_unique,
};
use crate::checkpoint::{Checkpoint, ContextState, MarkMode, Outcome, Thresholds};
use crate::context::Ctx;
use crate::init::{StageId, Tracegrams};
use crate::laws::scoring::{
    after_previous_tail, in_local_tail, leaving_tail, of_first_marks, reported_value,
};
use crate::layout::{CalibrationDistribution, Cell, DiagnosticCounter};
use crate::matrix::MatrixCell;
use crate::snapshot::CalibrationState;

verus! {

/// The smaller of two numbers.
pub open spec fn smaller(first: int, second: int) -> int {
    if first <= second {
        first
    } else {
        second
    }
}

/// The latency that a mark is recorded with, which a count of nanoseconds limits.
pub open spec fn recorded_local(mark: Checkpoint) -> int {
    smaller(mark.elapsed_ns as int, u64::MAX as int)
}

/// The cumulative latency that a mark leaves, which a count of nanoseconds limits.
pub open spec fn recorded_after(mark: Checkpoint) -> int {
    smaller(mark.context.cumulative_ns + recorded_local(mark), u64::MAX as int)
}

/// A value lies in a bucket of a grid: at or above the bound before it, and below
/// the bound after it.
pub open spec fn lies_in(value: int, bounds: Seq<u64>, bucket: int) -> bool {
    &&& 0 <= bucket <= bounds.len()
    &&& bucket > 0 ==> bounds[bucket - 1] <= value
    &&& bucket < bounds.len() ==> value < bounds[bucket]
}

proof fn lemma_lies_in(value: u64, bounds: Seq<u64>)
    requires
        crate::bucket::sorted(bounds),
    ensures
        forall|bucket: int| #[trigger]
            lies_in(value as int, bounds, bucket) <==> bucket == bucket_of(value, bounds),
{
    lemma_bucket_of(value, bounds);
    assert forall|bucket: int| #[trigger] lies_in(value as int, bounds, bucket) implies bucket
        == bucket_of(value, bounds) by {
        lemma_bucket_unique(value, bounds, bucket);
    }
}

/// A mark is rejected exactly for its reason, and the reasons are tried in the
/// order of context, stage, order of stages and clock.
pub proof fn law_marks_are_rejected_for_their_reason(mark: Checkpoint)
    ensures
        ({
            let own_context = mark.context.cookie == mark.cookie;
            let own_stage = mark.stage.cookie == mark.cookie;
            let later = mark.context.previous is None || mark.context.previous->0.stage
                < mark.stage.index;
            &&& mark.rejection() == Some(DiagnosticCounter::InvalidContextMarks) <==> !own_context
            &&& mark.rejection() == Some(DiagnosticCounter::InvalidStageMarks) <==> own_context
                && !own_stage
            &&& mark.rejection() == Some(DiagnosticCounter::NonMonotonicMarks) <==> own_context
                && own_stage && !later
            &&& mark.rejection() == Some(DiagnosticCounter::ClockRegressions) <==> own_context
                && own_stage && later && mark.regressed
            &&& mark.rejection() is None <==> own_context && own_stage && later && !mark.regressed
        }),
{
}

/// An accepted mark moves its request on by the recorded latency, to its stage,
/// in the bucket that the cumulative latency lies in. A rejected one leaves the
/// request as it was.
pub proof fn law_accepted_marks_move_the_request(mark: Checkpoint)
    ensures
        mark.rejection() is Some ==> mark.advanced() == mark.context,
        mark.rejection() is None ==> {
            let next = mark.advanced();
            &&& next.cumulative_ns == recorded_after(mark)
            &&& next.cookie == mark.context.cookie
            &&& next.calibration_epoch == mark.context.calibration_epoch
            &&& next.previous is Some
            &&& next.previous->0.stage == mark.stage.index
            &&& lies_in(
                recorded_after(mark),
                default_grid(),
                next.previous->0.cumulative_bucket as int,
            )
        },
{
    law_grids_increase();
    lemma_lies_in(mark.cumulative_ns(), default_grid());
    lemma_bucket_of(mark.cumulative_ns(), default_grid());
    mark.lemma_advanced_bucket();
    assert(lies_in(
        mark.cumulative_ns() as int,
        default_grid(),
        bucket_of(mark.cumulative_ns(), default_grid()) as int,
    ));
}

/// A request whose last mark is in the bucket of its cumulative latency.
pub open spec fn is_coherent(context: ContextState) -> bool {
    context.previous is Some ==> lies_in(
        context.cumulative_ns as int,
        default_grid(),
        context.previous->0.cumulative_bucket as int,
    )
}

/// Marks keep requests coherent, so that a predecessor is counted in the row of
/// the cumulative latency that it left.
pub proof fn law_marks_keep_requests_coherent(mark: Checkpoint)
    requires
        is_coherent(mark.context),
    ensures
        is_coherent(mark.advanced()),
{
    law_accepted_marks_move_the_request(mark);
}

/// An accepted mark counts its local and its cumulative latency in the bucket
/// that each lies in, at its own stage and nowhere else; with a predecessor it
/// also counts both against the bucket that the predecessor left.
pub proof fn law_accepted_marks_count_their_latencies(
    mark: Checkpoint,
    stage: usize,
    row: usize,
    bucket: usize,
)
    requires
        mark.rejection() is None,
    ensures
        ({
            let here = stage == mark.stage.index;
            let local = lies_in(recorded_local(mark), default_grid(), bucket as int);
            let after = lies_in(recorded_after(mark), default_grid(), bucket as int);
            let from = mark.context.previous is Some && row
                == mark.context.previous->0.cumulative_bucket;
            &&& mark.touches(Cell::Matrix(MatrixCell::Local { stage, bucket })) <==> here && local
            &&& mark.touches(Cell::Matrix(MatrixCell::Cumulative { stage, bucket })) <==> here
                && after
            &&& mark.touches(
                Cell::Matrix(
                    MatrixCell::Cause { destination: stage, previous: row, local: bucket },
                ),
            ) <==> here && from && local
            &&& mark.touches(
                Cell::Matrix(
                    MatrixCell::Incoming { destination: stage, previous: row, after: bucket },
                ),
            ) <==> here && from && after
        }),
{
    law_grids_increase();
    lemma_lies_in(mark.local_ns(), default_grid());
    lemma_lies_in(mark.cumulative_ns(), default_grid());
    assert(lies_in(mark.local_ns() as int, default_grid(), bucket as int) <==> bucket
        == mark.local_bucket());
    assert(lies_in(mark.cumulative_ns() as int, default_grid(), bucket as int) <==> bucket
        == mark.cumulative_bucket());
}

/// While collecting, and only then, an accepted mark counts its local latency,
/// its cumulative latency after and, with a predecessor, its cumulative latency
/// before in the calibration bucket that each lies in.
pub proof fn law_accepted_marks_are_collected(mark: Checkpoint, stage: usize, bucket: usize)
    requires
        mark.rejection() is None,
    ensures
        ({
            let collected = mark.mode == MarkMode::Collecting && stage == mark.stage.index;
            let grid = calibration_grid();
            &&& mark.touches(
                Cell::Calibration { stage, distribution: CalibrationDistribution::Local, bucket },
            ) <==> collected && lies_in(recorded_local(mark), grid, bucket as int)
            &&& mark.touches(
                Cell::Calibration {
                    stage,
                    distribution: CalibrationDistribution::CumulativeAfter,
                    bucket,
                },
            ) <==> collected && lies_in(recorded_after(mark), grid, bucket as int)
            &&& mark.touches(
                Cell::Calibration {
                    stage,
                    distribution: CalibrationDistribution::PreviousCumulative,
                    bucket,
                },
            ) <==> collected && mark.context.previous is Some && lies_in(
                mark.context.cumulative_ns as int,
                grid,
                bucket as int,
            )
        }),
{
    law_grids_increase();
    lemma_lies_in(mark.local_ns(), calibration_grid());
    lemma_lies_in(mark.cumulative_ns(), calibration_grid());
    lemma_lies_in(mark.context.cumulative_ns, calibration_grid());
    assert(lies_in(mark.local_ns() as int, calibration_grid(), bucket as int) <==> bucket
        == bucket_of(mark.local_ns(), calibration_grid()));
    assert(lies_in(mark.cumulative_ns() as int, calibration_grid(), bucket as int) <==> bucket
        == bucket_of(mark.cumulative_ns(), calibration_grid()));
    assert(lies_in(mark.context.cumulative_ns as int, calibration_grid(), bucket as int) <==> bucket
        == bucket_of(mark.context.cumulative_ns, calibration_grid()));
}

/// The thresholds that a mark is held against, when it is held against any: those
/// of its stage, in the epoch that its request started in.
pub open spec fn held_against(mark: Checkpoint) -> Option<Thresholds> {
    match mark.mode {
        MarkMode::Frozen { epoch, thresholds } => if mark.context.calibration_epoch == epoch {
            thresholds
        } else {
            None
        },
        MarkMode::Collecting => None,
        MarkMode::Freezing => None,
    }
}

/// An accepted mark that is held against thresholds is counted in the truth cell
/// whose predicates it satisfies: local tail from the local threshold on,
/// cumulative tail after from the cumulative-after threshold on, and, with a
/// predecessor at whatever stage, cumulative tail before from the
/// previous-cumulative threshold on. A mark with a predecessor and no threshold
/// for it is counted in no cell, and neither is one that is held against nothing.
pub proof fn law_truth_cells_hold_what_their_predicates_say(
    mark: Checkpoint,
    stage: usize,
    cell: usize,
)
    requires
        mark.rejection() is None,
        cell < 12,
    ensures
        mark.touches(Cell::Online { stage, counter: cell }) <==> match held_against(mark) {
            None => false,
            Some(thresholds) => {
                &&& stage == mark.stage.index
                &&& in_local_tail(cell as int) <==> recorded_local(mark) >= thresholds.local
                &&& leaving_tail(cell as int) <==> recorded_after(mark)
                    >= thresholds.cumulative_after
                &&& of_first_marks(cell as int) <==> mark.context.previous is None
                &&& mark.context.previous is Some ==> thresholds.previous_cumulative is Some && (
                after_previous_tail(cell as int) <==> mark.context.cumulative_ns
                    >= thresholds.previous_cumulative->0)
            },
        },
{
}

/// An accepted mark counts an anomaly exactly when there is one: a latency or a
/// sum that a count cannot hold, a sample that a freeze in progress skips, or a
/// predecessor that no threshold was published for.
pub proof fn law_accepted_marks_count_their_anomalies(
    mark: Checkpoint,
    diagnostic: DiagnosticCounter,
)
    requires
        mark.rejection() is None,
    ensures
        mark.touches(Cell::Diagnostic(diagnostic)) <==> match diagnostic {
            DiagnosticCounter::LatencyOverflows => mark.elapsed_ns > u64::MAX,
            DiagnosticCounter::CumulativeOverflows => mark.context.cumulative_ns + recorded_local(
                mark,
            ) > u64::MAX,
            DiagnosticCounter::CalibrationSamplesSkippedWhileFreezing => mark.mode
                == MarkMode::Freezing,
            DiagnosticCounter::OnlineSamplesSkippedMissingPreviousThreshold => {
                mark.context.previous is Some && match held_against(mark) {
                    Some(thresholds) => thresholds.previous_cumulative is None,
                    None => false,
                }
            },
            DiagnosticCounter::InvalidStageMarks => false,
            DiagnosticCounter::InvalidContextMarks => false,
            DiagnosticCounter::NonMonotonicMarks => false,
            DiagnosticCounter::ClockRegressions => false,
        },
{
}

/// A rejected mark counts its reason and nothing else.
pub proof fn law_rejected_marks_count_their_reason(mark: Checkpoint, cell: Cell)
    requires
        mark.rejection() is Some,
    ensures
        mark.touches(cell) <==> cell == Cell::Diagnostic(mark.rejection()->0),
{
}

/// Recording adds one to every counter that the mark touches and that is not at
/// its largest value, and changes nothing else of the recorder.
pub proof fn law_recording_adds_one_to_what_is_touched(
    before: Tracegrams,
    after: Tracegrams,
    mark: Checkpoint,
    cell: Cell,
)
    requires
        after.follows(before, mark),
        before.inner.layout.holds(cell),
    ensures
        ({
            let place = before.inner.layout.offset(cell);
            after.inner.counters@[place] == smaller(
                before.inner.counters@[place] + (if mark.touches(cell) {
                    1int
                } else {
                    0int
                }),
                u64::MAX as int,
            )
        }),
        after.inner.counters@.len() == before.inner.counters@.len(),
        after.inner.cookie == before.inner.cookie,
        after.inner.stage_names == before.inner.stage_names,
        after.inner.tail_quantile == before.inner.tail_quantile,
        after.inner.memory_budget_bytes == before.inner.memory_budget_bytes,
        after.inner.memory_estimate == before.inner.memory_estimate,
        after.inner.layout == before.inner.layout,
        after.inner.default_bounds == before.inner.default_bounds,
        after.inner.calibration_bounds == before.inner.calibration_bounds,
        after.inner.calibration_state == before.inner.calibration_state,
        after.inner.calibration_epoch == before.inner.calibration_epoch,
        after.inner.frozen_calibration == before.inner.frozen_calibration,
{
    assert(after.inner.counters@[before.inner.layout.offset(cell)] == crate::recorder::stepped(
        before.inner.counters@[before.inner.layout.offset(cell)],
        mark.touches(cell),
    ));
}

/// A mark of a recorder is the mark that was asked for, and it is held against
/// the values that the recorder published for the stage: while frozen, in the
/// epoch of the request, and for a stage with published values.
pub proof fn law_marks_are_held_against_the_published_values(
    recorder: Tracegrams,
    context: ContextState,
    stage: StageId,
    regressed: bool,
    elapsed_ns: u128,
    outcome: Option<Outcome>,
)
    requires
        recorder.wf(),
    ensures
        ({
            let mark = recorder.checkpoint(context, stage, regressed, elapsed_ns, outcome);
            let frozen = recorder.inner.frozen_calibration@;
            let index = stage.index as int;
            let state = recorder.inner.calibration_state;
            let published = state == CalibrationState::Frozen && context.calibration_epoch
                == recorder.inner.calibration_epoch && index < frozen.len() && frozen[index]
                is Some;
            &&& mark.cookie == recorder.inner.cookie
            &&& mark.context == context
            &&& mark.stage == stage
            &&& mark.regressed == regressed
            &&& mark.elapsed_ns == elapsed_ns
            &&& mark.outcome == outcome
            &&& mark.mode == MarkMode::Collecting <==> state == CalibrationState::Collecting
            &&& mark.mode == MarkMode::Freezing <==> state == CalibrationState::Freezing
            &&& held_against(mark) is Some <==> published
            &&& published ==> {
                let report = frozen[index]->0.report;
                let held = held_against(mark)->0;
                &&& Some(held.local) == reported_value(report.local)
                &&& Some(held.cumulative_after) == reported_value(report.cumulative_after)
                &&& held.previous_cumulative == reported_value(report.previous_cumulative)
                &&& report.stage == (StageId { cookie: recorder.inner.cookie, index: stage.index })
            }
        }),
{
}

/// The cumulative latency of a clocked request is the time since it started:
/// accepted marks add up to it, and rejected ones leave both times as they were.
pub proof fn law_clocked_latencies_add_up_to_the_time_since_the_start(
    recorder: Tracegrams,
    context: Ctx,
    stage: StageId,
    now_ns: u64,
    outcome: Option<Outcome>,
    start_ns: u64,
)
    requires
        start_ns <= context.last_ns,
        context.cumulative_ns == context.last_ns - start_ns,
    ensures
        ({
            let mark = recorder.clocked_checkpoint(context, stage, now_ns, outcome);
            &&& mark.regressed <==> now_ns < context.last_ns
            &&& mark.stage == stage
            &&& mark.outcome == outcome
            &&& mark.rejection() is None ==> mark.advanced().cumulative_ns == now_ns - start_ns
                && mark.elapsed_ns == now_ns - context.last_ns
        }),
{
}

/// A clocked request continues from the state that it was left in, by the time
/// since its last reading.
pub proof fn law_clocked_requests_keep_their_state(
    recorder: Tracegrams,
    context: Ctx,
    stage: StageId,
    now_ns: u64,
    outcome: Option<Outcome>,
)
    ensures
        ({
            let mark = recorder.clocked_checkpoint(context, stage, now_ns, outcome);
            &&& mark.context.cumulative_ns == context.cumulative_ns
            &&& mark.context.cookie == context.cookie
            &&& mark.context.calibration_epoch == context.calibration_epoch
            &&& mark.cookie == recorder.inner.cookie
            &&& mark.regressed <==> now_ns < context.last_ns
            &&& now_ns >= context.last_ns ==> mark.elapsed_ns == now_ns - context.last_ns
            &&& mark.context.previous is None <==> context.previous_bucket == 255
            &&& mark.context.previous is Some ==> mark.context.previous->0.stage
                == context.previous_stage && mark.context.previous->0.cumulative_bucket
                == context.previous_bucket
        }),
{
}

} // verus!
