//! What holds of the library as a whole.

use vstd::prelude::*;

use crate::bucket::{
    bucket_of, calibration_grid, default_grid, law_grids_increase, lemma_bucket_of,
    lemma_bucket_unique, lemma_calibration_bounds_are_limited, BUCKETS, CALIBRATION_BUCKETS,
    LARGEST_BOUND,
};
use crate::calibration::{
    FreezeCriteria, FreezeError, FreezeReport, FrozenStageCalibration, StageCalibrationReport,
};
use crate::checkpoint::{Checkpoint, ContextState, MarkMode, Outcome};
use crate::counts::total;
use crate::freeze::{
    freeze_attempt, freeze_outcome, frozen_from, published_reports, publishes,
};
use crate::init::{StageId, Tracegrams};
use crate::layout::{
    CalibrationDistribution, Cell, DiagnosticCounter, ONLINE_COUNTERS_PER_STAGE,
    ONLINE_FIRST_COUNTERS,
};
use crate::matrix::{MatrixCell, MATRIX_CELLS};
use crate::quantile::{
    estimate, law_rank_is_within_the_samples, law_representative_lies_in_its_bucket,
    law_selected_bucket_is_the_first, rank_of,
};
use crate::recorder::{bumped, incremented, stepped, Inner};
use crate::snapshot::{CalibrationState, Snapshot};

pub mod freezing;
pub mod history;
pub mod marks;
pub mod numbers;
pub mod registry;
pub mod rendering;
pub mod scoring;
pub mod thresholds;
pub mod windows;

verus! {

/// A rejected checkpoint changes only its diagnostic counter and leaves the
/// request as it was.
pub proof fn law_rejected_marks_change_only_their_diagnostic(
    before: Tracegrams,
    after: Tracegrams,
    checkpoint: Checkpoint,
    diagnostic: DiagnosticCounter,
)
    requires
        before.wf(),
        after.follows(before, checkpoint),
        checkpoint.rejection() == Some(diagnostic),
    ensures
        checkpoint.advanced() == checkpoint.context,
        after.inner.counters@ == before.inner.counters@.update(
            before.inner.layout.offset(Cell::Diagnostic(diagnostic)),
            incremented(
                before.inner.counters@[before.inner.layout.offset(Cell::Diagnostic(diagnostic))],
            ),
        ),
{
    let layout = before.inner.layout;
    let place = layout.offset(Cell::Diagnostic(diagnostic));
    layout.lemma_offset_bounded(Cell::Diagnostic(diagnostic));
    let expected = before.inner.counters@.update(place, incremented(before.inner.counters@[place]));
    assert forall|i: int| 0 <= i < expected.len() implies after.inner.counters@[i]
        == expected[i] by {
        let cell = layout.lemma_place_has_a_cell(i);
        assert(after.inner.counters@[layout.offset(cell)] == stepped(
            before.inner.counters@[layout.offset(cell)],
            checkpoint.touches(cell),
        ));
        if i == place {
            layout.lemma_offsets_are_disjoint(cell, Cell::Diagnostic(diagnostic));
        }
    }
    assert(after.inner.counters@ =~= expected);
}

/// Marks of another recorder's request, at another recorder's stage, or at a
/// stage that does not follow the last one are rejected, in this order.
pub proof fn law_foreign_and_unordered_marks_are_rejected(checkpoint: Checkpoint)
    ensures
        checkpoint.context.cookie != checkpoint.cookie ==> checkpoint.rejection() == Some(
            DiagnosticCounter::InvalidContextMarks,
        ),
        checkpoint.context.cookie == checkpoint.cookie && checkpoint.stage.cookie
            != checkpoint.cookie ==> checkpoint.rejection() == Some(
            DiagnosticCounter::InvalidStageMarks,
        ),
        checkpoint.rejection() is None ==> (checkpoint.context.previous matches Some(previous)
            ==> previous.stage < checkpoint.stage.index),
{
}

/// Accepted marks reach strictly later stages, the cumulative latency of a
/// request never decreases, and its state stays valid.
pub proof fn law_requests_only_advance(checkpoint: Checkpoint)
    ensures
        checkpoint.advanced().cumulative_ns >= checkpoint.context.cumulative_ns,
        checkpoint.context.wf() ==> checkpoint.advanced().wf(),
        checkpoint.advanced().cookie == checkpoint.context.cookie,
        checkpoint.advanced().calibration_epoch == checkpoint.context.calibration_epoch,
        checkpoint.rejection() is None ==> (checkpoint.advanced().previous matches Some(next)
            && next.stage == checkpoint.stage.index && next.cumulative_bucket < BUCKETS && (
        checkpoint.context.previous matches Some(previous) ==> previous.stage < next.stage)),
{
    checkpoint.lemma_advanced_bucket();
}

/// The outcome of a request changes only completion counters: with another
/// outcome, or none, the same other counters are touched and the request
/// continues in the same state.
pub proof fn law_outcomes_change_only_completions(checkpoint: Checkpoint, outcome: Option<Outcome>)
    ensures
        ({
            let other = Checkpoint { outcome, ..checkpoint };
            &&& other.rejection() == checkpoint.rejection()
            &&& other.advanced() == checkpoint.advanced()
            &&& forall|cell: Cell|
                !(cell is Completion) ==> #[trigger] other.touches(cell) == checkpoint.touches(cell)
        }),
{
    let other = Checkpoint { outcome, ..checkpoint };
    assert(other.online_cell() == checkpoint.online_cell());
    assert(other.misses_previous_threshold() == checkpoint.misses_previous_threshold());
    assert forall|cell: Cell| !(cell is Completion) implies #[trigger] other.touches(cell)
        == checkpoint.touches(cell) by {
        match cell {
            Cell::Matrix(inner) => {
                assert(other.touches_matrix(inner) == checkpoint.touches_matrix(inner));
            },
            Cell::Calibration { stage, distribution, bucket } => {
                assert(other.touches_calibration(stage, distribution, bucket)
                    == checkpoint.touches_calibration(stage, distribution, bucket));
            },
            Cell::Online { .. } => {},
            Cell::Completion { .. } => {},
            Cell::Diagnostic(diagnostic) => {
                assert(other.touches_diagnostic(diagnostic) == checkpoint.touches_diagnostic(
                    diagnostic,
                ));
            },
        }
    }
}

/// A completion is counted exactly for an accepted mark that ends its request,
/// at its stage and under its outcome.
pub proof fn law_completions_are_counted_once(checkpoint: Checkpoint, stage: usize, error: bool)
    ensures
        checkpoint.touches(Cell::Completion { stage, error }) <==> checkpoint.rejection() is None
            && stage == checkpoint.stage.index && checkpoint.outcome == Some(
            if error {
                Outcome::Error
            } else {
                Outcome::Success
            },
        ),
{
}

/// A first mark is a clean sentinel: it touches no matrix, no predecessor
/// distribution and no predecessor online cell.
pub proof fn law_first_marks_have_no_predecessor_effects(checkpoint: Checkpoint, cell: Cell)
    requires
        checkpoint.context.previous is None,
        checkpoint.touches(cell),
    ensures
        !(cell matches Cell::Matrix(MatrixCell::Cause { .. })),
        !(cell matches Cell::Matrix(MatrixCell::Incoming { .. })),
        cell matches Cell::Calibration { distribution, .. } ==> distribution
            != CalibrationDistribution::PreviousCumulative,
        cell matches Cell::Online { counter, .. } ==> counter < ONLINE_FIRST_COUNTERS,
        cell != Cell::Diagnostic(
            DiagnosticCounter::OnlineSamplesSkippedMissingPreviousThreshold,
        ),
{
}

/// A mark touches the counters of its own stage only: stages that a request
/// skips are left as they were.
pub proof fn law_marks_touch_only_their_stage(checkpoint: Checkpoint, cell: Cell)
    requires
        checkpoint.touches(cell),
    ensures
        match cell {
            Cell::Matrix(MatrixCell::Local { stage, .. }) => stage == checkpoint.stage.index,
            Cell::Matrix(MatrixCell::Cumulative { stage, .. }) => stage == checkpoint.stage.index,
            Cell::Matrix(MatrixCell::Cause { destination, .. }) => destination
                == checkpoint.stage.index,
            Cell::Matrix(MatrixCell::Incoming { destination, .. }) => destination
                == checkpoint.stage.index,
            Cell::Calibration { stage, .. } => stage == checkpoint.stage.index,
            Cell::Online { stage, .. } => stage == checkpoint.stage.index,
            Cell::Completion { stage, .. } => stage == checkpoint.stage.index,
            Cell::Diagnostic(_) => true,
        },
{
}

/// Calibration samples are taken only while collecting, and online cells are
/// touched only when frozen, in the epoch that the request started in.
pub proof fn law_calibration_and_online_marks_exclude_each_other(checkpoint: Checkpoint, cell: Cell)
    requires
        checkpoint.touches(cell),
    ensures
        cell is Calibration ==> checkpoint.mode is Collecting,
        cell is Online ==> (checkpoint.mode matches MarkMode::Frozen { epoch, thresholds } && epoch
            == checkpoint.context.calibration_epoch && thresholds is Some),
        cell == Cell::Diagnostic(DiagnosticCounter::CalibrationSamplesSkippedWhileFreezing)
            ==> checkpoint.mode is Freezing,
{
}

/// An accepted mark of a calibrated stage in its epoch is classified into one
/// online cell, or counted as missing its predecessor threshold, never both.
pub proof fn law_calibrated_marks_are_classified_once(checkpoint: Checkpoint)
    requires
        checkpoint.rejection() is None,
        checkpoint.applicable_thresholds() is Some,
    ensures
        checkpoint.online_cell() is Some <==> !checkpoint.misses_previous_threshold(),
        checkpoint.online_cell() matches Some(counter) ==> 0 <= counter
            < ONLINE_COUNTERS_PER_STAGE && forall|stage: usize, other: usize| #[trigger]
            checkpoint.touches(Cell::Online { stage, counter: other }) <==> stage
                == checkpoint.stage.index && other == counter,
{
}

/// Checkpoints commute: recording two of them in either order gives the same
/// counters, so that independent requests sum into one recorder.
pub proof fn law_checkpoints_commute(
    before: Tracegrams,
    first: Checkpoint,
    second: Checkpoint,
    after_first: Tracegrams,
    after_both: Tracegrams,
    after_second: Tracegrams,
    after_swapped: Tracegrams,
)
    requires
        before.wf(),
        after_first.follows(before, first),
        after_both.follows(after_first, second),
        after_second.follows(before, second),
        after_swapped.follows(after_second, first),
    ensures
        after_both.inner.counters@ == after_swapped.inner.counters@,
{
    let layout = before.inner.layout;
    assert forall|i: int| 0 <= i < before.inner.counters@.len() implies
        after_both.inner.counters@[i] == after_swapped.inner.counters@[i] by {
        let cell = layout.lemma_place_has_a_cell(i);
        let start = before.inner.counters@[layout.offset(cell)];
        assert(after_first.inner.counters@[layout.offset(cell)] == stepped(
            start,
            first.touches(cell),
        ));
        assert(after_second.inner.counters@[layout.offset(cell)] == stepped(
            start,
            second.touches(cell),
        ));
        assert(after_both.inner.counters@[layout.offset(cell)] == stepped(
            after_first.inner.counters@[layout.offset(cell)],
            second.touches(cell),
        ));
        assert(after_swapped.inner.counters@[layout.offset(cell)] == stepped(
            after_second.inner.counters@[layout.offset(cell)],
            first.touches(cell),
        ));
    }
    assert(after_both.inner.counters@ =~= after_swapped.inner.counters@);
}

/// How many of some checkpoints touch a counter.
pub open spec fn touch_count(checkpoints: Seq<Checkpoint>, cell: Cell) -> nat
    decreases checkpoints.len(),
{
    if checkpoints.len() == 0 {
        0
    } else {
        touch_count(checkpoints.drop_last(), cell) + sample(checkpoints.last().touches(cell))
    }
}

/// Recorders that follow each other by one checkpoint each.
pub open spec fn recorded(states: Seq<Tracegrams>, checkpoints: Seq<Checkpoint>) -> bool {
    &&& states.len() == checkpoints.len() + 1
    &&& states[0].wf()
    &&& forall|i: int|
        0 <= i < checkpoints.len() ==> #[trigger] states[i + 1].follows(states[i], checkpoints[i])
}

/// Counters count: after any sequence of checkpoints each counter has grown by
/// the number of them that touch it, up to its largest value.
pub proof fn law_counters_count_their_events(
    states: Seq<Tracegrams>,
    checkpoints: Seq<Checkpoint>,
    cell: Cell,
)
    requires
        recorded(states, checkpoints),
        states[0].inner.layout.holds(cell),
    ensures
        states.last().inner.layout == states[0].inner.layout,
        ({
            let place = states[0].inner.layout.offset(cell);
            let sum = states[0].inner.counters@[place] + touch_count(checkpoints, cell);
            states.last().inner.counters@[place] == (if sum > u64::MAX {
                u64::MAX as int
            } else {
                sum
            })
        }),
    decreases checkpoints.len(),
{
    if checkpoints.len() > 0 {
        let end = checkpoints.len() - 1;
        let shorter = states.drop_last();
        assert forall|i: int| 0 <= i < end implies #[trigger] shorter[i + 1].follows(
            shorter[i],
            checkpoints.drop_last()[i],
        ) by {
            assert(states[i + 1].follows(states[i], checkpoints[i]));
        }
        law_counters_count_their_events(shorter, checkpoints.drop_last(), cell);
        assert(states[end + 1].follows(states[end], checkpoints[end]));
        let place = states[0].inner.layout.offset(cell);
        assert(states[end + 1].inner.counters@[states[end].inner.layout.offset(cell)] == stepped(
            states[end].inner.counters@[place],
            checkpoints[end].touches(cell),
        ));
    }
}

/// A recorder after a checkpoint is calibrated as it was, so that the same mark
/// makes the same checkpoint before and after another one.
pub proof fn law_recording_keeps_calibration(
    before: Tracegrams,
    after: Tracegrams,
    recorded: Checkpoint,
    context: ContextState,
    stage: StageId,
    regressed: bool,
    elapsed_ns: u128,
    outcome: Option<Outcome>,
)
    requires
        after.follows(before, recorded),
    ensures
        after.current_epoch() == before.current_epoch(),
        after.checkpoint(context, stage, regressed, elapsed_ns, outcome) == before.checkpoint(
            context,
            stage,
            regressed,
            elapsed_ns,
            outcome,
        ),
{
}

/// The counters of a snapshot that follows another one by a checkpoint.
pub open spec fn snapshot_follows(earlier: Snapshot, later: Snapshot, checkpoint: Checkpoint) -> bool {
    &&& earlier.wf()
    &&& later.wf()
    &&& earlier.cookie == later.cookie
    &&& earlier.layout == later.layout
    &&& earlier.calibration_epoch == later.calibration_epoch
    &&& bumped(
        earlier.layout,
        earlier.counters@,
        later.counters@,
        |cell: Cell| checkpoint.touches(cell),
    )
}

/// Snapshots around a checkpoint follow each other by that checkpoint.
pub proof fn law_snapshots_follow_the_recorder(
    before: Tracegrams,
    after: Tracegrams,
    checkpoint: Checkpoint,
    earlier: Snapshot,
    later: Snapshot,
)
    requires
        after.follows(before, checkpoint),
        earlier.wf(),
        later.wf(),
        earlier.cookie == before.inner.cookie,
        later.cookie == after.inner.cookie,
        earlier.layout == before.inner.layout,
        later.layout == after.inner.layout,
        earlier.counters@ == before.inner.counters@,
        later.counters@ == after.inner.counters@,
        earlier.calibration_epoch == before.current_epoch(),
        later.calibration_epoch == after.current_epoch(),
    ensures
        snapshot_follows(earlier, later, checkpoint),
{
}

/// A window around one checkpoint shows exactly the counters that it touched,
/// once each, unless a counter was at its largest value.
pub proof fn law_windows_show_exactly_what_was_recorded(
    earlier: Snapshot,
    later: Snapshot,
    checkpoint: Checkpoint,
    cell: Cell,
)
    requires
        snapshot_follows(earlier, later, checkpoint),
        earlier.layout.holds(cell),
    ensures
        later.difference(earlier, earlier.layout.offset(cell)) == (if checkpoint.touches(cell)
            && earlier.count(cell) < u64::MAX {
            1int
        } else {
            0int
        }),
{
    assert(later.counters@[earlier.layout.offset(cell)] == stepped(
        earlier.counters@[earlier.layout.offset(cell)],
        checkpoint.touches(cell),
    ));
}

/// A later scan of the same recorder: epochs do not go back, and no counter
/// does that is compared.
pub open spec fn progressed(earlier: Snapshot, later: Snapshot) -> bool {
    &&& earlier.cookie == later.cookie
    &&& earlier.layout == later.layout
    &&& earlier.counters@.len() == later.counters@.len()
    &&& earlier.calibration_epoch <= later.calibration_epoch
    &&& forall|i: int|
        0 <= i < later.counters@.len() && !later.discarded(earlier, i)
            ==> #[trigger] earlier.counters@[i] <= later.counters@[i]
}

/// Subtracting an earlier scan from a later one never underflows.
pub proof fn law_later_scans_have_a_delta(earlier: Snapshot, later: Snapshot, end: int)
    requires
        progressed(earlier, later),
        0 <= end <= later.counters@.len(),
    ensures
        later.underflow(earlier, end) is None,
    decreases end,
{
    if end > 0 {
        law_later_scans_have_a_delta(earlier, later, end - 1);
        if !later.discarded(earlier, end - 1) {
            assert(earlier.counters@[end - 1] <= later.counters@[end - 1]);
        }
    }
}

/// Being later is reflexive and transitive.
pub proof fn law_later_scans_chain(first: Snapshot, second: Snapshot, third: Snapshot)
    requires
        progressed(first, second),
        progressed(second, third),
    ensures
        progressed(first, first),
        progressed(first, third),
{
    assert forall|i: int|
        0 <= i < third.counters@.len() && !third.discarded(
            first,
            i,
        ) implies #[trigger] first.counters@[i] <= third.counters@[i] by {
        assert(!second.discarded(first, i));
        assert(!third.discarded(second, i));
        assert(first.counters@[i] <= second.counters@[i]);
        assert(second.counters@[i] <= third.counters@[i]);
    }
}

/// A scan after a checkpoint is later than one before it.
pub proof fn law_recording_progresses(earlier: Snapshot, later: Snapshot, checkpoint: Checkpoint)
    requires
        snapshot_follows(earlier, later, checkpoint),
    ensures
        progressed(earlier, later),
{
    let layout = earlier.layout;
    assert forall|i: int|
        0 <= i < later.counters@.len() && !later.discarded(
            earlier,
            i,
        ) implies #[trigger] earlier.counters@[i] <= later.counters@[i] by {
        let cell = layout.lemma_place_has_a_cell(i);
        assert(later.counters@[layout.offset(cell)] == stepped(
            earlier.counters@[layout.offset(cell)],
            checkpoint.touches(cell),
        ));
    }
}

/// A scan after a successful freeze is later than one before it, although the
/// freeze resets the online cells.
pub proof fn law_freezing_progresses(
    before: Inner,
    reports: Seq<StageCalibrationReport>,
    after: Inner,
    earlier: Snapshot,
    later: Snapshot,
)
    requires
        before.wf(),
        before.calibration_state != CalibrationState::Frozen,
        frozen_from(before, reports, after),
        earlier.cookie == before.cookie,
        later.cookie == after.cookie,
        earlier.layout == before.layout,
        later.layout == after.layout,
        earlier.counters@ == before.counters@,
        later.counters@ == after.counters@,
        earlier.calibration_epoch == 0,
        later.calibration_epoch == after.calibration_epoch,
    ensures
        progressed(earlier, later),
{
    assert forall|i: int|
        0 <= i < later.counters@.len() && !later.discarded(
            earlier,
            i,
        ) implies #[trigger] earlier.counters@[i] <= later.counters@[i] by {
        assert(after.counters@[i] == before.counters@[i]);
    }
}

/// A window of a scan with itself is empty.
pub proof fn law_self_delta_is_zero(snapshot: Snapshot, at: int)
    ensures
        snapshot.difference(snapshot, at) == 0,
{
}

/// Adding a window back to its earlier endpoint gives the later one, except for
/// online cells of different epochs.
pub proof fn law_delta_adds_back(earlier: Snapshot, later: Snapshot, at: int)
    ensures
        !later.discarded(earlier, at) ==> earlier.counters@[at] + later.difference(earlier, at)
            == later.counters@[at],
        later.discarded(earlier, at) ==> later.difference(earlier, at) == 0,
{
}

/// Consecutive windows add up to the window over both, except for online cells
/// of different epochs.
pub proof fn law_deltas_compose(first: Snapshot, second: Snapshot, third: Snapshot, at: int)
    requires
        first.layout == second.layout,
        second.layout == third.layout,
        !second.discarded(first, at),
        !third.discarded(second, at),
    ensures
        third.difference(first, at) == second.difference(first, at) + third.difference(second, at),
{
}

/// Raising one counter raises the sum by one.
proof fn lemma_total_raise(before: Seq<u64>, after: Seq<u64>, at: int)
    requires
        before.len() == after.len(),
        0 <= at < before.len(),
        after[at] == before[at] + 1,
        forall|i: int| 0 <= i < before.len() && i != at ==> after[i] == before[i],
    ensures
        total(after) == total(before) + 1,
    decreases before.len(),
{
    if at == before.len() - 1 {
        assert(after.drop_last() =~= before.drop_last());
    } else {
        lemma_total_raise(before.drop_last(), after.drop_last(), at);
    }
}

/// The sum of consecutive counters grows by one when one of them is touched.
proof fn lemma_segment_total(
    earlier: Snapshot,
    later: Snapshot,
    checkpoint: Checkpoint,
    cell_at: spec_fn(int) -> Cell,
    length: int,
    hit: Option<int>,
)
    requires
        snapshot_follows(earlier, later, checkpoint),
        forall|i: int| 0 <= i < earlier.counters@.len() ==> earlier.counters@[i] < u64::MAX,
        0 < length,
        forall|i: int|
            0 <= i < length ==> earlier.layout.holds(#[trigger] cell_at(i))
                && earlier.layout.offset(cell_at(i)) == earlier.layout.offset(cell_at(0)) + i,
        forall|i: int|
            0 <= i < length ==> (checkpoint.touches(#[trigger] cell_at(i)) <==> hit == Some(i)),
        hit matches Some(at) ==> 0 <= at < length,
    ensures
        total(later.counts_from(cell_at(0), length)) == total(
            earlier.counts_from(cell_at(0), length),
        ) + (if hit is Some {
            1nat
        } else {
            0nat
        }),
{
    let layout = earlier.layout;
    let before = earlier.counts_from(cell_at(0), length);
    let after = later.counts_from(cell_at(0), length);
    layout.lemma_offset_bounded(cell_at(0));
    layout.lemma_offset_bounded(cell_at(length - 1));
    assert forall|i: int| 0 <= i < length implies #[trigger] after[i] == before[i] + (if hit
        == Some(i) {
        1int
    } else {
        0int
    }) by {
        assert(layout.holds(cell_at(i)));
        assert(later.counters@[layout.offset(cell_at(i))] == stepped(
            earlier.counters@[layout.offset(cell_at(i))],
            checkpoint.touches(cell_at(i)),
        ));
    }
    match hit {
        Some(at) => {
            lemma_total_raise(before, after, at);
        },
        None => {
            assert(after =~= before);
        },
    }
}

/// Whether an accepted mark is at a stage.
pub open spec fn marks_stage(checkpoint: Checkpoint, stage: StageId) -> bool {
    checkpoint.rejection() is None && checkpoint.stage.index == stage.index
}

/// One for a mark that counts, zero for one that does not.
pub open spec fn sample(counts: bool) -> nat {
    if counts {
        1
    } else {
        0
    }
}

/// Every accepted mark adds one sample to the local and to the cumulative
/// distribution of its stage, and, with a predecessor, one to its cause matrix
/// and one to its incoming matrix; no other stage gains a sample. Both
/// distributions of a stage, and both of its matrices, so hold equally many
/// samples, short of counters at their largest value.
pub proof fn law_marks_add_one_sample(
    earlier: Snapshot,
    later: Snapshot,
    checkpoint: Checkpoint,
    stage: StageId,
)
    requires
        snapshot_follows(earlier, later, checkpoint),
        earlier.owns(stage),
        forall|i: int| 0 <= i < earlier.counters@.len() ==> earlier.counters@[i] < u64::MAX,
        checkpoint.context.wf(),
    ensures
        ({
            let marked = marks_stage(checkpoint, stage);
            let followed = marked && checkpoint.context.previous is Some;
            &&& total(later.local_of(stage)) == total(earlier.local_of(stage)) + sample(marked)
            &&& total(later.cumulative_of(stage)) == total(earlier.cumulative_of(stage)) + sample(
                marked,
            )
            &&& total(later.cause_of(stage)) == total(earlier.cause_of(stage)) + sample(followed)
            &&& stage.index > 0 ==> total(later.incoming_of(stage)) == total(
                earlier.incoming_of(stage),
            ) + sample(followed)
            &&& stage.index == 0 ==> !followed
        }),
{
    let index = stage.index as usize;
    let marked = marks_stage(checkpoint, stage);
    law_grids_increase();
    lemma_bucket_of(checkpoint.local_ns(), default_grid());
    lemma_bucket_of(checkpoint.cumulative_ns(), default_grid());
    let local = checkpoint.local_bucket() as int;
    let after = checkpoint.cumulative_bucket() as int;
    let none = None::<int>;
    let local_cells = |i: int| Cell::Matrix(MatrixCell::Local { stage: index, bucket: i as usize });
    lemma_segment_total(
        earlier,
        later,
        checkpoint,
        local_cells,
        BUCKETS as int,
        if marked {
            Some(local)
        } else {
            none
        },
    );
    let cumulative_cells = |i: int|
        Cell::Matrix(MatrixCell::Cumulative { stage: index, bucket: i as usize });
    lemma_segment_total(
        earlier,
        later,
        checkpoint,
        cumulative_cells,
        BUCKETS as int,
        if marked {
            Some(after)
        } else {
            none
        },
    );
    let row = if checkpoint.context.previous is Some {
        checkpoint.context.previous->0.cumulative_bucket as int
    } else {
        0
    };
    let followed = marked && checkpoint.context.previous is Some;
    let cause_cells = |i: int|
        Cell::Matrix(
            MatrixCell::Cause {
                destination: index,
                previous: (i / BUCKETS as int) as usize,
                local: (i % BUCKETS as int) as usize,
            },
        );
    lemma_segment_total(
        earlier,
        later,
        checkpoint,
        cause_cells,
        MATRIX_CELLS as int,
        if followed {
            Some(row * BUCKETS + local)
        } else {
            none
        },
    );
    if stage.index > 0 {
        let incoming_cells = |i: int|
            Cell::Matrix(
                MatrixCell::Incoming {
                    destination: index,
                    previous: (i / BUCKETS as int) as usize,
                    after: (i % BUCKETS as int) as usize,
                },
            );
        lemma_segment_total(
            earlier,
            later,
            checkpoint,
            incoming_cells,
            MATRIX_CELLS as int,
            if followed {
                Some(row * BUCKETS + after)
            } else {
                none
            },
        );
    }
}

/// While collecting, every accepted mark adds one sample to the local and
/// cumulative-after calibration populations of its stage, and, with a
/// predecessor, one to its previous-cumulative population; in any other state it
/// adds none. A classified mark adds one online sample.
pub proof fn law_marks_add_one_calibration_or_online_sample(
    earlier: Snapshot,
    later: Snapshot,
    checkpoint: Checkpoint,
    stage: StageId,
)
    requires
        snapshot_follows(earlier, later, checkpoint),
        earlier.owns(stage),
        forall|i: int| 0 <= i < earlier.counters@.len() ==> earlier.counters@[i] < u64::MAX,
    ensures
        ({
            let marked = marks_stage(checkpoint, stage);
            let collected = marked && checkpoint.mode is Collecting;
            &&& total(later.calibration_of(stage, CalibrationDistribution::Local)) == total(
                earlier.calibration_of(stage, CalibrationDistribution::Local),
            ) + sample(collected)
            &&& total(later.calibration_of(stage, CalibrationDistribution::CumulativeAfter))
                == total(
                earlier.calibration_of(stage, CalibrationDistribution::CumulativeAfter),
            ) + sample(collected)
            &&& total(later.calibration_of(stage, CalibrationDistribution::PreviousCumulative))
                == total(
                earlier.calibration_of(stage, CalibrationDistribution::PreviousCumulative),
            ) + sample(collected && checkpoint.context.previous is Some)
            &&& total(later.online_of(stage)) == total(earlier.online_of(stage)) + sample(
                marked && checkpoint.online_cell() is Some,
            )
        }),
{
    let marked = marks_stage(checkpoint, stage);
    let collected = marked && checkpoint.mode is Collecting;
    law_grids_increase();
    lemma_bucket_of(checkpoint.local_ns(), calibration_grid());
    lemma_bucket_of(checkpoint.cumulative_ns(), calibration_grid());
    lemma_bucket_of(checkpoint.context.cumulative_ns, calibration_grid());
    lemma_calibration_total(
        earlier,
        later,
        checkpoint,
        stage,
        CalibrationDistribution::Local,
        if collected {
            Some(bucket_of(checkpoint.local_ns(), calibration_grid()) as int)
        } else {
            None
        },
    );
    lemma_calibration_total(
        earlier,
        later,
        checkpoint,
        stage,
        CalibrationDistribution::CumulativeAfter,
        if collected {
            Some(bucket_of(checkpoint.cumulative_ns(), calibration_grid()) as int)
        } else {
            None
        },
    );
    lemma_calibration_total(
        earlier,
        later,
        checkpoint,
        stage,
        CalibrationDistribution::PreviousCumulative,
        if collected && checkpoint.context.previous is Some {
            Some(bucket_of(checkpoint.context.cumulative_ns, calibration_grid()) as int)
        } else {
            None
        },
    );
    let index = stage.index as usize;
    let online_cells = |i: int| Cell::Online { stage: index, counter: i as usize };
    lemma_segment_total(
        earlier,
        later,
        checkpoint,
        online_cells,
        ONLINE_COUNTERS_PER_STAGE as int,
        if marked {
            checkpoint.online_cell()
        } else {
            None
        },
    );
}

proof fn lemma_calibration_total(
    earlier: Snapshot,
    later: Snapshot,
    checkpoint: Checkpoint,
    stage: StageId,
    distribution: CalibrationDistribution,
    hit: Option<int>,
)
    requires
        snapshot_follows(earlier, later, checkpoint),
        earlier.owns(stage),
        forall|i: int| 0 <= i < earlier.counters@.len() ==> earlier.counters@[i] < u64::MAX,
        hit matches Some(at) ==> 0 <= at < CALIBRATION_BUCKETS,
        forall|i: int|
            0 <= i < CALIBRATION_BUCKETS ==> (#[trigger] checkpoint.touches(
                Cell::Calibration {
                    stage: stage.index as usize,
                    distribution,
                    bucket: i as usize,
                },
            ) <==> hit == Some(i)),
    ensures
        total(later.calibration_of(stage, distribution)) == total(
            earlier.calibration_of(stage, distribution),
        ) + sample(hit is Some),
{
    let index = stage.index as usize;
    let cells = |i: int| Cell::Calibration { stage: index, distribution, bucket: i as usize };
    lemma_segment_total(earlier, later, checkpoint, cells, CALIBRATION_BUCKETS as int, hit);
}

/// Something that happens to a recorder.
pub enum Event {
    /// A mark was recorded or rejected.
    Mark {
        /// The checkpoint that the mark made.
        checkpoint: Checkpoint,
    },
    /// A freeze was attempted.
    Freeze {
        /// What was asked for.
        criteria: FreezeCriteria,
        /// What was returned.
        result: Result<FreezeReport, FreezeError>,
    },
}

impl Event {
    /// A recorder before and after the event.
    pub open spec fn leads(self, before: Tracegrams, after: Tracegrams) -> bool {
        match self {
            Event::Mark { checkpoint } => checkpoint.context.wf() && after.follows(
                before,
                checkpoint,
            ),
            Event::Freeze { criteria, result } => after.wf() && freeze_attempt(
                before.inner,
                criteria,
                result,
                after.inner,
            ),
        }
    }

    /// Whether the event is an accepted mark at a stage.
    pub open spec fn reached(self, stage: StageId) -> bool {
        self matches Event::Mark { checkpoint } && marks_stage(checkpoint, stage)
    }

    /// Whether the event is an accepted mark at a stage with a predecessor.
    pub open spec fn followed(self, stage: StageId) -> bool {
        self matches Event::Mark { checkpoint } && marks_stage(checkpoint, stage)
            && checkpoint.context.previous is Some
    }

    /// Whether the event is an accepted mark at a stage that was collected for
    /// calibration.
    pub open spec fn collected(self, stage: StageId) -> bool {
        self matches Event::Mark { checkpoint } && marks_stage(checkpoint, stage)
            && checkpoint.mode is Collecting
    }
}

/// How many of some events are of a kind.
pub open spec fn event_count(events: Seq<Event>, kind: spec_fn(Event) -> bool) -> nat
    decreases events.len(),
{
    if events.len() == 0 {
        0
    } else {
        event_count(events.drop_last(), kind) + sample(kind(events.last()))
    }
}

/// A new recorder and what it was after each of some events.
pub open spec fn history(states: Seq<Tracegrams>, events: Seq<Event>) -> bool {
    &&& states.len() == events.len() + 1
    &&& states[0].wf()
    &&& states[0].inner.is_new()
    &&& forall|i: int|
        0 <= i < events.len() ==> (#[trigger] events[i]).leads(states[i], states[i + 1])
}

/// A snapshot shows the counters of a recorder.
pub open spec fn shows(snapshot: Snapshot, recorder: Tracegrams) -> bool {
    &&& snapshot.wf()
    &&& snapshot.cookie == recorder.inner.cookie
    &&& snapshot.layout == recorder.inner.layout
    &&& snapshot.counters@ == recorder.inner.counters@
}

/// A snapshot with the counters and the epoch of a recorder.
spec fn shown(snapshot: Snapshot, recorder: Tracegrams) -> Snapshot {
    Snapshot {
        counters: recorder.inner.counters,
        calibration_epoch: recorder.current_epoch(),
        ..snapshot
    }
}

/// The sums of a snapshot are the numbers of events of their kinds.
spec fn sums_events(snapshot: Snapshot, events: Seq<Event>, stage: StageId) -> bool {
    let reached = event_count(events, |event: Event| event.reached(stage));
    let followed = event_count(events, |event: Event| event.followed(stage));
    let collected = event_count(events, |event: Event| event.collected(stage));
    let preceded = event_count(
        events,
        |event: Event| event.collected(stage) && event.followed(stage),
    );
    &&& total(snapshot.local_of(stage)) == reached
    &&& total(snapshot.cumulative_of(stage)) == reached
    &&& total(snapshot.cause_of(stage)) == followed
    &&& stage.index > 0 ==> total(snapshot.incoming_of(stage)) == followed
    &&& stage.index == 0 ==> followed == 0
    &&& total(snapshot.calibration_of(stage, CalibrationDistribution::Local)) == collected
    &&& total(snapshot.calibration_of(stage, CalibrationDistribution::CumulativeAfter))
        == collected
    &&& total(snapshot.calibration_of(stage, CalibrationDistribution::PreviousCumulative))
        == preceded
    &&& followed <= reached
    &&& reached <= events.len()
    &&& collected <= reached
    &&& preceded <= collected
}

proof fn lemma_total_of_zeros(counts: Seq<u64>)
    requires
        forall|i: int| 0 <= i < counts.len() ==> counts[i] == 0,
    ensures
        total(counts) == 0,
    decreases counts.len(),
{
    if counts.len() > 0 {
        lemma_total_of_zeros(counts.drop_last());
    }
}

/// The matrix and calibration counters of a stage lie before the online cells.
proof fn lemma_sums_lie_before_online_cells(snapshot: Snapshot, stage: StageId)
    requires
        snapshot.wf(),
        snapshot.owns(stage),
    ensures
        ({
            let layout = snapshot.layout;
            let index = stage.index as usize;
            let local = Cell::Matrix(MatrixCell::Local { stage: index, bucket: 0 });
            let cumulative = Cell::Matrix(MatrixCell::Cumulative { stage: index, bucket: 0 });
            let cause = Cell::Matrix(
                MatrixCell::Cause { destination: index, previous: 0, local: 0 },
            );
            let incoming = Cell::Matrix(
                MatrixCell::Incoming { destination: index, previous: 0, after: 0 },
            );
            &&& 0 <= layout.offset(local) <= layout.online_start - BUCKETS
            &&& 0 <= layout.offset(cumulative) <= layout.online_start - BUCKETS
            &&& 0 <= layout.offset(cause) <= layout.online_start - MATRIX_CELLS
            &&& stage.index > 0 ==> 0 <= layout.offset(incoming) <= layout.online_start
                - MATRIX_CELLS
            &&& forall|distribution: CalibrationDistribution|
                0 <= #[trigger] layout.offset(
                    Cell::Calibration { stage: index, distribution, bucket: 0 },
                ) <= layout.online_start - CALIBRATION_BUCKETS
            &&& layout.online_start <= snapshot.counters@.len()
        }),
{
}

/// Equal counters before the online cells have equal sums.
proof fn lemma_same_sums(
    earlier: Snapshot,
    later: Snapshot,
    events: Seq<Event>,
    stage: StageId,
)
    requires
        earlier.wf(),
        later.wf(),
        earlier.layout == later.layout,
        earlier.owns(stage),
        sums_events(earlier, events, stage),
        forall|i: int|
            0 <= i < earlier.layout.online_start ==> later.counters@[i] == earlier.counters@[i],
    ensures
        sums_events(later, events, stage),
{
    lemma_sums_lie_before_online_cells(earlier, stage);
    assert(later.local_of(stage) =~= earlier.local_of(stage));
    assert(later.cumulative_of(stage) =~= earlier.cumulative_of(stage));
    assert(later.cause_of(stage) =~= earlier.cause_of(stage));
    if stage.index > 0 {
        assert(later.incoming_of(stage) =~= earlier.incoming_of(stage));
    }
    assert forall|distribution: CalibrationDistribution| #[trigger]
        later.calibration_of(stage, distribution) == earlier.calibration_of(stage, distribution) by {
        let cell = Cell::Calibration { stage: stage.index as usize, distribution, bucket: 0 };
        assert(0 <= earlier.layout.offset(cell) <= earlier.layout.online_start
            - CALIBRATION_BUCKETS);
        assert(later.calibration_of(stage, distribution) =~= earlier.calibration_of(
            stage,
            distribution,
        ));
    }
}

/// A new recorder has no samples.
proof fn lemma_new_recorders_have_no_sums(recorder: Tracegrams, snapshot: Snapshot, stage: StageId)
    requires
        recorder.wf(),
        recorder.inner.is_new(),
        snapshot.wf(),
        snapshot.owns(stage),
        snapshot.layout == recorder.inner.layout,
    ensures
        sums_events(shown(snapshot, recorder), Seq::empty(), stage),
{
    let later = shown(snapshot, recorder);
    lemma_sums_lie_before_online_cells(later, stage);
    lemma_total_of_zeros(later.local_of(stage));
    lemma_total_of_zeros(later.cumulative_of(stage));
    lemma_total_of_zeros(later.cause_of(stage));
    if stage.index > 0 {
        lemma_total_of_zeros(later.incoming_of(stage));
    }
    assert forall|distribution: CalibrationDistribution| #[trigger]
        total(later.calibration_of(stage, distribution)) == 0 by {
        let cell = Cell::Calibration { stage: stage.index as usize, distribution, bucket: 0 };
        assert(0 <= later.layout.offset(cell) <= later.layout.online_start - CALIBRATION_BUCKETS);
        lemma_total_of_zeros(later.calibration_of(stage, distribution));
    }
}

/// A checkpoint raises no counter by more than one.
proof fn lemma_marks_raise_by_one(
    before: Tracegrams,
    after: Tracegrams,
    checkpoint: Checkpoint,
    limit: int,
)
    requires
        before.wf(),
        after.follows(before, checkpoint),
        forall|i: int|
            0 <= i < before.inner.counters@.len() ==> before.inner.counters@[i] <= limit,
    ensures
        forall|i: int|
            0 <= i < after.inner.counters@.len() ==> after.inner.counters@[i] <= limit + 1,
{
    let layout = before.inner.layout;
    assert forall|i: int| 0 <= i < after.inner.counters@.len() implies after.inner.counters@[i]
        <= limit + 1 by {
        let cell = layout.lemma_place_has_a_cell(i);
        assert(after.inner.counters@[layout.offset(cell)] == stepped(
            before.inner.counters@[layout.offset(cell)],
            checkpoint.touches(cell),
        ));
    }
}

/// A mark adds what it counts for to every sum.
proof fn lemma_marks_add_to_sums(
    earlier: Snapshot,
    later: Snapshot,
    checkpoint: Checkpoint,
    events: Seq<Event>,
    stage: StageId,
)
    requires
        events.len() > 0,
        events.last() == (Event::Mark { checkpoint }),
        checkpoint.context.wf(),
        snapshot_follows(earlier, later, checkpoint),
        earlier.owns(stage),
        forall|i: int| 0 <= i < earlier.counters@.len() ==> earlier.counters@[i] < u64::MAX,
        sums_events(earlier, events.drop_last(), stage),
    ensures
        sums_events(later, events, stage),
{
    law_marks_add_one_sample(earlier, later, checkpoint, stage);
    law_marks_add_one_calibration_or_online_sample(earlier, later, checkpoint, stage);
}

/// A freeze attempt adds to no sum and raises no counter.
proof fn lemma_freezes_keep_sums(
    before: Tracegrams,
    after: Tracegrams,
    snapshot: Snapshot,
    events: Seq<Event>,
    stage: StageId,
)
    requires
        events.len() > 0,
        events.last() is Freeze,
        before.wf(),
        events.last().leads(before, after),
        snapshot.wf(),
        snapshot.owns(stage),
        snapshot.layout == before.inner.layout,
        sums_events(shown(snapshot, before), events.drop_last(), stage),
    ensures
        after.inner.layout == before.inner.layout,
        forall|i: int|
            0 <= i < after.inner.counters@.len() ==> after.inner.counters@[i]
                <= before.inner.counters@[i],
        sums_events(shown(snapshot, after), events, stage),
{
    let rest = events.drop_last();
    lemma_same_sums(shown(snapshot, before), shown(snapshot, after), rest, stage);
}

/// After a history every counter is at most the number of its events, and the
/// sums are the numbers of events of their kinds.
proof fn lemma_history_sums(
    states: Seq<Tracegrams>,
    events: Seq<Event>,
    snapshot: Snapshot,
    stage: StageId,
)
    requires
        history(states, events),
        events.len() <= u64::MAX,
        snapshot.wf(),
        snapshot.owns(stage),
        snapshot.layout == states[0].inner.layout,
    ensures
        states.last().wf(),
        states.last().inner.layout == states[0].inner.layout,
        forall|i: int|
            0 <= i < states.last().inner.counters@.len() ==> states.last().inner.counters@[i]
                <= events.len(),
        sums_events(shown(snapshot, states.last()), events, stage),
    decreases events.len(),
{
    let last = states.last();
    if events.len() == 0 {
        lemma_new_recorders_have_no_sums(last, snapshot, stage);
        assert(events =~= Seq::empty());
    } else {
        let end = events.len() - 1;
        let before = states[end];
        lemma_shorter_history(states, events);
        lemma_history_sums(states.drop_last(), events.drop_last(), snapshot, stage);
        assert(events[end].leads(before, states[end + 1]));
        match events.last() {
            Event::Mark { checkpoint } => {
                lemma_marks_raise_by_one(before, last, checkpoint, end);
                lemma_marks_add_to_sums(
                    shown(snapshot, before),
                    shown(snapshot, last),
                    checkpoint,
                    events,
                    stage,
                );
            },
            Event::Freeze { .. } => {
                lemma_freezes_keep_sums(before, last, snapshot, events, stage);
            },
        }
    }
}

/// A history without its last event is one.
proof fn lemma_shorter_history(states: Seq<Tracegrams>, events: Seq<Event>)
    requires
        history(states, events),
        events.len() > 0,
    ensures
        history(states.drop_last(), events.drop_last()),
{
    let shorter = states.drop_last();
    let rest = events.drop_last();
    assert forall|i: int| 0 <= i < rest.len() implies (#[trigger] rest[i]).leads(
        shorter[i],
        shorter[i + 1],
    ) by {
        assert(events[i].leads(states[i], states[i + 1]));
    }
}

/// Samples count the accepted marks of a recorder: after any marks and freeze
/// attempts on a new one, no more than a counter can count, a snapshot has as many
/// samples in the cause matrix and in the incoming matrix of a stage as accepted
/// marks with a predecessor, and as many in its local and cumulative
/// distributions as accepted marks in all. The first stage has no predecessors.
/// The calibration populations hold the marks that were accepted while
/// collecting.
pub proof fn law_samples_count_the_accepted_marks(
    states: Seq<Tracegrams>,
    events: Seq<Event>,
    snapshot: Snapshot,
    stage: StageId,
)
    requires
        history(states, events),
        events.len() <= u64::MAX,
        shows(snapshot, states.last()),
        snapshot.owns(stage),
    ensures
        ({
            let samples = snapshot.samples_of(stage);
            let reached = event_count(events, |event: Event| event.reached(stage));
            let followed = event_count(events, |event: Event| event.followed(stage));
            let collected = event_count(events, |event: Event| event.collected(stage));
            let preceded = event_count(
                events,
                |event: Event| event.collected(stage) && event.followed(stage),
            );
            &&& samples.incoming == followed
            &&& samples.cause == followed
            &&& samples.local == reached
            &&& samples.cumulative_after == reached
            &&& samples.local >= samples.incoming
            &&& stage.index == 0 ==> samples.incoming == 0
            &&& samples.calibration_local == collected
            &&& samples.calibration_cumulative_after == collected
            &&& samples.calibration_previous_cumulative == preceded
        }),
{
    lemma_history_keeps_layout(states, events);
    lemma_history_sums(states, events, snapshot, stage);
    lemma_same_sums(shown(snapshot, states.last()), snapshot, events, stage);
}

proof fn lemma_history_keeps_layout(states: Seq<Tracegrams>, events: Seq<Event>)
    requires
        history(states, events),
    ensures
        states.last().inner.layout == states[0].inner.layout,
    decreases events.len(),
{
    if events.len() > 0 {
        let end = events.len() - 1;
        lemma_shorter_history(states, events);
        lemma_history_keeps_layout(states.drop_last(), events.drop_last());
        assert(events[end].leads(states[end], states[end + 1]));
    }
}

/// A freeze attempt either leaves a collecting recorder that is otherwise as it
/// was, or freezes it under the first epoch with every online cell at zero and
/// every other counter as it was.
pub proof fn law_freezing_succeeds_or_changes_nothing(
    before: Inner,
    stages: Seq<StageId>,
    minimum: u64,
    result: Result<FreezeReport, FreezeError>,
    after: Inner,
)
    requires
        before.wf(),
        freeze_outcome(before, stages, minimum, result, after),
    ensures
        result is Err ==> after == (Inner {
            calibration_state: CalibrationState::Collecting,
            ..before
        }),
        result matches Ok(report) ==> {
            &&& report.epoch == Some(1u16)
            &&& after.calibration_state == CalibrationState::Frozen
            &&& after.calibration_epoch == 1
            &&& forall|cell: Cell|
                before.layout.holds(cell) ==> #[trigger] after.counters@[before.layout.offset(
                    cell,
                )] == (if cell is Online {
                    0
                } else {
                    before.counters@[before.layout.offset(cell)]
                })
        },
{
    if result is Ok {
        let layout = before.layout;
        assert forall|cell: Cell| layout.holds(cell) implies #[trigger] after.counters@[layout.offset(
            cell,
        )] == (if cell is Online {
            0
        } else {
            before.counters@[layout.offset(cell)]
        }) by {
            layout.lemma_offset_bounded(cell);
        }
    }
}

/// A freeze succeeds exactly when every selected stage is ready, every
/// population total can be ranked, and every rank is in the finite range.
pub proof fn law_freezing_succeeds_exactly_when_it_can(
    before: Inner,
    stages: Seq<StageId>,
    minimum: u64,
    result: Result<FreezeReport, FreezeError>,
    after: Inner,
)
    requires
        freeze_outcome(before, stages, minimum, result, after),
    ensures
        result is Ok <==> before.stages_ready(stages, minimum) && (before.stage_reports(
            stages,
            stages.len() as int,
        ) matches Ok(reports) && crate::freeze::terminal_before(
            reports,
            reports.len() as int,
        ) is None),
{
}

/// A stage is ready when its local and cumulative-after populations are
/// non-empty and reach the minimum, and its previous-cumulative population is
/// empty or reaches it too.
pub proof fn law_readiness_asks_for_the_minimum(inner: Inner, stage: StageId, minimum: u64)
    requires
        inner.wf(),
        inner.owns(stage),
    ensures
        ({
            let local = total(inner.population_counts(stage, CalibrationDistribution::Local));
            let after = total(
                inner.population_counts(stage, CalibrationDistribution::CumulativeAfter),
            );
            let previous = total(
                inner.population_counts(stage, CalibrationDistribution::PreviousCumulative),
            );
            inner.stage_readiness(stage, minimum).ready() <==> {
                &&& local > 0 && local >= minimum
                &&& after > 0 && after >= minimum
                &&& previous == 0 || previous >= minimum
            }
        }),
{
    lemma_population_total(inner, stage, CalibrationDistribution::Local);
    lemma_population_total(inner, stage, CalibrationDistribution::CumulativeAfter);
    lemma_population_total(inner, stage, CalibrationDistribution::PreviousCumulative);
}

proof fn lemma_population_total(
    inner: Inner,
    stage: StageId,
    distribution: CalibrationDistribution,
)
    requires
        inner.wf(),
        inner.owns(stage),
    ensures
        total(inner.population_counts(stage, distribution)) <= u128::MAX,
{
    let counts = inner.population_counts(stage, distribution);
    inner.layout.lemma_offset_bounded(
        Cell::Calibration {
            stage: stage.index as usize,
            distribution,
            bucket: (CALIBRATION_BUCKETS - 1) as usize,
        },
    );
    crate::counts::lemma_total_bound(counts);
    assert(counts.len() == CALIBRATION_BUCKETS);
}

/// The report that a successful freeze returns is the one that the recorder
/// publishes from then on.
pub proof fn law_returned_report_is_published(
    before: Inner,
    requested: Seq<StageId>,
    minimum: u64,
    report: FreezeReport,
    after: Inner,
)
    requires
        before.wf(),
        freeze_outcome(
            before,
            before.selected(requested),
            minimum,
            Ok::<FreezeReport, FreezeError>(report),
            after,
        ),
    ensures
        published_reports(after.frozen_calibration@, after.frozen_calibration@.len() as int)
            == report.stages@,
        report.epoch == Some(after.calibration_epoch),
{
    let stages = before.selected(requested);
    before.lemma_chosen(requested, before.layout.stage_count as int);
    before.lemma_reports_match_stages(stages, stages.len() as int);
    let reports = report.stages@;
    assert forall|i: int| 0 <= i < reports.len() implies (#[trigger] reports[i]).stage.index
        < after.frozen_calibration@.len() by {
        assert(reports[i].stage == stages[i]);
        assert(before.owns(stages[i]));
    }
    assert forall|i: int, j: int| 0 <= i < j < reports.len() implies (
    #[trigger] reports[i]).stage.index < (#[trigger] reports[j]).stage.index by {
        assert(reports[i].stage == stages[i]);
        assert(reports[j].stage == stages[j]);
    }
    lemma_published_prefix(
        before,
        reports,
        after.frozen_calibration@,
        after.frozen_calibration@.len() as int,
        reports.len() as int,
    );
    assert(reports.take(reports.len() as int) =~= reports);
}

#[verifier::spinoff_prover]
#[verifier::rlimit(60)]
proof fn lemma_published_prefix(
    inner: Inner,
    reports: Seq<StageCalibrationReport>,
    frozen: Seq<Option<FrozenStageCalibration>>,
    end: int,
    count: int,
)
    requires
        publishes(inner, reports, frozen),
        0 <= end <= frozen.len(),
        0 <= count <= reports.len(),
        forall|i: int, j: int|
            0 <= i < j < reports.len() ==> (#[trigger] reports[i]).stage.index < (
            #[trigger] reports[j]).stage.index,
        forall|i: int| 0 <= i < count ==> (#[trigger] reports[i]).stage.index < end,
        forall|i: int| count <= i < reports.len() ==> (#[trigger] reports[i]).stage.index >= end,
    ensures
        published_reports(frozen, end) == reports.take(count),
    decreases end,
{
    if end == 0 {
        if count > 0 {
            assert(reports[0].stage.index < 0);
        }
        assert(reports.take(count) =~= Seq::empty());
    } else if count > 0 && reports[count - 1].stage.index == end - 1 {
        lemma_published_prefix(inner, reports, frozen, end - 1, count - 1);
        assert(reports.take(count) =~= reports.take(count - 1).push(reports[count - 1]));
    } else {
        if count > 0 {
            assert(reports[count - 1].stage.index < end);
        }
        lemma_published_prefix(inner, reports, frozen, end - 1, count);
        if frozen[end - 1] is Some {
            let i = choose|i: int|
                0 <= i < reports.len() && (#[trigger] reports[i]).stage.index == end - 1;
            assert(reports[i].stage.index == end - 1);
            if i < count - 1 {
                assert(reports[i].stage.index < reports[count - 1].stage.index);
            }
        }
    }
}

/// A finite calibration estimate has its representative inside its bucket, and
/// that bucket is the one of the selected rank.
pub proof fn law_finite_thresholds_lie_in_the_selected_bucket(counts: Seq<u64>, bits: u64)
    requires
        estimate(counts, calibration_grid(), bits) matches Ok(Some(found))
            && found.terminal is Finite,
    ensures
        ({
            let found = estimate(counts, calibration_grid(), bits)->Ok_0->0;
            let bucket = found.selection.bucket as int;
            &&& found.value is Some
            &&& found.lower_bound == Some(calibration_grid()[bucket - 1])
            &&& found.upper_bound == Some(calibration_grid()[bucket])
            &&& calibration_grid()[bucket - 1] <= found.value->0 < calibration_grid()[bucket]
            &&& bucket_of(found.value->0, calibration_grid()) == bucket
            &&& total(counts.take(bucket)) < found.selection.rank
            &&& found.selection.rank <= total(counts.take(bucket + 1))
        }),
{
    law_grids_increase();
    lemma_calibration_bounds_are_limited();
    law_rank_is_within_the_samples(total(counts), bits);
    law_selected_bucket_is_the_first(counts, rank_of(total(counts), bits));
    let found = estimate(counts, calibration_grid(), bits)->Ok_0->0;
    let bucket = found.selection.bucket as int;
    let lower = calibration_grid()[bucket - 1];
    let upper = calibration_grid()[bucket];
    assert(lower * upper <= LARGEST_BOUND * LARGEST_BOUND) by (nonlinear_arith)
        requires
            lower <= LARGEST_BOUND,
            upper <= LARGEST_BOUND,
    ;
    law_representative_lies_in_its_bucket(lower, upper);
    lemma_bucket_unique(found.value->0, calibration_grid(), bucket);
}

} // verus!
