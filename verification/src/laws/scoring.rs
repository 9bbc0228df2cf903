//! What scores and labels mean in terms of counted marks.
//!
//! Every probability is a conditional frequency: of the marks that satisfy a
//! condition, how many satisfy another one too.

use vstd::prelude::*;

use crate::binary64::reaches;
use crate::bucket::BUCKETS;
use crate::calibration::{
    lemma_find_report, CalibrationEstimate, CalibrationPopulationReport, FrozenStageCalibration,
};
use crate::context::thresholds_of;
use crate::counts::{
    lemma_total_step, lemma_total_where_ext, lemma_total_where_le_total, lemma_total_where_split,
    lemma_total_where_step, total, total_where,
};
use crate::diagnose::{
    diagnosis_of, Classification, DiagnoseConfig, DiagnoseError, DiagnosisReport,
};
use crate::init::StageId;
use crate::laws::numbers::{covers, law_nearest_ranks_select};
use crate::layout::ONLINE_COUNTERS_PER_STAGE;
use crate::matrix::MATRIX_CELLS;
use crate::quantile::valid_quantile;
use crate::ratio::Ratio;
use crate::scores::{
    in_line, in_quadrant, lemma_quadrant_bound, line_overflows, line_sum, line_sums,
    line_threshold, quadrants_of, BucketThreshold, CalibratedOnlineScore, CalibratedOnlineScores,
    MatrixScore, MatrixScores, ScoreStatus, Threshold,
};
use crate::snapshot::{DeltaSnapshot, Snapshot};

verus! {

/// Whether a truth cell holds first marks of requests.
pub open spec fn of_first_marks(cell: int) -> bool {
    cell < 4
}

/// Whether the marks of a truth cell came after a cumulative tail.
pub open spec fn after_previous_tail(cell: int) -> bool {
    cell >= 8
}

/// Whether the marks of a truth cell were in the local tail.
pub open spec fn in_local_tail(cell: int) -> bool {
    cell % 4 >= 2
}

/// Whether the marks of a truth cell left a cumulative tail behind.
pub open spec fn leaving_tail(cell: int) -> bool {
    cell % 2 == 1
}

/// The terms of a score are a conditional frequency: of what `whole` keeps, how
/// much `part` keeps too. It has a value where there is anything to divide by.
pub open spec fn is_frequency(
    numerator: u128,
    denominator: u128,
    value: Option<Ratio>,
    status: ScoreStatus,
    counts: Seq<u64>,
    part: spec_fn(int) -> bool,
    whole: spec_fn(int) -> bool,
) -> bool {
    &&& numerator == total_where(counts, |i: int| whole(i) && part(i))
    &&& denominator == total_where(counts, whole)
    &&& value == (if denominator > 0 {
        Some(Ratio { numerator, denominator })
    } else {
        None
    })
    &&& status == (if denominator > 0 {
        ScoreStatus::Available
    } else {
        ScoreStatus::ZeroDenominator
    })
}

/// A calibrated-online score is a conditional frequency.
pub open spec fn online_frequency(
    score: CalibratedOnlineScore,
    counts: Seq<u64>,
    part: spec_fn(int) -> bool,
    whole: spec_fn(int) -> bool,
) -> bool {
    is_frequency(
        score.numerator,
        score.denominator,
        score.value,
        score.status,
        counts,
        part,
        whole,
    )
}

/// A matrix-derived score is a conditional frequency.
pub open spec fn matrix_frequency(
    score: MatrixScore,
    counts: Seq<u64>,
    part: spec_fn(int) -> bool,
    whole: spec_fn(int) -> bool,
) -> bool {
    is_frequency(
        score.numerator,
        score.denominator,
        score.value,
        score.status,
        counts,
        part,
        whole,
    )
}

/// A score that is the quotient of two others, by their terms.
pub open spec fn is_quotient(
    numerator: u128,
    denominator: u128,
    value: Option<Ratio>,
    status: ScoreStatus,
    top: (u128, u128),
    bottom: (u128, u128),
) -> bool {
    if top.0 * bottom.1 > u128::MAX || top.1 * bottom.0 > u128::MAX {
        numerator == 0 && denominator == 0 && value is None && status
            == ScoreStatus::ArithmeticOverflow
    } else {
        &&& numerator == top.0 * bottom.1
        &&& denominator == top.1 * bottom.0
        &&& value == (if denominator > 0 {
            Some(Ratio { numerator, denominator })
        } else {
            None
        })
        &&& status == (if denominator > 0 {
            ScoreStatus::Available
        } else {
            ScoreStatus::ZeroDenominator
        })
    }
}

proof fn lemma_truth_cells(counts: Seq<u64>, keep: spec_fn(int) -> bool)
    requires
        counts.len() == ONLINE_COUNTERS_PER_STAGE,
    ensures
        total_where(counts, keep) == kept(counts, keep, 0) + kept(counts, keep, 1) + kept(
            counts,
            keep,
            2,
        ) + kept(counts, keep, 3) + kept(counts, keep, 4) + kept(counts, keep, 5) + kept(
            counts,
            keep,
            6,
        ) + kept(counts, keep, 7) + kept(counts, keep, 8) + kept(counts, keep, 9) + kept(
            counts,
            keep,
            10,
        ) + kept(counts, keep, 11),
{
    assert(counts.take(0) =~= Seq::<u64>::empty());
    assert(counts.take(12) =~= counts);
    lemma_total_where_step(counts, keep, 0);
    lemma_total_where_step(counts, keep, 1);
    lemma_total_where_step(counts, keep, 2);
    lemma_total_where_step(counts, keep, 3);
    lemma_total_where_step(counts, keep, 4);
    lemma_total_where_step(counts, keep, 5);
    lemma_total_where_step(counts, keep, 6);
    lemma_total_where_step(counts, keep, 7);
    lemma_total_where_step(counts, keep, 8);
    lemma_total_where_step(counts, keep, 9);
    lemma_total_where_step(counts, keep, 10);
    lemma_total_where_step(counts, keep, 11);
}

spec fn kept(counts: Seq<u64>, keep: spec_fn(int) -> bool, at: int) -> nat {
    if keep(at) {
        counts[at] as nat
    } else {
        0
    }
}

/// Keeping everything keeps the whole sum.
proof fn lemma_total_of_all(counts: Seq<u64>, keep: spec_fn(int) -> bool)
    requires
        forall|i: int| 0 <= i < counts.len() ==> #[trigger] keep(i),
    ensures
        total_where(counts, keep) == total(counts),
    decreases counts.len(),
{
    if counts.len() > 0 {
        lemma_total_of_all(counts.drop_last(), keep);
        assert(keep(counts.len() - 1));
    }
}

/// Calibrated-online scores are conditional frequencies over the truth cells of
/// their stage, in which a first mark counts as one after no tail. Without any
/// mark that has a predecessor, the scores about predecessors are absent.
pub proof fn law_online_scores_are_conditional_frequencies(
    snapshot: Snapshot,
    stage: StageId,
    scores: CalibratedOnlineScores,
)
    requires
        snapshot.wf(),
        snapshot.online_scores_of_stage(stage) == Ok::<CalibratedOnlineScores, DiagnoseError>(
            scores,
        ),
    ensures
        scores.stage == stage,
        scores.epoch == snapshot.calibration_epoch,
        ({
            let counts = snapshot.online_of(stage);
            let later = |i: int| !of_first_marks(i);
            let tail_before = |i: int| after_previous_tail(i);
            let clean_before = |i: int| !of_first_marks(i) && !after_previous_tail(i);
            let no_tail_before = |i: int| !after_previous_tail(i);
            let local = |i: int| in_local_tail(i);
            let no_local = |i: int| !in_local_tail(i);
            let after = |i: int| leaving_tail(i);
            let rate = scores.local_tail_rate_given_prev_tail;
            let clean_rate = scores.local_tail_rate_given_prev_not_tail;
            let lift = scores.amplification_lift;
            let carry = scores.carry_through;
            let origin = scores.local_tail_origin_tail;
            &&& scores.samples == total(counts)
            &&& scores.first_samples == total_where(counts, |i: int| of_first_marks(i))
            &&& scores.predecessor_samples == total_where(counts, later)
            &&& online_frequency(scores.tail_onset, counts, no_tail_before, after)
            &&& online_frequency(scores.local_tail_origin_clean, counts, no_tail_before, local)
            &&& if total_where(counts, later) > 0 {
                &&& online_frequency(origin, counts, tail_before, local)
                &&& online_frequency(rate, counts, local, tail_before)
                &&& online_frequency(clean_rate, counts, local, clean_before)
                &&& online_frequency(carry, counts, no_local, tail_before)
                &&& is_quotient(
                    lift.numerator,
                    lift.denominator,
                    lift.value,
                    lift.status,
                    (rate.numerator, rate.denominator),
                    (clean_rate.numerator, clean_rate.denominator),
                )
            } else {
                &&& is_absent(origin)
                &&& is_absent(rate)
                &&& is_absent(clean_rate)
                &&& is_absent(lift)
                &&& is_absent(carry)
            }
        }),
{
    let counts = snapshot.online_of(stage);
    snapshot.layout.lemma_offset_bounded(
        crate::layout::Cell::Online {
            stage: stage.index as usize,
            counter: (ONLINE_COUNTERS_PER_STAGE - 1) as usize,
        },
    );
    assert(counts.len() == ONLINE_COUNTERS_PER_STAGE);
    let later = |i: int| !of_first_marks(i);
    let tail_before = |i: int| after_previous_tail(i);
    let clean_before = |i: int| !of_first_marks(i) && !after_previous_tail(i);
    let no_tail_before = |i: int| !after_previous_tail(i);
    let local = |i: int| in_local_tail(i);
    let no_local = |i: int| !in_local_tail(i);
    let after = |i: int| leaving_tail(i);
    lemma_truth_cells(counts, later);
    lemma_truth_cells(counts, |i: int| of_first_marks(i));
    lemma_truth_cells(counts, |i: int| true);
    lemma_truth_cells(counts, after);
    lemma_truth_cells(counts, local);
    lemma_truth_cells(counts, tail_before);
    lemma_truth_cells(counts, clean_before);
    lemma_truth_cells(counts, |i: int| after(i) && no_tail_before(i));
    lemma_truth_cells(counts, |i: int| local(i) && no_tail_before(i));
    lemma_truth_cells(counts, |i: int| local(i) && tail_before(i));
    lemma_truth_cells(counts, |i: int| tail_before(i) && local(i));
    lemma_truth_cells(counts, |i: int| clean_before(i) && local(i));
    lemma_truth_cells(counts, |i: int| tail_before(i) && no_local(i));
    lemma_total_of_all(counts, |i: int| true);
    let rate = scores.local_tail_rate_given_prev_tail;
    let clean_rate = scores.local_tail_rate_given_prev_not_tail;
    assert(rate.numerator * clean_rate.denominator >= 0) by (nonlinear_arith);
    assert(rate.denominator * clean_rate.numerator >= 0) by (nonlinear_arith);
}

/// A score without any mark that it could be about.
pub open spec fn is_absent(score: CalibratedOnlineScore) -> bool {
    &&& score.numerator == 0
    &&& score.denominator == 0
    &&& score.value is None
    &&& score.status == ScoreStatus::NoPredecessorPopulation
}

/// The value of the estimate of a population, where it has one.
pub open spec fn reported_value(report: CalibrationPopulationReport) -> Option<u64> {
    match report.estimate {
        Some(CalibrationEstimate { value, .. }) => value,
        None => None,
    }
}

/// Calibrated-online scores show, field by field, the thresholds that the freeze
/// reported for their stage, which are those that its marks are held against.
pub proof fn law_scores_show_the_reported_thresholds(
    snapshot: Snapshot,
    stage: StageId,
    scores: CalibratedOnlineScores,
    at: int,
)
    requires
        snapshot.online_scores_of_stage(stage) == Ok::<CalibratedOnlineScores, DiagnoseError>(
            scores,
        ),
        snapshot.calibration_report matches Some(report) && 0 <= at < report.stages@.len()
            && report.stages@[at].stage == stage && forall|i: int|
            0 <= i < report.stages@.len() && (#[trigger] report.stages@[i]).stage == stage ==> i
                == at,
    ensures
        ({
            let entry = snapshot.calibration_report->0.stages@[at];
            let held = thresholds_of(FrozenStageCalibration { report: entry });
            &&& reported_value(entry.local) == Some(scores.thresholds.local)
            &&& reported_value(entry.cumulative_after) == Some(scores.thresholds.cumulative_after)
            &&& reported_value(entry.previous_cumulative) == scores.thresholds.previous_cumulative
            &&& held.local == scores.thresholds.local
            &&& held.cumulative_after == scores.thresholds.cumulative_after
            &&& held.previous_cumulative == scores.thresholds.previous_cumulative
        }),
{
    let stages = snapshot.calibration_report->0.stages@;
    lemma_find_report(stages, stage, stages.len() as int);
}

/// Scores exist exactly for stages of the snapshot that the freeze reported with
/// both required values.
pub proof fn law_scores_need_a_reported_stage(snapshot: Snapshot, stage: StageId)
    requires
        snapshot.wf(),
    ensures
        ({
            let result = snapshot.online_scores_of_stage(stage);
            let reported = match snapshot.calibration_report {
                Some(report) => exists|i: int|
                    0 <= i < report.stages@.len() && (#[trigger] report.stages@[i]).stage == stage,
                None => false,
            };
            let complete = match snapshot.calibration_report {
                Some(report) => forall|i: int|
                    0 <= i < report.stages@.len() && (#[trigger] report.stages@[i]).stage == stage
                        ==> reported_value(report.stages@[i].local) is Some && reported_value(
                        report.stages@[i].cumulative_after,
                    ) is Some,
                None => false,
            };
            &&& result is Ok ==> reported && snapshot.owns(stage)
            &&& result matches Err(error) ==> error == (DiagnoseError::NotCalibrated { stage })
            &&& reported && complete && snapshot.owns(stage) ==> result is Ok
        }),
{
    if let Some(report) = snapshot.calibration_report {
        lemma_find_report(report.stages@, stage, report.stages@.len() as int);
        if snapshot.owns(stage) {
            snapshot.layout.lemma_offset_bounded(
                crate::layout::Cell::Online {
                    stage: stage.index as usize,
                    counter: (ONLINE_COUNTERS_PER_STAGE - 1) as usize,
                },
            );
            assert(snapshot.online_of(stage).len() == ONLINE_COUNTERS_PER_STAGE);
            if let Some(found) = crate::calibration::find_report(
                report.stages@,
                stage,
                report.stages@.len() as int,
            ) {
                let i = choose|i: int|
                    0 <= i < report.stages@.len() && #[trigger] report.stages@[i] == found;
                assert(report.stages@[i].stage == stage);
            }
        }
    }
}

/// Whether a score has a value that reaches a threshold.
pub open spec fn passes(value: Option<Ratio>, threshold: u64) -> bool {
    match value {
        Some(ratio) => reaches(ratio, threshold),
        None => false,
    }
}

/// A label is the one of the first score in the order of onset, lift and
/// carry-through that has a value at or above its own threshold.
pub open spec fn labels(
    label: Classification,
    tail_onset: Option<Ratio>,
    amplification_lift: Option<Ratio>,
    carry_through: Option<Ratio>,
    config: DiagnoseConfig,
) -> bool {
    &&& label == Classification::Onset <==> passes(tail_onset, config.onset_threshold)
    &&& label == Classification::Amplifier <==> !passes(tail_onset, config.onset_threshold)
        && passes(amplification_lift, config.amplification_lift_threshold)
    &&& label == Classification::CarryThrough <==> !passes(tail_onset, config.onset_threshold)
        && !passes(amplification_lift, config.amplification_lift_threshold) && passes(
        carry_through,
        config.carry_through_threshold,
    )
    &&& label == Classification::Inconclusive <==> !passes(tail_onset, config.onset_threshold)
        && !passes(amplification_lift, config.amplification_lift_threshold) && !passes(
        carry_through,
        config.carry_through_threshold,
    )
}

/// Calibrated-online scores are labelled by their own onset, lift and
/// carry-through scores.
pub proof fn law_online_labels_follow_the_scores(
    scores: CalibratedOnlineScores,
    config: DiagnoseConfig,
)
    ensures
        labels(
            scores.label(config),
            scores.tail_onset.value,
            scores.amplification_lift.value,
            scores.carry_through.value,
            config,
        ),
{
}

/// Matrix-derived scores are labelled by their own onset, lift and carry-through
/// scores.
pub proof fn law_matrix_labels_follow_the_scores(scores: MatrixScores, config: DiagnoseConfig)
    ensures
        labels(
            scores.label(config),
            scores.tail_onset.value,
            scores.amplification_lift.value,
            scores.carry_through.value,
            config,
        ),
{
}

/// A diagnosis labels either path by the scores that it reports for that path
/// under the policy that it reports, and names the stage that was asked for.
pub proof fn law_reports_are_labelled_by_their_scores(
    snapshot: Snapshot,
    stage: StageId,
    config: DiagnoseConfig,
    report: DiagnosisReport,
)
    requires
        diagnosis_of(
            snapshot.name_of(stage),
            snapshot.matrix_scores_of_stage(stage),
            snapshot.online_scores_of_stage(stage),
            config,
            stage,
            Ok::<DiagnosisReport, DiagnoseError>(report),
        ),
    ensures
        report.config == config,
        snapshot.owns(stage),
        report.stage_name@ == snapshot.stages@[stage.index as int].name@,
        snapshot.online_scores_of_stage(stage) == Ok::<CalibratedOnlineScores, DiagnoseError>(
            report.calibrated_online,
        ),
        snapshot.matrix_scores_of_stage(stage) == Some(report.matrix_derived),
        labels(
            report.classification,
            report.calibrated_online.tail_onset.value,
            report.calibrated_online.amplification_lift.value,
            report.calibrated_online.carry_through.value,
            config,
        ),
        labels(
            report.matrix_classification,
            report.matrix_derived.tail_onset.value,
            report.matrix_derived.amplification_lift.value,
            report.matrix_derived.carry_through.value,
            config,
        ),
{
}

/// A diagnosis fails with the reason for which there are no online scores, or for
/// want of matrix scores.
pub proof fn law_diagnoses_fail_for_their_reason(
    snapshot: Snapshot,
    stage: StageId,
    config: DiagnoseConfig,
    error: DiagnoseError,
)
    requires
        diagnosis_of(
            snapshot.name_of(stage),
            snapshot.matrix_scores_of_stage(stage),
            snapshot.online_scores_of_stage(stage),
            config,
            stage,
            Err::<DiagnosisReport, DiagnoseError>(error),
        ),
    ensures
        match snapshot.online_scores_of_stage(stage) {
            Err(reason) => error == reason,
            Ok(_) => snapshot.matrix_scores_of_stage(stage) is None && error == (
            DiagnoseError::NotCalibrated { stage }),
        },
{
}

/// A window is diagnosed as its differences are, and only within one epoch.
pub proof fn law_windows_are_diagnosed_within_one_epoch(window: DeltaSnapshot, stage: StageId)
    ensures
        match window.online_delta_availability {
            crate::snapshot::OnlineDeltaAvailability::SameEpoch { .. } => {
                window.online_scores_of_stage(stage) == window.snapshot.online_scores_of_stage(
                    stage,
                )
            },
            crate::snapshot::OnlineDeltaAvailability::EpochMismatch { earlier, later } => {
                window.online_scores_of_stage(stage) == Err::<
                    CalibratedOnlineScores,
                    DiagnoseError,
                >(DiagnoseError::EpochMismatch { earlier, later })
            },
        },
{
}

/// Row of a cell of a matrix, read row by row.
pub open spec fn row_of(cell: int) -> int {
    cell / 64
}

/// Column of a cell of a matrix, read row by row.
pub open spec fn column_of(cell: int) -> int {
    cell % 64
}

/// A bucket is the nearest-rank bucket of the rows, or of the columns, of a
/// matrix: the samples in lines before it stay below the rank, and those up to
/// it reach the rank, which covers the quantile of all samples.
pub open spec fn is_line_threshold(
    found: BucketThreshold,
    counts: Seq<u64>,
    line: spec_fn(int) -> int,
    bits: u64,
) -> bool {
    &&& found.samples == total(counts)
    &&& covers(found.rank as int, total(counts), bits)
    &&& total_where(counts, |i: int| line(i) < found.bucket) < found.rank
    &&& found.rank <= total_where(counts, |i: int| line(i) <= found.bucket)
    &&& found.bucket < 64
}

/// The line of a cell: its row or its column.
spec fn line_of(rows: bool, cell: int) -> int {
    if rows {
        row_of(cell)
    } else {
        column_of(cell)
    }
}

/// Sums of the first lines are the sum of the cells in them.
proof fn lemma_first_lines(counts: Seq<u64>, rows: bool, end: int)
    requires
        counts.len() == MATRIX_CELLS,
        !line_overflows(counts, rows),
        0 <= end <= 64,
    ensures
        total(line_sums(counts, rows).take(end)) == total_where(
            counts,
            |i: int| line_of(rows, i) < end,
        ),
    decreases end,
{
    let sums = line_sums(counts, rows);
    if end == 0 {
        assert(sums.take(0) =~= Seq::<u64>::empty());
        lemma_nothing_kept(counts, |i: int| line_of(rows, i) < 0);
    } else {
        lemma_first_lines(counts, rows, end - 1);
        lemma_total_step(sums, end - 1);
        let whole = |i: int| line_of(rows, i) < end;
        let rest = |i: int| line_of(rows, i) < end - 1;
        lemma_total_where_split(counts, whole, rest, in_line(rows, end - 1));
        assert(line_sum(counts, rows, end - 1) <= u64::MAX);
    }
}

proof fn lemma_nothing_kept(counts: Seq<u64>, keep: spec_fn(int) -> bool)
    requires
        forall|i: int| 0 <= i < counts.len() ==> !(#[trigger] keep(i)),
    ensures
        total_where(counts, keep) == 0,
    decreases counts.len(),
{
    if counts.len() > 0 {
        lemma_nothing_kept(counts.drop_last(), keep);
        assert(!keep(counts.len() - 1));
    }
}

proof fn lemma_line_thresholds(counts: Seq<u64>, rows: bool, bits: u64)
    requires
        counts.len() == MATRIX_CELLS,
        valid_quantile(bits),
    ensures
        match line_threshold(counts, rows, bits) {
            Threshold::Available(found) => total(counts) > 0 && is_line_threshold(
                found,
                counts,
                |i: int| line_of(rows, i),
                bits,
            ),
            Threshold::NoSamples => total(counts) == 0,
            Threshold::ArithmeticOverflow => total(counts) > u64::MAX,
        },
{
    if line_overflows(counts, rows) {
        let line = choose|line: int|
            0 <= line < BUCKETS && #[trigger] line_sum(counts, rows, line) > u64::MAX;
        lemma_total_where_le_total(counts, in_line(rows, line));
    } else {
        let sums = line_sums(counts, rows);
        lemma_first_lines(counts, rows, 64);
        assert(sums.take(64) =~= sums);
        lemma_total_of_all(counts, |i: int| line_of(rows, i) < 64);
        law_nearest_ranks_select(sums, bits);
        if let Threshold::Available(found) = line_threshold(counts, rows, bits) {
            let bucket = found.bucket as int;
            lemma_first_lines(counts, rows, bucket);
            lemma_first_lines(counts, rows, bucket + 1);
            let line = |i: int| line_of(rows, i);
            lemma_total_where_ext(
                counts,
                |i: int| line_of(rows, i) < bucket,
                |i: int| line(i) < found.bucket,
            );
            lemma_total_where_ext(
                counts,
                |i: int| line_of(rows, i) < bucket + 1,
                |i: int| line(i) <= found.bucket,
            );
        }
    }
}

/// Thresholds of the matrix path are nearest-rank buckets: of the rows of the
/// cause matrix for the previous cumulative latency, of its columns for the local
/// one, and of the columns of the incoming matrix for the cumulative one after.
/// They are missing only for an empty matrix or one whose sum does not fit.
pub proof fn law_matrix_thresholds_are_nearest_ranks(
    snapshot: Snapshot,
    stage: StageId,
    scores: MatrixScores,
)
    requires
        snapshot.wf(),
        snapshot.matrix_scores_of_stage(stage) == Some(scores),
    ensures
        ({
            let cause = snapshot.cause_of(stage);
            let incoming = snapshot.incoming_of(stage);
            let bits = snapshot.tail_quantile;
            let row = |i: int| row_of(i);
            let column = |i: int| column_of(i);
            &&& scores.stage == stage
            &&& scores.cause_samples == total(cause)
            &&& scores.incoming_samples == (if stage.index == 0 {
                0
            } else {
                total(incoming)
            })
            &&& scores.thresholds.previous_cumulative matches Some(found) ==> is_line_threshold(
                found,
                cause,
                row,
                bits,
            )
            &&& scores.thresholds.local matches Some(found) ==> is_line_threshold(
                found,
                cause,
                column,
                bits,
            )
            &&& scores.thresholds.cumulative_after matches Some(found) ==> stage.index > 0
                && is_line_threshold(found, incoming, column, bits)
            &&& 0 < total(cause) <= u64::MAX ==> scores.thresholds.previous_cumulative is Some
                && scores.thresholds.local is Some
            &&& stage.index > 0 && 0 < total(incoming) <= u64::MAX
                ==> scores.thresholds.cumulative_after is Some
            &&& total(cause) == 0 ==> scores.thresholds.previous_cumulative is None
                && scores.thresholds.local is None
            &&& total(incoming) == 0 ==> scores.thresholds.cumulative_after is None
        }),
{
    let cause = snapshot.cause_of(stage);
    let incoming = snapshot.incoming_of(stage);
    let bits = snapshot.tail_quantile;
    assert(cause.len() == MATRIX_CELLS);
    lemma_line_thresholds(cause, true, bits);
    lemma_line_thresholds(cause, false, bits);
    lemma_quadrant_bound(cause, 0, 0, false, false);
    assert((|i: int| line_of(true, i)) =~= (|i: int| row_of(i)));
    assert((|i: int| line_of(false, i)) =~= (|i: int| column_of(i)));
    if stage.index > 0 {
        assert(incoming.len() == MATRIX_CELLS);
        lemma_line_thresholds(incoming, false, bits);
        lemma_quadrant_bound(incoming, 0, 0, false, false);
    }
}

/// A matrix-derived score without thresholds.
pub open spec fn is_missing(score: MatrixScore) -> bool {
    &&& score.numerator == 0
    &&& score.denominator == 0
    &&& score.value is None
    &&& score.status == ScoreStatus::NoPredecessorPopulation || score.status
        == ScoreStatus::ArithmeticOverflow
}

/// Quadrants as filtered sums.
proof fn lemma_quadrants(counts: Seq<u64>, row: int, column: int)
    requires
        counts.len() == MATRIX_CELLS,
    ensures
        ({
            let parts = quadrants_of(counts, row, column);
            let before = |i: int| row_of(i) >= row;
            let clean = |i: int| row_of(i) < row;
            let tail = |i: int| column_of(i) >= column;
            let no_tail = |i: int| column_of(i) < column;
            &&& parts.clean_tail == total_where(counts, |i: int| tail(i) && clean(i))
            &&& parts.clean_tail == total_where(counts, |i: int| clean(i) && tail(i))
            &&& parts.tail_tail == total_where(counts, |i: int| tail(i) && before(i))
            &&& parts.tail_tail == total_where(counts, |i: int| before(i) && tail(i))
            &&& parts.tail_clean == total_where(counts, |i: int| before(i) && no_tail(i))
            &&& parts.clean_tail + parts.tail_tail == total_where(counts, tail)
            &&& parts.tail_clean + parts.tail_tail == total_where(counts, before)
            &&& parts.clean_clean + parts.clean_tail == total_where(counts, clean)
            &&& parts.clean_tail + parts.tail_tail <= u128::MAX
            &&& parts.tail_clean + parts.tail_tail <= u128::MAX
            &&& parts.clean_clean + parts.clean_tail <= u128::MAX
        }),
{
    let before = |i: int| row_of(i) >= row;
    let clean = |i: int| row_of(i) < row;
    let tail = |i: int| column_of(i) >= column;
    let no_tail = |i: int| column_of(i) < column;
    let cc = in_quadrant(row, column, false, false);
    let ct = in_quadrant(row, column, false, true);
    let tc = in_quadrant(row, column, true, false);
    let tt = in_quadrant(row, column, true, true);
    lemma_quadrant_bound(counts, row, column, false, false);
    lemma_quadrant_bound(counts, row, column, false, true);
    lemma_quadrant_bound(counts, row, column, true, false);
    lemma_quadrant_bound(counts, row, column, true, true);
    lemma_total_where_ext(counts, ct, |i: int| tail(i) && clean(i));
    lemma_total_where_ext(counts, ct, |i: int| clean(i) && tail(i));
    lemma_total_where_ext(counts, tt, |i: int| tail(i) && before(i));
    lemma_total_where_ext(counts, tt, |i: int| before(i) && tail(i));
    lemma_total_where_ext(counts, tc, |i: int| before(i) && no_tail(i));
    lemma_total_where_split(counts, tail, ct, tt);
    lemma_total_where_split(counts, before, tc, tt);
    lemma_total_where_split(counts, clean, cc, ct);
}

/// Matrix-derived scores are conditional frequencies over the matrices of their
/// stage: a row is in the tail from the previous-cumulative threshold on, a
/// column of the cause matrix from the local one on, and a column of the incoming
/// matrix from the cumulative-after one on.
pub proof fn law_matrix_scores_are_conditional_frequencies(
    snapshot: Snapshot,
    stage: StageId,
    scores: MatrixScores,
)
    requires
        snapshot.wf(),
        snapshot.matrix_scores_of_stage(stage) == Some(scores),
    ensures
        match (scores.thresholds.previous_cumulative, scores.thresholds.local) {
            (Some(previous), Some(local)) => {
                let counts = snapshot.cause_of(stage);
                let before = |i: int| row_of(i) >= previous.bucket;
                let clean = |i: int| row_of(i) < previous.bucket;
                let tail = |i: int| column_of(i) >= local.bucket;
                let no_tail = |i: int| column_of(i) < local.bucket;
                let rate = scores.local_tail_rate_given_prev_tail;
                let clean_rate = scores.local_tail_rate_given_prev_not_tail;
                let lift = scores.amplification_lift;
                &&& matrix_frequency(scores.local_tail_origin_clean, counts, clean, tail)
                &&& matrix_frequency(scores.local_tail_origin_tail, counts, before, tail)
                &&& matrix_frequency(rate, counts, tail, before)
                &&& matrix_frequency(clean_rate, counts, tail, clean)
                &&& matrix_frequency(scores.carry_through, counts, no_tail, before)
                &&& is_quotient(
                    lift.numerator,
                    lift.denominator,
                    lift.value,
                    lift.status,
                    (rate.numerator, rate.denominator),
                    (clean_rate.numerator, clean_rate.denominator),
                )
            },
            _ => {
                &&& is_missing(scores.local_tail_origin_clean)
                &&& is_missing(scores.local_tail_origin_tail)
                &&& is_missing(scores.local_tail_rate_given_prev_tail)
                &&& is_missing(scores.local_tail_rate_given_prev_not_tail)
                &&& is_missing(scores.amplification_lift)
                &&& is_missing(scores.carry_through)
            },
        },
        match (scores.thresholds.previous_cumulative, scores.thresholds.cumulative_after) {
            (Some(previous), Some(after)) => {
                let clean = |i: int| row_of(i) < previous.bucket;
                let tail = |i: int| column_of(i) >= after.bucket;
                matrix_frequency(scores.tail_onset, snapshot.incoming_of(stage), clean, tail)
            },
            _ => is_missing(scores.tail_onset),
        },
{
    let cause = snapshot.cause_of(stage);
    let incoming = snapshot.incoming_of(stage);
    assert(cause.len() == MATRIX_CELLS);
    law_matrix_thresholds_are_nearest_ranks(snapshot, stage, scores);
    if let (Some(previous), Some(local)) = (
        scores.thresholds.previous_cumulative,
        scores.thresholds.local,
    ) {
        lemma_quadrants(cause, previous.bucket as int, local.bucket as int);
        let rate = scores.local_tail_rate_given_prev_tail;
        let clean_rate = scores.local_tail_rate_given_prev_not_tail;
        assert(rate.numerator * clean_rate.denominator >= 0) by (nonlinear_arith);
        assert(rate.denominator * clean_rate.numerator >= 0) by (nonlinear_arith);
    }
    if let (Some(previous), Some(after)) = (
        scores.thresholds.previous_cumulative,
        scores.thresholds.cumulative_after,
    ) {
        assert(incoming.len() == MATRIX_CELLS);
        lemma_quadrants(incoming, previous.bucket as int, after.bucket as int);
    }
}

/// A matrix-derived score that tells why it is missing.
pub open spec fn is_missing_for(score: MatrixScore, status: ScoreStatus) -> bool {
    score.numerator == 0 && score.denominator == 0 && score.value is None && score.status == status
}

/// All scores of a cause matrix are missing for one reason.
pub open spec fn cause_is_missing_for(scores: MatrixScores, status: ScoreStatus) -> bool {
    &&& is_missing_for(scores.local_tail_origin_clean, status)
    &&& is_missing_for(scores.local_tail_origin_tail, status)
    &&& is_missing_for(scores.local_tail_rate_given_prev_tail, status)
    &&& is_missing_for(scores.local_tail_rate_given_prev_not_tail, status)
    &&& is_missing_for(scores.amplification_lift, status)
    &&& is_missing_for(scores.carry_through, status)
}

/// Thresholds exist exactly for matrices with a positive sum that can be ranked,
/// and the scores without them tell which it was: an empty matrix has no
/// population, and a larger one overflows. For the onset an empty matrix of either
/// kind comes before one that is too large.
pub proof fn law_missing_matrix_scores_tell_why(
    snapshot: Snapshot,
    stage: StageId,
    scores: MatrixScores,
)
    requires
        snapshot.wf(),
        snapshot.matrix_scores_of_stage(stage) == Some(scores),
    ensures
        ({
            let cause = total(snapshot.cause_of(stage));
            let incoming = if stage.index == 0 {
                0
            } else {
                total(snapshot.incoming_of(stage))
            };
            &&& scores.thresholds.previous_cumulative is Some <==> 0 < cause <= u64::MAX
            &&& scores.thresholds.local is Some <==> 0 < cause <= u64::MAX
            &&& scores.thresholds.cumulative_after is Some <==> 0 < incoming <= u64::MAX
            &&& cause == 0 ==> cause_is_missing_for(scores, ScoreStatus::NoPredecessorPopulation)
            &&& cause > u64::MAX ==> cause_is_missing_for(scores, ScoreStatus::ArithmeticOverflow)
            &&& incoming == 0 || cause == 0 ==> is_missing_for(
                scores.tail_onset,
                ScoreStatus::NoPredecessorPopulation,
            )
            &&& incoming > 0 && cause > 0 && (incoming > u64::MAX || cause > u64::MAX)
                ==> is_missing_for(scores.tail_onset, ScoreStatus::ArithmeticOverflow)
        }),
{
    let cause = snapshot.cause_of(stage);
    let incoming = snapshot.incoming_of(stage);
    let bits = snapshot.tail_quantile;
    assert(cause.len() == MATRIX_CELLS);
    lemma_line_thresholds(cause, true, bits);
    lemma_line_thresholds(cause, false, bits);
    if stage.index > 0 {
        assert(incoming.len() == MATRIX_CELLS);
        lemma_line_thresholds(incoming, false, bits);
    }
}

} // verus!
