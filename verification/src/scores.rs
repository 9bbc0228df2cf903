//! Tail-propagation scores derived from counters.

use vstd::prelude::*;

use crate::bucket::BUCKETS;
use crate::calibration::{threshold_of, StageCalibrationReport};
use crate::counts::{
    lemma_total_bound, lemma_total_where_le_total, lemma_total_where_prefix_monotone,
    lemma_total_where_step, sum, total, total_where,
};
use crate::init::StageId;
use crate::layout::{first_cell, predecessor_cell, ONLINE_COUNTERS_PER_STAGE};
use crate::matrix::MATRIX_CELLS;
use crate::quantile::{nearest, nearest_rank};
use crate::ratio::Ratio;
use crate::snapshot::Consistency;

verus! {

/// The counter path from which a score was derived.
#[derive(Clone, Copy, Debug, PartialEq, Eq, Structural)]
#[non_exhaustive]
pub enum ScorePath {
    /// Approximate bucket thresholds and scores derived from transition matrices.
    MatrixDerived,
    /// Exact truth-table scores evaluated against frozen calibration thresholds.
    CalibratedOnline,
}

impl ScorePath {
    /// Returns whether this path has known compact-bucket threshold drift.
    pub fn known_drift(self) -> (drift: bool)
        ensures
            drift == (self is MatrixDerived),
    {
        match self {
            ScorePath::MatrixDerived => true,
            ScorePath::CalibratedOnline => false,
        }
    }
}

/// The request population represented by a score path.
#[derive(Clone, Copy, Debug, PartialEq, Eq, Structural)]
#[non_exhaustive]
pub enum ScorePopulation {
    /// Only marks with an observed predecessor are represented.
    PredecessorOnly,
    /// All reached marks are represented, with first marks kept as clean sentinels.
    AllReachedMarks,
}

/// Availability of one numeric score.
#[derive(Clone, Copy, Debug, PartialEq, Eq, Structural)]
#[non_exhaustive]
pub enum ScoreStatus {
    /// The numerator, denominator, and ratio are available.
    Available,
    /// No predecessor-bearing samples were available for this score.
    NoPredecessorPopulation,
    /// The score's denominator is zero.
    ZeroDenominator,
    /// Relaxed inputs violated a probability invariant.
    InconsistentSnapshot,
    /// Threshold or ratio arithmetic exceeded its supported integer range.
    ArithmeticOverflow,
}

/// A nearest-rank threshold in the pinned ordinary bucket table.
#[derive(Clone, Copy, Debug, PartialEq, Eq, Structural)]
pub struct BucketThreshold {
    /// The first bucket classified as tail.
    pub bucket: usize,
    /// The selected nearest rank.
    pub rank: u128,
    /// The predecessor-bearing population size used by the rank.
    pub samples: u128,
}

impl BucketThreshold {
    /// Returns the first bucket classified as tail.
    pub fn bucket(self) -> (result: usize)
        ensures
            result == self.bucket,
    {
        self.bucket
    }

    /// Returns the selected nearest rank.
    pub fn rank(self) -> (result: u128)
        ensures
            result == self.rank,
    {
        self.rank
    }

    /// Returns the predecessor-bearing population size used by the rank.
    pub fn samples(self) -> (result: u128)
        ensures
            result == self.samples,
    {
        self.samples
    }
}

/// Matrix-derived tail thresholds for one destination stage.
#[derive(Clone, Copy, Debug, PartialEq, Eq, Structural)]
pub struct MatrixThresholds {
    /// The local-latency threshold derived from the cause matrix.
    pub local: Option<BucketThreshold>,
    /// The previous-cumulative threshold derived from the cause matrix.
    pub previous_cumulative: Option<BucketThreshold>,
    /// The cumulative-after threshold derived from the incoming matrix.
    pub cumulative_after: Option<BucketThreshold>,
}

impl MatrixThresholds {
    /// Returns the local-latency threshold derived from the cause matrix.
    pub fn local(self) -> (result: Option<BucketThreshold>)
        ensures
            result == self.local,
    {
        self.local
    }

    /// Returns the previous-cumulative threshold derived from the cause matrix.
    pub fn previous_cumulative(self) -> (result: Option<BucketThreshold>)
        ensures
            result == self.previous_cumulative,
    {
        self.previous_cumulative
    }

    /// Returns the cumulative-after threshold derived from the incoming matrix.
    pub fn cumulative_after(self) -> (result: Option<BucketThreshold>)
        ensures
            result == self.cumulative_after,
    {
        self.cumulative_after
    }
}

/// Integer terms and availability of one score.
#[derive(Clone, Copy, Debug, PartialEq, Eq, Structural)]
pub struct ScoreParts {
    /// Integer numerator.
    pub numerator: u128,
    /// Integer denominator.
    pub denominator: u128,
    /// Exact quotient, when the score is available.
    pub value: Option<Ratio>,
    /// Availability.
    pub status: ScoreStatus,
}

/// A score without terms.
pub open spec fn unavailable_of(status: ScoreStatus) -> ScoreParts {
    ScoreParts { numerator: 0, denominator: 0, value: None, status }
}

/// A quotient as a score: unavailable for a zero denominator.
pub open spec fn ratio_of(numerator: u128, denominator: u128) -> ScoreParts {
    if denominator == 0 {
        ScoreParts { numerator, denominator, value: None, status: ScoreStatus::ZeroDenominator }
    } else {
        ScoreParts {
            numerator,
            denominator,
            value: Some(Ratio { numerator, denominator }),
            status: ScoreStatus::Available,
        }
    }
}

/// A probability as a score: a part larger than its whole is inconsistent.
pub open spec fn probability_of(numerator: u128, denominator: u128) -> ScoreParts {
    if denominator != 0 && numerator > denominator {
        ScoreParts {
            numerator,
            denominator,
            value: None,
            status: ScoreStatus::InconsistentSnapshot,
        }
    } else {
        ratio_of(numerator, denominator)
    }
}

/// The quotient of two rates as a score, cross-multiplied so that it stays in
/// integer terms.
pub open spec fn lift_of(
    tail_local_tail: u128,
    previous_tail: u128,
    clean_local_tail: u128,
    previous_clean: u128,
) -> ScoreParts {
    if tail_local_tail * previous_clean > u128::MAX || previous_tail * clean_local_tail
        > u128::MAX {
        unavailable_of(ScoreStatus::ArithmeticOverflow)
    } else {
        ratio_of(
            (tail_local_tail * previous_clean) as u128,
            (previous_tail * clean_local_tail) as u128,
        )
    }
}

/// Returns a score without terms.
pub fn unavailable_parts(status: ScoreStatus) -> (parts: ScoreParts)
    ensures
        parts == unavailable_of(status),
{
    ScoreParts { numerator: 0, denominator: 0, value: None, status }
}

/// Returns a quotient as a score.
pub fn score_ratio(numerator: u128, denominator: u128) -> (parts: ScoreParts)
    ensures
        parts == ratio_of(numerator, denominator),
{
    if denominator == 0 {
        return ScoreParts {
            numerator,
            denominator,
            value: None,
            status: ScoreStatus::ZeroDenominator,
        };
    }
    ScoreParts {
        numerator,
        denominator,
        value: Some(Ratio { numerator, denominator }),
        status: ScoreStatus::Available,
    }
}

/// Returns a probability as a score.
pub fn score_probability(numerator: u128, denominator: u128) -> (parts: ScoreParts)
    ensures
        parts == probability_of(numerator, denominator),
{
    if denominator != 0 && numerator > denominator {
        return ScoreParts {
            numerator,
            denominator,
            value: None,
            status: ScoreStatus::InconsistentSnapshot,
        };
    }
    score_ratio(numerator, denominator)
}

/// Returns the quotient of two rates as a score.
pub fn score_lift(
    tail_local_tail: u128,
    previous_tail: u128,
    clean_local_tail: u128,
    previous_clean: u128,
) -> (parts: ScoreParts)
    ensures
        parts == lift_of(tail_local_tail, previous_tail, clean_local_tail, previous_clean),
{
    let numerator: u128 = match tail_local_tail.checked_mul(previous_clean) {
        Some(numerator) => numerator,
        None => {
            return unavailable_parts(ScoreStatus::ArithmeticOverflow);
        },
    };
    let denominator: u128 = match previous_tail.checked_mul(clean_local_tail) {
        Some(denominator) => denominator,
        None => {
            return unavailable_parts(ScoreStatus::ArithmeticOverflow);
        },
    };
    score_ratio(numerator, denominator)
}

/// One matrix-derived score and its integer rational terms.
#[derive(Clone, Copy, Debug, PartialEq, Eq, Structural)]
pub struct MatrixScore {
    /// The integer numerator of this score's ratio.
    pub numerator: u128,
    /// The integer denominator of this score's ratio.
    pub denominator: u128,
    /// The exact ratio when the score is available.
    pub value: Option<Ratio>,
    /// This score's availability status.
    pub status: ScoreStatus,
}

impl MatrixScore {
    /// Returns the integer numerator of this score's ratio.
    pub fn numerator(self) -> (result: u128)
        ensures
            result == self.numerator,
    {
        self.numerator
    }

    /// Returns the integer denominator of this score's ratio.
    pub fn denominator(self) -> (result: u128)
        ensures
            result == self.denominator,
    {
        self.denominator
    }

    /// Returns the exact ratio when the score is available.
    pub fn value(self) -> (result: Option<Ratio>)
        ensures
            result == self.value,
    {
        self.value
    }

    /// Returns this score's availability status.
    pub fn status(self) -> (result: ScoreStatus)
        ensures
            result == self.status,
    {
        self.status
    }

    /// The score of some parts.
    pub open spec fn of(parts: ScoreParts) -> Self {
        MatrixScore {
            numerator: parts.numerator,
            denominator: parts.denominator,
            value: parts.value,
            status: parts.status,
        }
    }

    /// Returns the matrix-derived score path.
    pub fn path(self) -> (path: ScorePath)
        ensures
            path == ScorePath::MatrixDerived,
    {
        ScorePath::MatrixDerived
    }

    /// Returns the score of some parts.
    pub fn from_parts(parts: ScoreParts) -> (score: Self)
        ensures
            score == Self::of(parts),
    {
        MatrixScore {
            numerator: parts.numerator,
            denominator: parts.denominator,
            value: parts.value,
            status: parts.status,
        }
    }

    /// Returns a score without terms.
    pub fn unavailable(status: ScoreStatus) -> (score: Self)
        ensures
            score == Self::of(unavailable_of(status)),
    {
        Self::from_parts(unavailable_parts(status))
    }

    /// Returns a probability as a score.
    pub fn probability(numerator: u128, denominator: u128) -> (score: Self)
        ensures
            score == Self::of(probability_of(numerator, denominator)),
    {
        Self::from_parts(score_probability(numerator, denominator))
    }

    /// Returns the quotient of two rates as a score.
    pub fn lift(
        tail_local_tail: u128,
        previous_tail: u128,
        clean_local_tail: u128,
        previous_clean: u128,
    ) -> (score: Self)
        ensures
            score == Self::of(
                lift_of(tail_local_tail, previous_tail, clean_local_tail, previous_clean),
            ),
    {
        Self::from_parts(
            score_lift(tail_local_tail, previous_tail, clean_local_tail, previous_clean),
        )
    }
}

/// Matrix-derived scores for one destination stage.
#[derive(Clone, Copy, Debug, PartialEq, Eq, Structural)]
pub struct MatrixScores {
    /// The destination stage.
    pub stage: StageId,
    /// The relaxed consistency attached to the source snapshot.
    pub consistency: Consistency,
    /// Nearest-rank bucket thresholds for this destination.
    pub thresholds: MatrixThresholds,
    /// Predecessor-bearing samples observed in the cause matrix.
    pub cause_samples: u128,
    /// Predecessor-bearing samples observed in the incoming matrix.
    pub incoming_samples: u128,
    /// `P(previous not tail | local tail)`.
    pub local_tail_origin_clean: MatrixScore,
    /// `P(previous tail | local tail)`.
    pub local_tail_origin_tail: MatrixScore,
    /// `P(local tail | previous tail)`.
    pub local_tail_rate_given_prev_tail: MatrixScore,
    /// `P(local tail | previous not tail)`.
    pub local_tail_rate_given_prev_not_tail: MatrixScore,
    /// The ratio between the previous-tail and previous-clean local-tail rates.
    pub amplification_lift: MatrixScore,
    /// `P(local not tail | previous tail)`.
    pub carry_through: MatrixScore,
    /// `P(previous not tail | cumulative after tail)`.
    pub tail_onset: MatrixScore,
}

impl MatrixScores {
    /// Returns the destination stage.
    pub fn stage(self) -> (result: StageId)
        ensures
            result == self.stage,
    {
        self.stage
    }

    /// Returns the relaxed consistency attached to the source snapshot.
    pub fn consistency(self) -> (result: Consistency)
        ensures
            result == self.consistency,
    {
        self.consistency
    }

    /// Returns nearest-rank bucket thresholds for this destination.
    pub fn thresholds(self) -> (result: MatrixThresholds)
        ensures
            result == self.thresholds,
    {
        self.thresholds
    }

    /// Returns predecessor-bearing samples observed in the cause matrix.
    pub fn cause_samples(self) -> (result: u128)
        ensures
            result == self.cause_samples,
    {
        self.cause_samples
    }

    /// Returns predecessor-bearing samples observed in the incoming matrix.
    pub fn incoming_samples(self) -> (result: u128)
        ensures
            result == self.incoming_samples,
    {
        self.incoming_samples
    }

    /// Returns `P(previous not tail | local tail)`.
    pub fn local_tail_origin_clean(self) -> (result: MatrixScore)
        ensures
            result == self.local_tail_origin_clean,
    {
        self.local_tail_origin_clean
    }

    /// Returns `P(previous tail | local tail)`.
    pub fn local_tail_origin_tail(self) -> (result: MatrixScore)
        ensures
            result == self.local_tail_origin_tail,
    {
        self.local_tail_origin_tail
    }

    /// Returns `P(local tail | previous tail)`.
    pub fn local_tail_rate_given_prev_tail(self) -> (result: MatrixScore)
        ensures
            result == self.local_tail_rate_given_prev_tail,
    {
        self.local_tail_rate_given_prev_tail
    }

    /// Returns `P(local tail | previous not tail)`.
    pub fn local_tail_rate_given_prev_not_tail(self) -> (result: MatrixScore)
        ensures
            result == self.local_tail_rate_given_prev_not_tail,
    {
        self.local_tail_rate_given_prev_not_tail
    }

    /// Returns the ratio between the previous-tail and previous-clean local-tail rates.
    pub fn amplification_lift(self) -> (result: MatrixScore)
        ensures
            result == self.amplification_lift,
    {
        self.amplification_lift
    }

    /// Returns `P(local not tail | previous tail)`.
    pub fn carry_through(self) -> (result: MatrixScore)
        ensures
            result == self.carry_through,
    {
        self.carry_through
    }

    /// Returns `P(previous not tail | cumulative after tail)`.
    pub fn tail_onset(self) -> (result: MatrixScore)
        ensures
            result == self.tail_onset,
    {
        self.tail_onset
    }

    /// Returns the matrix-derived score path.
    pub fn path(self) -> (path: ScorePath)
        ensures
            path == ScorePath::MatrixDerived,
    {
        ScorePath::MatrixDerived
    }

    /// Returns the population represented by the matrices.
    pub fn population(self) -> (population: ScorePopulation)
        ensures
            population == ScorePopulation::PredecessorOnly,
    {
        ScorePopulation::PredecessorOnly
    }
}

/// The cells of one row, or of one column, of a matrix.
pub open spec fn in_line(rows: bool, line: int) -> spec_fn(int) -> bool {
    |i: int|
        if rows {
            i / BUCKETS as int == line
        } else {
            i % BUCKETS as int == line
        }
}

/// The sum of one row, or of one column.
pub open spec fn line_sum(counts: Seq<u64>, rows: bool, line: int) -> nat {
    total_where(counts, in_line(rows, line))
}

/// Whether some row, or some column, does not sum to a `u64`.
pub open spec fn line_overflows(counts: Seq<u64>, rows: bool) -> bool {
    exists|line: int| 0 <= line < BUCKETS && #[trigger] line_sum(counts, rows, line) > u64::MAX
}

/// The sums of all rows, or of all columns.
pub open spec fn line_sums(counts: Seq<u64>, rows: bool) -> Seq<u64> {
    Seq::new(BUCKETS as nat, |line: int| line_sum(counts, rows, line) as u64)
}

/// Sums of all rows, or of all columns, of a matrix.
pub struct Marginal {
    /// One sum per row or column.
    pub counts: [u64; BUCKETS],
    /// Whether some sum does not fit.
    pub overflowed: bool,
}

fn add_marginal(counts: &mut [u64; BUCKETS], overflowed: &mut bool, bucket: usize, count: u64)
    requires
        bucket < BUCKETS,
    ensures
        *final(overflowed) == (*old(overflowed) || old(counts)@[bucket as int] + count > u64::MAX),
        final(counts)@ == (if *final(overflowed) {
            old(counts)@
        } else {
            old(counts)@.update(bucket as int, (old(counts)@[bucket as int] + count) as u64)
        }),
{
    if *overflowed {
        return;
    }
    match counts[bucket].checked_add(count) {
        Some(sum) => {
            counts[bucket] = sum;
        },
        None => {
            *overflowed = true;
        },
    }
}

/// Sums the rows, or the columns, of a matrix.
pub fn marginal(counts: &[u64], rows: bool) -> (result: Marginal)
    requires
        counts@.len() == MATRIX_CELLS,
    ensures
        result.overflowed == line_overflows(counts@, rows),
        !result.overflowed ==> result.counts@ == line_sums(counts@, rows),
{
    let mut sums: [u64; BUCKETS] = [0; BUCKETS];
    let mut overflowed: bool = false;
    let mut at: usize = 0;
    proof {
        assert(counts@.take(0) =~= Seq::<u64>::empty());
    }
    while at < counts.len()
        invariant
            at <= counts@.len(),
            counts@.len() == MATRIX_CELLS,
            overflowed ==> line_overflows(counts@, rows),
            !overflowed ==> forall|line: int|
                0 <= line < BUCKETS ==> #[trigger] sums@[line] == line_sum(
                    counts@.take(at as int),
                    rows,
                    line,
                ),
        decreases counts@.len() - at,
    {
        let line: usize = if rows {
            at / BUCKETS
        } else {
            at % BUCKETS
        };
        proof {
            assert forall|other: int| 0 <= other < BUCKETS implies #[trigger] line_sum(
                counts@.take(at + 1),
                rows,
                other,
            ) == line_sum(counts@.take(at as int), rows, other) + (if other == line {
                counts@[at as int] as nat
            } else {
                0
            }) by {
                lemma_total_where_step(counts@, in_line(rows, other), at as int);
            }
            lemma_total_where_prefix_monotone(
                counts@,
                in_line(rows, line as int),
                at + 1,
                counts@.len() as int,
            );
            assert(counts@.take(counts@.len() as int) =~= counts@);
        }
        let ghost before = sums@;
        let ghost overflowed_before = overflowed;
        add_marginal(&mut sums, &mut overflowed, line, counts[at]);
        proof {
            if overflowed && !overflowed_before {
                assert(before[line as int] == line_sum(
                    counts@.take(at as int),
                    rows,
                    line as int,
                ));
                assert(line_sum(counts@.take(at + 1), rows, line as int) > u64::MAX);
                assert(line_sum(counts@, rows, line as int) > u64::MAX);
            }
            if !overflowed {
                assert forall|other: int| 0 <= other < BUCKETS implies #[trigger] sums@[other]
                    == line_sum(counts@.take(at + 1), rows, other) by {
                    assert(before[other] == line_sum(counts@.take(at as int), rows, other));
                }
            }
        }
        at = at + 1;
    }
    proof {
        assert(counts@.take(at as int) =~= counts@);
        if !overflowed {
            assert forall|line: int| 0 <= line < BUCKETS implies #[trigger] line_sum(
                counts@,
                rows,
                line,
            ) <= u64::MAX by {
                assert(sums@[line] == line_sum(counts@, rows, line));
            }
            assert(sums@ =~= line_sums(counts@, rows));
        }
    }
    Marginal { counts: sums, overflowed }
}

/// A tail threshold, or why there is none.
#[derive(Clone, Copy, Debug, PartialEq, Eq, Structural)]
pub enum Threshold {
    /// The nearest-rank bucket.
    Available(BucketThreshold),
    /// Nothing was counted.
    NoSamples,
    /// Counts do not sum to a `u64`.
    ArithmeticOverflow,
}

/// The threshold over the rows, or over the columns, of a matrix.
pub open spec fn line_threshold(counts: Seq<u64>, rows: bool, bits: u64) -> Threshold {
    if line_overflows(counts, rows) {
        Threshold::ArithmeticOverflow
    } else {
        match nearest(line_sums(counts, rows), bits) {
            Ok(Some(selection)) => Threshold::Available(
                BucketThreshold {
                    bucket: selection.bucket,
                    rank: selection.rank,
                    samples: selection.samples,
                },
            ),
            Ok(None) => Threshold::NoSamples,
            Err(_) => Threshold::ArithmeticOverflow,
        }
    }
}

/// The bucket of a threshold, or the status of a score that lacks it.
pub open spec fn threshold_bucket(threshold: Threshold) -> Result<usize, ScoreStatus> {
    match threshold {
        Threshold::Available(found) => Ok(found.bucket),
        Threshold::NoSamples => Err(ScoreStatus::NoPredecessorPopulation),
        Threshold::ArithmeticOverflow => Err(ScoreStatus::ArithmeticOverflow),
    }
}

/// The threshold itself, where there is one.
pub open spec fn threshold_value(threshold: Threshold) -> Option<BucketThreshold> {
    match threshold {
        Threshold::Available(found) => Some(found),
        _ => None,
    }
}

impl Threshold {
    /// Returns the threshold itself, where there is one.
    pub fn value(self) -> (value: Option<BucketThreshold>)
        ensures
            value == threshold_value(self),
    {
        match self {
            Threshold::Available(found) => Some(found),
            Threshold::NoSamples => None,
            Threshold::ArithmeticOverflow => None,
        }
    }

    /// Returns the bucket, or the status of a score that lacks it.
    pub fn bucket(self) -> (bucket: Result<usize, ScoreStatus>)
        ensures
            bucket == threshold_bucket(self),
    {
        match self {
            Threshold::Available(found) => Ok(found.bucket),
            Threshold::NoSamples => Err(ScoreStatus::NoPredecessorPopulation),
            Threshold::ArithmeticOverflow => Err(ScoreStatus::ArithmeticOverflow),
        }
    }
}

/// Returns the threshold over the rows, or over the columns, of a matrix.
pub fn threshold(counts: &[u64], rows: bool, bits: u64) -> (result: Threshold)
    requires
        counts@.len() == MATRIX_CELLS,
    ensures
        result == line_threshold(counts@, rows, bits),
{
    let sums = marginal(counts, rows);
    if sums.overflowed {
        return Threshold::ArithmeticOverflow;
    }
    match nearest_rank(sums.counts.as_slice(), bits) {
        Ok(Some(selection)) => Threshold::Available(
            BucketThreshold {
                bucket: selection.bucket,
                rank: selection.rank,
                samples: selection.samples,
            },
        ),
        Ok(None) => Threshold::NoSamples,
        Err(_) => Threshold::ArithmeticOverflow,
    }
}

/// The cells of a matrix on given sides of a row and a column threshold.
pub open spec fn in_quadrant(
    row_threshold: int,
    column_threshold: int,
    row_tail: bool,
    column_tail: bool,
) -> spec_fn(int) -> bool {
    |i: int|
        (i / BUCKETS as int >= row_threshold) == row_tail && (i % BUCKETS as int
            >= column_threshold) == column_tail
}

/// The samples of a matrix on given sides of a row and a column threshold.
pub open spec fn quadrant(
    counts: Seq<u64>,
    row_threshold: int,
    column_threshold: int,
    row_tail: bool,
    column_tail: bool,
) -> nat {
    total_where(counts, in_quadrant(row_threshold, column_threshold, row_tail, column_tail))
}

/// Samples of a matrix on all sides of a row and a column threshold.
#[derive(Clone, Copy, Debug, PartialEq, Eq, Structural)]
pub struct Quadrants {
    /// Neither row nor column in the tail.
    pub clean_clean: u128,
    /// Only the column in the tail.
    pub clean_tail: u128,
    /// Only the row in the tail.
    pub tail_clean: u128,
    /// Both in the tail.
    pub tail_tail: u128,
}

/// The quadrants of a matrix.
pub open spec fn quadrants_of(counts: Seq<u64>, row_threshold: int, column_threshold: int) -> Quadrants {
    Quadrants {
        clean_clean: quadrant(counts, row_threshold, column_threshold, false, false) as u128,
        clean_tail: quadrant(counts, row_threshold, column_threshold, false, true) as u128,
        tail_clean: quadrant(counts, row_threshold, column_threshold, true, false) as u128,
        tail_tail: quadrant(counts, row_threshold, column_threshold, true, true) as u128,
    }
}

/// A quadrant holds at most what its matrix holds.
pub proof fn lemma_quadrant_bound(
    counts: Seq<u64>,
    row_threshold: int,
    column_threshold: int,
    row_tail: bool,
    column_tail: bool,
)
    requires
        counts.len() <= MATRIX_CELLS,
    ensures
        quadrant(counts, row_threshold, column_threshold, row_tail, column_tail) <= total(counts),
        total(counts) <= MATRIX_CELLS * u64::MAX,
{
    lemma_total_where_le_total(
        counts,
        in_quadrant(row_threshold, column_threshold, row_tail, column_tail),
    );
    lemma_total_bound(counts);
    assert(counts.len() * u64::MAX <= MATRIX_CELLS * u64::MAX) by (nonlinear_arith)
        requires
            counts.len() <= MATRIX_CELLS,
    ;
}

/// Sums the quadrants of a matrix.
pub fn quadrants(counts: &[u64], row_threshold: usize, column_threshold: usize) -> (result:
    Quadrants)
    requires
        counts@.len() == MATRIX_CELLS,
    ensures
        result == quadrants_of(counts@, row_threshold as int, column_threshold as int),
        result.clean_clean == quadrant(
            counts@,
            row_threshold as int,
            column_threshold as int,
            false,
            false,
        ),
        result.clean_tail == quadrant(
            counts@,
            row_threshold as int,
            column_threshold as int,
            false,
            true,
        ),
        result.tail_clean == quadrant(
            counts@,
            row_threshold as int,
            column_threshold as int,
            true,
            false,
        ),
        result.tail_tail == quadrant(
            counts@,
            row_threshold as int,
            column_threshold as int,
            true,
            true,
        ),
        result.clean_clean <= MATRIX_CELLS * u64::MAX,
        result.clean_tail <= MATRIX_CELLS * u64::MAX,
        result.tail_clean <= MATRIX_CELLS * u64::MAX,
        result.tail_tail <= MATRIX_CELLS * u64::MAX,
{
    let ghost row = row_threshold as int;
    let ghost column = column_threshold as int;
    let mut clean_clean: u128 = 0;
    let mut clean_tail: u128 = 0;
    let mut tail_clean: u128 = 0;
    let mut tail_tail: u128 = 0;
    let mut at: usize = 0;
    assert(counts@.take(0) =~= Seq::<u64>::empty());
    while at < counts.len()
        invariant
            at <= counts@.len(),
            counts@.len() == MATRIX_CELLS,
            row == row_threshold,
            column == column_threshold,
            clean_clean == quadrant(counts@.take(at as int), row, column, false, false),
            clean_tail == quadrant(counts@.take(at as int), row, column, false, true),
            tail_clean == quadrant(counts@.take(at as int), row, column, true, false),
            tail_tail == quadrant(counts@.take(at as int), row, column, true, true),
        decreases counts@.len() - at,
    {
        proof {
            let prefix = counts@.take(at as int);
            lemma_quadrant_bound(prefix, row, column, false, false);
            lemma_quadrant_bound(prefix, row, column, false, true);
            lemma_quadrant_bound(prefix, row, column, true, false);
            lemma_quadrant_bound(prefix, row, column, true, true);
            lemma_total_where_step(
                counts@,
                in_quadrant(row, column, false, false),
                at as int,
            );
            lemma_total_where_step(counts@, in_quadrant(row, column, false, true), at as int);
            lemma_total_where_step(counts@, in_quadrant(row, column, true, false), at as int);
            lemma_total_where_step(counts@, in_quadrant(row, column, true, true), at as int);
        }
        let row_tail: bool = at / BUCKETS >= row_threshold;
        let column_tail: bool = at % BUCKETS >= column_threshold;
        let count: u128 = counts[at] as u128;
        if row_tail {
            if column_tail {
                tail_tail = tail_tail + count;
            } else {
                tail_clean = tail_clean + count;
            }
        } else {
            if column_tail {
                clean_tail = clean_tail + count;
            } else {
                clean_clean = clean_clean + count;
            }
        }
        at = at + 1;
    }
    proof {
        assert(counts@.take(at as int) =~= counts@);
        lemma_quadrant_bound(counts@, row, column, false, false);
        lemma_quadrant_bound(counts@, row, column, false, true);
        lemma_quadrant_bound(counts@, row, column, true, false);
        lemma_quadrant_bound(counts@, row, column, true, true);
    }
    Quadrants { clean_clean, clean_tail, tail_clean, tail_tail }
}

/// Scores of a cause matrix.
#[derive(Clone, Copy, Debug, PartialEq, Eq, Structural)]
pub struct CauseScores {
    /// `P(previous not tail | local tail)`.
    pub local_tail_origin_clean: MatrixScore,
    /// `P(previous tail | local tail)`.
    pub local_tail_origin_tail: MatrixScore,
    /// `P(local tail | previous tail)`.
    pub local_tail_rate_given_prev_tail: MatrixScore,
    /// `P(local tail | previous not tail)`.
    pub local_tail_rate_given_prev_not_tail: MatrixScore,
    /// Ratio between the two rates.
    pub amplification_lift: MatrixScore,
    /// `P(local not tail | previous tail)`.
    pub carry_through: MatrixScore,
}

/// Both thresholds, or the status of a score that lacks one of them.
pub open spec fn both_buckets(first: Threshold, second: Threshold) -> Result<
    (usize, usize),
    ScoreStatus,
> {
    match threshold_bucket(first) {
        Err(status) => Err(status),
        Ok(found) => match threshold_bucket(second) {
            Err(status) => Err(status),
            Ok(other) => Ok((found, other)),
        },
    }
}

fn threshold_buckets(first: Threshold, second: Threshold) -> (buckets: Result<
    (usize, usize),
    ScoreStatus,
>)
    ensures
        buckets == both_buckets(first, second),
{
    let found: usize = first.bucket()?;
    let other: usize = second.bucket()?;
    Ok((found, other))
}

/// The scores of a cause matrix, whose rows are previous-cumulative buckets and
/// whose columns are local buckets.
pub open spec fn cause_scores_of(counts: Seq<u64>, previous: Threshold, local: Threshold) -> CauseScores {
    match both_buckets(previous, local) {
        Err(status) => {
            let score = MatrixScore::of(unavailable_of(status));
            CauseScores {
                local_tail_origin_clean: score,
                local_tail_origin_tail: score,
                local_tail_rate_given_prev_tail: score,
                local_tail_rate_given_prev_not_tail: score,
                amplification_lift: score,
                carry_through: score,
            }
        },
        Ok((row, column)) => {
            let parts = quadrants_of(counts, row as int, column as int);
            let local_tail = (parts.clean_tail + parts.tail_tail) as u128;
            let previous_clean = (parts.clean_clean + parts.clean_tail) as u128;
            let previous_tail = (parts.tail_clean + parts.tail_tail) as u128;
            CauseScores {
                local_tail_origin_clean: MatrixScore::of(
                    probability_of(parts.clean_tail, local_tail),
                ),
                local_tail_origin_tail: MatrixScore::of(
                    probability_of(parts.tail_tail, local_tail),
                ),
                local_tail_rate_given_prev_tail: MatrixScore::of(
                    probability_of(parts.tail_tail, previous_tail),
                ),
                local_tail_rate_given_prev_not_tail: MatrixScore::of(
                    probability_of(parts.clean_tail, previous_clean),
                ),
                amplification_lift: MatrixScore::of(
                    lift_of(parts.tail_tail, previous_tail, parts.clean_tail, previous_clean),
                ),
                carry_through: MatrixScore::of(probability_of(parts.tail_clean, previous_tail)),
            }
        },
    }
}

/// Returns the scores of a cause matrix.
pub fn cause_scores(counts: &[u64], previous: Threshold, local: Threshold) -> (scores: CauseScores)
    requires
        counts@.len() == MATRIX_CELLS,
    ensures
        scores == cause_scores_of(counts@, previous, local),
{
    let (row, column): (usize, usize) = match threshold_buckets(previous, local) {
        Ok(buckets) => buckets,
        Err(status) => {
            let score = MatrixScore::unavailable(status);
            return CauseScores {
                local_tail_origin_clean: score,
                local_tail_origin_tail: score,
                local_tail_rate_given_prev_tail: score,
                local_tail_rate_given_prev_not_tail: score,
                amplification_lift: score,
                carry_through: score,
            };
        },
    };
    let parts = quadrants(counts, row, column);
    let local_tail: u128 = parts.clean_tail + parts.tail_tail;
    let previous_clean: u128 = parts.clean_clean + parts.clean_tail;
    let previous_tail: u128 = parts.tail_clean + parts.tail_tail;
    CauseScores {
        local_tail_origin_clean: MatrixScore::probability(parts.clean_tail, local_tail),
        local_tail_origin_tail: MatrixScore::probability(parts.tail_tail, local_tail),
        local_tail_rate_given_prev_tail: MatrixScore::probability(parts.tail_tail, previous_tail),
        local_tail_rate_given_prev_not_tail: MatrixScore::probability(
            parts.clean_tail,
            previous_clean,
        ),
        amplification_lift: MatrixScore::lift(
            parts.tail_tail,
            previous_tail,
            parts.clean_tail,
            previous_clean,
        ),
        carry_through: MatrixScore::probability(parts.tail_clean, previous_tail),
    }
}

/// The onset score of an incoming matrix, whose rows are previous-cumulative
/// buckets and whose columns are cumulative-after buckets.
pub open spec fn tail_onset_of(counts: Seq<u64>, previous: Threshold, after: Threshold) -> MatrixScore {
    if total(counts) == 0 {
        MatrixScore::of(unavailable_of(ScoreStatus::NoPredecessorPopulation))
    } else {
        match both_buckets(previous, after) {
            Err(status) => MatrixScore::of(unavailable_of(status)),
            Ok((row, column)) => {
                let parts = quadrants_of(counts, row as int, column as int);
                MatrixScore::of(
                    probability_of(
                        parts.clean_tail,
                        (parts.clean_tail + parts.tail_tail) as u128,
                    ),
                )
            },
        }
    }
}

/// Returns the onset score of an incoming matrix.
pub fn tail_onset_score(
    counts: &[u64],
    previous: Threshold,
    after: Threshold,
    incoming_samples: u128,
) -> (score: MatrixScore)
    requires
        counts@.len() == MATRIX_CELLS,
        incoming_samples == total(counts@),
    ensures
        score == tail_onset_of(counts@, previous, after),
{
    if incoming_samples == 0 {
        return MatrixScore::unavailable(ScoreStatus::NoPredecessorPopulation);
    }
    let (row, column): (usize, usize) = match threshold_buckets(previous, after) {
        Ok(buckets) => buckets,
        Err(status) => {
            return MatrixScore::unavailable(status);
        },
    };
    let parts = quadrants(counts, row, column);
    MatrixScore::probability(parts.clean_tail, parts.clean_tail + parts.tail_tail)
}

/// The scores of the matrices of a destination stage; matrices of another shape
/// have none.
pub open spec fn matrix_scores_of(
    stage: StageId,
    consistency: Consistency,
    bits: u64,
    cause: Seq<u64>,
    incoming: Option<Seq<u64>>,
) -> Option<MatrixScores> {
    if cause.len() != MATRIX_CELLS || (incoming matches Some(counts) && counts.len()
        != MATRIX_CELLS) {
        None
    } else {
        let previous = line_threshold(cause, true, bits);
        let local = line_threshold(cause, false, bits);
        let after = match incoming {
            Some(counts) => line_threshold(counts, false, bits),
            None => Threshold::NoSamples,
        };
        let scores = cause_scores_of(cause, previous, local);
        Some(
            MatrixScores {
                stage,
                consistency,
                thresholds: MatrixThresholds {
                    local: threshold_value(local),
                    previous_cumulative: threshold_value(previous),
                    cumulative_after: threshold_value(after),
                },
                cause_samples: total(cause) as u128,
                incoming_samples: match incoming {
                    Some(counts) => total(counts) as u128,
                    None => 0,
                },
                local_tail_origin_clean: scores.local_tail_origin_clean,
                local_tail_origin_tail: scores.local_tail_origin_tail,
                local_tail_rate_given_prev_tail: scores.local_tail_rate_given_prev_tail,
                local_tail_rate_given_prev_not_tail: scores.local_tail_rate_given_prev_not_tail,
                amplification_lift: scores.amplification_lift,
                carry_through: scores.carry_through,
                tail_onset: match incoming {
                    Some(counts) => tail_onset_of(counts, previous, after),
                    None => MatrixScore::of(
                        unavailable_of(ScoreStatus::NoPredecessorPopulation),
                    ),
                },
            },
        )
    }
}

/// The counts of an optional matrix.
pub open spec fn optional_counts(counts: Option<&[u64]>) -> Option<Seq<u64>> {
    match counts {
        Some(counts) => Some(counts@),
        None => None,
    }
}

/// Derives the scores of the matrices of a destination stage.
pub fn derive_matrix_scores(
    stage: StageId,
    consistency: Consistency,
    tail_quantile: u64,
    cause: &[u64],
    incoming: Option<&[u64]>,
) -> (result: Option<MatrixScores>)
    ensures
        result == matrix_scores_of(
            stage,
            consistency,
            tail_quantile,
            cause@,
            optional_counts(incoming),
        ),
{
    if cause.len() != MATRIX_CELLS {
        return None;
    }
    if let Some(counts) = incoming {
        if counts.len() != MATRIX_CELLS {
            return None;
        }
    }
    let previous_cumulative = threshold(cause, true, tail_quantile);
    let local = threshold(cause, false, tail_quantile);
    let cause_samples: u128 = sum(cause);
    let scores = cause_scores(cause, previous_cumulative, local);
    let mut cumulative_after = Threshold::NoSamples;
    let mut incoming_samples: u128 = 0;
    let mut tail_onset = MatrixScore::unavailable(ScoreStatus::NoPredecessorPopulation);
    if let Some(counts) = incoming {
        cumulative_after = threshold(counts, false, tail_quantile);
        incoming_samples = sum(counts);
        tail_onset = tail_onset_score(
            counts,
            previous_cumulative,
            cumulative_after,
            incoming_samples,
        );
    }
    Some(
        MatrixScores {
            stage,
            consistency,
            thresholds: MatrixThresholds {
                local: local.value(),
                previous_cumulative: previous_cumulative.value(),
                cumulative_after: cumulative_after.value(),
            },
            cause_samples,
            incoming_samples,
            local_tail_origin_clean: scores.local_tail_origin_clean,
            local_tail_origin_tail: scores.local_tail_origin_tail,
            local_tail_rate_given_prev_tail: scores.local_tail_rate_given_prev_tail,
            local_tail_rate_given_prev_not_tail: scores.local_tail_rate_given_prev_not_tail,
            amplification_lift: scores.amplification_lift,
            carry_through: scores.carry_through,
            tail_onset,
        },
    )
}

/// Frozen nanosecond thresholds used by one calibrated-online stage report.
#[derive(Clone, Copy, Debug, PartialEq, Eq, Structural)]
pub struct CalibratedThresholds {
    /// The frozen local-tail predicate threshold.
    pub local: u64,
    /// The frozen previous-cumulative predicate threshold when calibrated.
    pub previous_cumulative: Option<u64>,
    /// The frozen cumulative-after-tail predicate threshold.
    pub cumulative_after: u64,
}

impl CalibratedThresholds {
    /// Returns the frozen local-tail predicate threshold.
    pub fn local_ns(self) -> (result: u64)
        ensures
            result == self.local,
    {
        self.local
    }

    /// Returns the frozen previous-cumulative predicate threshold when calibrated.
    pub fn previous_cumulative_ns(self) -> (result: Option<u64>)
        ensures
            result == self.previous_cumulative,
    {
        self.previous_cumulative
    }

    /// Returns the frozen cumulative-after-tail predicate threshold.
    pub fn cumulative_after_ns(self) -> (result: u64)
        ensures
            result == self.cumulative_after,
    {
        self.cumulative_after
    }
}

/// One calibrated-online score and its integer rational terms.
#[derive(Clone, Copy, Debug, PartialEq, Eq, Structural)]
pub struct CalibratedOnlineScore {
    /// The integer numerator of this score's ratio.
    pub numerator: u128,
    /// The integer denominator of this score's ratio.
    pub denominator: u128,
    /// The exact ratio when the score is available.
    pub value: Option<Ratio>,
    /// This score's availability status.
    pub status: ScoreStatus,
}

impl CalibratedOnlineScore {
    /// Returns the integer numerator of this score's ratio.
    pub fn numerator(self) -> (result: u128)
        ensures
            result == self.numerator,
    {
        self.numerator
    }

    /// Returns the integer denominator of this score's ratio.
    pub fn denominator(self) -> (result: u128)
        ensures
            result == self.denominator,
    {
        self.denominator
    }

    /// Returns the exact ratio when the score is available.
    pub fn value(self) -> (result: Option<Ratio>)
        ensures
            result == self.value,
    {
        self.value
    }

    /// Returns this score's availability status.
    pub fn status(self) -> (result: ScoreStatus)
        ensures
            result == self.status,
    {
        self.status
    }

    /// The score of some parts.
    pub open spec fn of(parts: ScoreParts) -> Self {
        CalibratedOnlineScore {
            numerator: parts.numerator,
            denominator: parts.denominator,
            value: parts.value,
            status: parts.status,
        }
    }

    /// Returns the calibrated-online score path.
    pub fn path(self) -> (path: ScorePath)
        ensures
            path == ScorePath::CalibratedOnline,
    {
        ScorePath::CalibratedOnline
    }

    /// Returns the score of some parts.
    pub fn from_parts(parts: ScoreParts) -> (score: Self)
        ensures
            score == Self::of(parts),
    {
        CalibratedOnlineScore {
            numerator: parts.numerator,
            denominator: parts.denominator,
            value: parts.value,
            status: parts.status,
        }
    }

    /// Returns a score without terms.
    pub fn unavailable(status: ScoreStatus) -> (score: Self)
        ensures
            score == Self::of(unavailable_of(status)),
    {
        Self::from_parts(unavailable_parts(status))
    }

    /// Returns a probability as a score.
    pub fn probability(numerator: u128, denominator: u128) -> (score: Self)
        ensures
            score == Self::of(probability_of(numerator, denominator)),
    {
        Self::from_parts(score_probability(numerator, denominator))
    }

    /// Returns the quotient of two rates as a score.
    pub fn lift(
        tail_local_tail: u128,
        previous_tail: u128,
        clean_local_tail: u128,
        previous_clean: u128,
    ) -> (score: Self)
        ensures
            score == Self::of(
                lift_of(tail_local_tail, previous_tail, clean_local_tail, previous_clean),
            ),
    {
        Self::from_parts(
            score_lift(tail_local_tail, previous_tail, clean_local_tail, previous_clean),
        )
    }
}

/// Exact frozen-threshold scores for one reached-stage population.
#[derive(Clone, Copy, Debug, PartialEq, Eq, Structural)]
pub struct CalibratedOnlineScores {
    /// The destination stage.
    pub stage: StageId,
    /// The relaxed consistency attached to the source snapshot.
    pub consistency: Consistency,
    /// The frozen online epoch.
    pub epoch: u16,
    /// The frozen thresholds.
    pub thresholds: CalibratedThresholds,
    /// All classified first and predecessor-bearing marks.
    pub samples: u128,
    /// Classified first marks.
    pub first_samples: u128,
    /// Classified predecessor-bearing marks.
    pub predecessor_samples: u128,
    /// `P(clean | local tail)` over first and predecessor marks.
    pub local_tail_origin_clean: CalibratedOnlineScore,
    /// `P(previous tail | local tail)`; first marks count only in the denominator.
    pub local_tail_origin_tail: CalibratedOnlineScore,
    /// `P(local tail | previous tail)`.
    pub local_tail_rate_given_prev_tail: CalibratedOnlineScore,
    /// `P(local tail | previous not tail)`.
    pub local_tail_rate_given_prev_not_tail: CalibratedOnlineScore,
    /// The ratio between previous-tail and previous-clean local-tail rates.
    pub amplification_lift: CalibratedOnlineScore,
    /// `P(local not tail | previous tail)`.
    pub carry_through: CalibratedOnlineScore,
    /// `P(clean | cumulative after tail)` over first and predecessor marks.
    pub tail_onset: CalibratedOnlineScore,
}

impl CalibratedOnlineScores {
    /// Returns the destination stage.
    pub fn stage(self) -> (result: StageId)
        ensures
            result == self.stage,
    {
        self.stage
    }

    /// Returns the relaxed consistency attached to the source snapshot.
    pub fn consistency(self) -> (result: Consistency)
        ensures
            result == self.consistency,
    {
        self.consistency
    }

    /// Returns the frozen online epoch.
    pub fn epoch(self) -> (result: u16)
        ensures
            result == self.epoch,
    {
        self.epoch
    }

    /// Returns the frozen thresholds.
    pub fn thresholds(self) -> (result: CalibratedThresholds)
        ensures
            result == self.thresholds,
    {
        self.thresholds
    }

    /// Returns all classified first and predecessor-bearing marks.
    pub fn samples(self) -> (result: u128)
        ensures
            result == self.samples,
    {
        self.samples
    }

    /// Returns classified first marks.
    pub fn first_samples(self) -> (result: u128)
        ensures
            result == self.first_samples,
    {
        self.first_samples
    }

    /// Returns classified predecessor-bearing marks.
    pub fn predecessor_samples(self) -> (result: u128)
        ensures
            result == self.predecessor_samples,
    {
        self.predecessor_samples
    }

    /// Returns `P(clean | local tail)` over first and predecessor marks.
    pub fn local_tail_origin_clean(self) -> (result: CalibratedOnlineScore)
        ensures
            result == self.local_tail_origin_clean,
    {
        self.local_tail_origin_clean
    }

    /// Returns `P(previous tail | local tail)`; first marks count only in the denominator.
    pub fn local_tail_origin_tail(self) -> (result: CalibratedOnlineScore)
        ensures
            result == self.local_tail_origin_tail,
    {
        self.local_tail_origin_tail
    }

    /// Returns `P(local tail | previous tail)`.
    pub fn local_tail_rate_given_prev_tail(self) -> (result: CalibratedOnlineScore)
        ensures
            result == self.local_tail_rate_given_prev_tail,
    {
        self.local_tail_rate_given_prev_tail
    }

    /// Returns `P(local tail | previous not tail)`.
    pub fn local_tail_rate_given_prev_not_tail(self) -> (result: CalibratedOnlineScore)
        ensures
            result == self.local_tail_rate_given_prev_not_tail,
    {
        self.local_tail_rate_given_prev_not_tail
    }

    /// Returns the ratio between previous-tail and previous-clean local-tail rates.
    pub fn amplification_lift(self) -> (result: CalibratedOnlineScore)
        ensures
            result == self.amplification_lift,
    {
        self.amplification_lift
    }

    /// Returns `P(local not tail | previous tail)`.
    pub fn carry_through(self) -> (result: CalibratedOnlineScore)
        ensures
            result == self.carry_through,
    {
        self.carry_through
    }

    /// Returns `P(clean | cumulative after tail)` over first and predecessor marks.
    pub fn tail_onset(self) -> (result: CalibratedOnlineScore)
        ensures
            result == self.tail_onset,
    {
        self.tail_onset
    }

    /// Returns the exact calibrated-online score path.
    pub fn path(self) -> (path: ScorePath)
        ensures
            path == ScorePath::CalibratedOnline,
    {
        ScorePath::CalibratedOnline
    }

    /// Returns the population represented by the truth table.
    pub fn population(self) -> (population: ScorePopulation)
        ensures
            population == ScorePopulation::AllReachedMarks,
    {
        ScorePopulation::AllReachedMarks
    }
}

/// Sums of the online truth cells of one stage.
#[derive(Clone, Copy, Debug, PartialEq, Eq, Structural)]
pub struct OnlineTotals {
    /// First marks.
    pub first_samples: u128,
    /// Predecessor-bearing marks.
    pub predecessor_samples: u128,
    /// Marks with a local tail.
    pub local_tail_total: u128,
    /// Marks with a local tail and no tail before.
    pub local_tail_clean: u128,
    /// Predecessor-bearing marks with a local tail and no tail before.
    pub local_tail_previous_clean: u128,
    /// Marks with a local tail and a tail before.
    pub local_tail_previous_tail: u128,
    /// Marks with a tail before.
    pub previous_tail_total: u128,
    /// Predecessor-bearing marks without a tail before.
    pub previous_clean_total: u128,
    /// Marks with a tail before and no local tail.
    pub carry_through: u128,
    /// Marks with a cumulative tail after.
    pub cumulative_after_tail_total: u128,
    /// Marks with a cumulative tail after and no tail before.
    pub tail_onset: u128,
}

/// First marks with given tail predicates.
pub open spec fn first_marks(counts: Seq<u64>, local: bool, after: bool) -> int {
    counts[first_cell(local, after)] as int
}

/// Predecessor-bearing marks with given tail predicates.
pub open spec fn later_marks(counts: Seq<u64>, previous: bool, local: bool, after: bool) -> int {
    counts[predecessor_cell(previous, local, after)] as int
}

/// First marks with a given local predicate.
pub open spec fn first_local(counts: Seq<u64>, local: bool) -> int {
    first_marks(counts, local, false) + first_marks(counts, local, true)
}

/// Predecessor-bearing marks with given previous and local predicates.
pub open spec fn later_local(counts: Seq<u64>, previous: bool, local: bool) -> int {
    later_marks(counts, previous, local, false) + later_marks(counts, previous, local, true)
}

/// First marks with a cumulative tail after.
pub open spec fn first_after_tail(counts: Seq<u64>) -> int {
    first_marks(counts, false, true) + first_marks(counts, true, true)
}

/// Predecessor-bearing marks with a given previous predicate and a cumulative
/// tail after.
pub open spec fn later_after_tail(counts: Seq<u64>, previous: bool) -> int {
    later_marks(counts, previous, false, true) + later_marks(counts, previous, true, true)
}

/// The sums of the online truth cells of one stage.
pub open spec fn online_totals_of(counts: Seq<u64>) -> OnlineTotals {
    let first_clean_local = first_local(counts, false);
    let first_tail_local = first_local(counts, true);
    OnlineTotals {
        first_samples: (first_clean_local + first_tail_local) as u128,
        predecessor_samples: (later_local(counts, false, false) + later_local(counts, false, true)
            + later_local(counts, true, false) + later_local(counts, true, true)) as u128,
        local_tail_total: (first_tail_local + later_local(counts, false, true) + later_local(
            counts,
            true,
            true,
        )) as u128,
        local_tail_clean: (first_tail_local + later_local(counts, false, true)) as u128,
        local_tail_previous_clean: later_local(counts, false, true) as u128,
        local_tail_previous_tail: later_local(counts, true, true) as u128,
        previous_tail_total: (later_local(counts, true, false) + later_local(
            counts,
            true,
            true,
        )) as u128,
        previous_clean_total: (later_local(counts, false, false) + later_local(
            counts,
            false,
            true,
        )) as u128,
        carry_through: later_local(counts, true, false) as u128,
        cumulative_after_tail_total: (first_after_tail(counts) + later_after_tail(counts, false)
            + later_after_tail(counts, true)) as u128,
        tail_onset: (first_after_tail(counts) + later_after_tail(counts, false)) as u128,
    }
}

/// Sums the online truth cells of one stage.
///
/// Cells hold cumulative-after, local and previous tail as bits, in this order
/// from the lowest; first-mark cells come before those with a predecessor.
pub fn online_totals(counts: &[u64]) -> (totals: OnlineTotals)
    requires
        counts@.len() == ONLINE_COUNTERS_PER_STAGE,
    ensures
        totals == online_totals_of(counts@),
{
    let first_clean_local: u128 = counts[0] as u128 + counts[1] as u128;
    let first_tail_local: u128 = counts[2] as u128 + counts[3] as u128;
    let clean_clean: u128 = counts[4] as u128 + counts[5] as u128;
    let clean_tail: u128 = counts[6] as u128 + counts[7] as u128;
    let tail_clean: u128 = counts[8] as u128 + counts[9] as u128;
    let tail_tail: u128 = counts[10] as u128 + counts[11] as u128;
    let first_after: u128 = counts[1] as u128 + counts[3] as u128;
    let clean_after: u128 = counts[5] as u128 + counts[7] as u128;
    let tail_after: u128 = counts[9] as u128 + counts[11] as u128;
    OnlineTotals {
        first_samples: first_clean_local + first_tail_local,
        predecessor_samples: clean_clean + clean_tail + tail_clean + tail_tail,
        local_tail_total: first_tail_local + clean_tail + tail_tail,
        local_tail_clean: first_tail_local + clean_tail,
        local_tail_previous_clean: clean_tail,
        local_tail_previous_tail: tail_tail,
        previous_tail_total: tail_clean + tail_tail,
        previous_clean_total: clean_clean + clean_tail,
        carry_through: tail_clean,
        cumulative_after_tail_total: first_after + clean_after + tail_after,
        tail_onset: first_after + clean_after,
    }
}

/// The calibrated-online scores of some totals.
pub open spec fn online_scores_of(
    stage: StageId,
    consistency: Consistency,
    epoch: u16,
    thresholds: CalibratedThresholds,
    totals: OnlineTotals,
) -> CalibratedOnlineScores {
    let absent = CalibratedOnlineScore::of(unavailable_of(ScoreStatus::NoPredecessorPopulation));
    let observed = totals.predecessor_samples != 0;
    CalibratedOnlineScores {
        stage,
        consistency,
        epoch,
        thresholds,
        samples: (totals.first_samples + totals.predecessor_samples) as u128,
        first_samples: totals.first_samples,
        predecessor_samples: totals.predecessor_samples,
        local_tail_origin_clean: CalibratedOnlineScore::of(
            probability_of(totals.local_tail_clean, totals.local_tail_total),
        ),
        local_tail_origin_tail: if observed {
            CalibratedOnlineScore::of(
                probability_of(totals.local_tail_previous_tail, totals.local_tail_total),
            )
        } else {
            absent
        },
        local_tail_rate_given_prev_tail: if observed {
            CalibratedOnlineScore::of(
                probability_of(totals.local_tail_previous_tail, totals.previous_tail_total),
            )
        } else {
            absent
        },
        local_tail_rate_given_prev_not_tail: if observed {
            CalibratedOnlineScore::of(
                probability_of(totals.local_tail_previous_clean, totals.previous_clean_total),
            )
        } else {
            absent
        },
        amplification_lift: if observed {
            CalibratedOnlineScore::of(
                lift_of(
                    totals.local_tail_previous_tail,
                    totals.previous_tail_total,
                    totals.local_tail_previous_clean,
                    totals.previous_clean_total,
                ),
            )
        } else {
            absent
        },
        carry_through: if observed {
            CalibratedOnlineScore::of(
                probability_of(totals.carry_through, totals.previous_tail_total),
            )
        } else {
            absent
        },
        tail_onset: CalibratedOnlineScore::of(
            probability_of(totals.tail_onset, totals.cumulative_after_tail_total),
        ),
    }
}

/// The frozen thresholds of a stage report; a report without both required
/// thresholds has none.
pub open spec fn calibrated_thresholds_of(report: StageCalibrationReport) -> Option<
    CalibratedThresholds,
> {
    match (threshold_of(report.local), threshold_of(report.cumulative_after)) {
        (Some(local), Some(cumulative_after)) => Some(
            CalibratedThresholds {
                local,
                previous_cumulative: threshold_of(report.previous_cumulative),
                cumulative_after,
            },
        ),
        _ => None,
    }
}

/// The calibrated-online scores of the truth cells of a stage.
pub open spec fn calibrated_scores_of(
    stage: StageId,
    consistency: Consistency,
    epoch: u16,
    calibration: StageCalibrationReport,
    counts: Seq<u64>,
) -> Option<CalibratedOnlineScores> {
    if counts.len() != ONLINE_COUNTERS_PER_STAGE {
        None
    } else {
        match calibrated_thresholds_of(calibration) {
            None => None,
            Some(thresholds) => Some(
                online_scores_of(
                    stage,
                    consistency,
                    epoch,
                    thresholds,
                    online_totals_of(counts),
                ),
            ),
        }
    }
}

fn calibrated_thresholds(report: &StageCalibrationReport) -> (thresholds: Option<
    CalibratedThresholds,
>)
    ensures
        thresholds == calibrated_thresholds_of(*report),
{
    let local: u64 = report.local().estimate()?.value()?;
    let cumulative_after: u64 = report.cumulative_after().estimate()?.value()?;
    let previous_cumulative = match report.previous_cumulative().estimate() {
        Some(estimate) => estimate.value(),
        None => None,
    };
    Some(CalibratedThresholds { local, previous_cumulative, cumulative_after })
}

/// Derives the calibrated-online scores of the truth cells of a stage.
pub fn derive_calibrated_online_scores(
    stage: StageId,
    consistency: Consistency,
    epoch: u16,
    calibration: &StageCalibrationReport,
    counts: &[u64],
) -> (result: Option<CalibratedOnlineScores>)
    ensures
        result == calibrated_scores_of(stage, consistency, epoch, *calibration, counts@),
{
    if counts.len() != ONLINE_COUNTERS_PER_STAGE {
        return None;
    }
    let thresholds = calibrated_thresholds(calibration)?;
    let totals = online_totals(counts);
    let absent = CalibratedOnlineScore::unavailable(ScoreStatus::NoPredecessorPopulation);
    let mut local_tail_origin_tail = absent;
    let mut local_tail_rate_given_prev_tail = absent;
    let mut local_tail_rate_given_prev_not_tail = absent;
    let mut amplification_lift = absent;
    let mut carry_through = absent;
    if totals.predecessor_samples != 0 {
        local_tail_origin_tail = CalibratedOnlineScore::probability(
            totals.local_tail_previous_tail,
            totals.local_tail_total,
        );
        local_tail_rate_given_prev_tail = CalibratedOnlineScore::probability(
            totals.local_tail_previous_tail,
            totals.previous_tail_total,
        );
        local_tail_rate_given_prev_not_tail = CalibratedOnlineScore::probability(
            totals.local_tail_previous_clean,
            totals.previous_clean_total,
        );
        amplification_lift = CalibratedOnlineScore::lift(
            totals.local_tail_previous_tail,
            totals.previous_tail_total,
            totals.local_tail_previous_clean,
            totals.previous_clean_total,
        );
        carry_through = CalibratedOnlineScore::probability(
            totals.carry_through,
            totals.previous_tail_total,
        );
    }
    Some(
        CalibratedOnlineScores {
            stage,
            consistency,
            epoch,
            thresholds,
            samples: totals.first_samples + totals.predecessor_samples,
            first_samples: totals.first_samples,
            predecessor_samples: totals.predecessor_samples,
            local_tail_origin_clean: CalibratedOnlineScore::probability(
                totals.local_tail_clean,
                totals.local_tail_total,
            ),
            local_tail_origin_tail,
            local_tail_rate_given_prev_tail,
            local_tail_rate_given_prev_not_tail,
            amplification_lift,
            carry_through,
            tail_onset: CalibratedOnlineScore::probability(
                totals.tail_onset,
                totals.cumulative_after_tail_total,
            ),
        },
    )
}

/// The four quadrants partition a matrix.
pub proof fn law_quadrants_partition_the_matrix(
    counts: Seq<u64>,
    row_threshold: int,
    column_threshold: int,
)
    ensures
        quadrant(counts, row_threshold, column_threshold, false, false) + quadrant(
            counts,
            row_threshold,
            column_threshold,
            false,
            true,
        ) + quadrant(counts, row_threshold, column_threshold, true, false) + quadrant(
            counts,
            row_threshold,
            column_threshold,
            true,
            true,
        ) == total(counts),
    decreases counts.len(),
{
    if counts.len() > 0 {
        law_quadrants_partition_the_matrix(counts.drop_last(), row_threshold, column_threshold);
    }
}

/// A score is available exactly when it has a value, and then its terms are the
/// ones of the value.
pub open spec fn score_is_coherent(
    numerator: u128,
    denominator: u128,
    value: Option<Ratio>,
    status: ScoreStatus,
) -> bool {
    &&& value is Some <==> status == ScoreStatus::Available
    &&& value matches Some(ratio) ==> ratio == (Ratio { numerator, denominator }) && denominator
        > 0
    &&& status == ScoreStatus::ZeroDenominator ==> denominator == 0
}

/// Whether the terms of a score are those of a probability.
pub open spec fn is_probability(numerator: u128, denominator: u128, status: ScoreStatus) -> bool {
    numerator <= denominator && status != ScoreStatus::InconsistentSnapshot
}

/// Scores of one cause matrix are consistent: every probability is at most one,
/// the two origins of a local tail add up to one, and so do the local-tail rate
/// and the carry-through of a previous tail.
pub proof fn law_cause_scores_are_consistent(counts: Seq<u64>, previous: Threshold, local: Threshold)
    requires
        counts.len() == MATRIX_CELLS,
    ensures
        ({
            let scores = cause_scores_of(counts, previous, local);
            let clean = scores.local_tail_origin_clean;
            let tail = scores.local_tail_origin_tail;
            let rate = scores.local_tail_rate_given_prev_tail;
            let clean_rate = scores.local_tail_rate_given_prev_not_tail;
            let carry = scores.carry_through;
            &&& is_probability(clean.numerator, clean.denominator, clean.status)
            &&& is_probability(tail.numerator, tail.denominator, tail.status)
            &&& is_probability(rate.numerator, rate.denominator, rate.status)
            &&& is_probability(clean_rate.numerator, clean_rate.denominator, clean_rate.status)
            &&& is_probability(carry.numerator, carry.denominator, carry.status)
            &&& clean.denominator == tail.denominator
            &&& clean.numerator + tail.numerator == clean.denominator
            &&& rate.denominator == carry.denominator
            &&& rate.numerator + carry.numerator == rate.denominator
        }),
{
    if both_buckets(previous, local) is Ok {
        let (row, column) = both_buckets(previous, local)->Ok_0;
        lemma_quadrant_bound(counts, row as int, column as int, false, false);
        lemma_quadrant_bound(counts, row as int, column as int, false, true);
        lemma_quadrant_bound(counts, row as int, column as int, true, false);
        lemma_quadrant_bound(counts, row as int, column as int, true, true);
    }
}

/// The onset score of one incoming matrix is a probability.
pub proof fn law_tail_onset_is_a_probability(counts: Seq<u64>, previous: Threshold, after: Threshold)
    requires
        counts.len() == MATRIX_CELLS,
    ensures
        is_probability(
            tail_onset_of(counts, previous, after).numerator,
            tail_onset_of(counts, previous, after).denominator,
            tail_onset_of(counts, previous, after).status,
        ),
{
    if both_buckets(previous, after) is Ok {
        let (row, column) = both_buckets(previous, after)->Ok_0;
        lemma_quadrant_bound(counts, row as int, column as int, false, true);
        lemma_quadrant_bound(counts, row as int, column as int, true, true);
    }
}

/// Calibrated-online scores are consistent: every probability is at most one,
/// the two origins of a local tail add up to one, and so do the local-tail rate
/// and the carry-through of a previous tail.
pub proof fn law_online_scores_are_consistent(
    stage: StageId,
    consistency: Consistency,
    epoch: u16,
    thresholds: CalibratedThresholds,
    counts: Seq<u64>,
)
    requires
        counts.len() == ONLINE_COUNTERS_PER_STAGE,
    ensures
        ({
            let scores = online_scores_of(
                stage,
                consistency,
                epoch,
                thresholds,
                online_totals_of(counts),
            );
            let clean = scores.local_tail_origin_clean;
            let tail = scores.local_tail_origin_tail;
            let rate = scores.local_tail_rate_given_prev_tail;
            let clean_rate = scores.local_tail_rate_given_prev_not_tail;
            let carry = scores.carry_through;
            let onset = scores.tail_onset;
            &&& is_probability(clean.numerator, clean.denominator, clean.status)
            &&& is_probability(tail.numerator, tail.denominator, tail.status)
            &&& is_probability(rate.numerator, rate.denominator, rate.status)
            &&& is_probability(clean_rate.numerator, clean_rate.denominator, clean_rate.status)
            &&& is_probability(carry.numerator, carry.denominator, carry.status)
            &&& is_probability(onset.numerator, onset.denominator, onset.status)
            &&& scores.predecessor_samples > 0 ==> clean.denominator == tail.denominator
                && clean.numerator + tail.numerator == clean.denominator
            &&& rate.denominator == carry.denominator
            &&& rate.numerator + carry.numerator == rate.denominator
            &&& scores.samples == scores.first_samples + scores.predecessor_samples
            &&& scores.samples == total(counts)
        }),
{
    reveal_with_fuel(total, 13);
    assert(total(counts) == counts[0] + counts[1] + counts[2] + counts[3] + counts[4] + counts[5]
        + counts[6] + counts[7] + counts[8] + counts[9] + counts[10] + counts[11]);
}

/// Scores are available exactly when they have a value.
pub proof fn law_scores_are_coherent(numerator: u128, denominator: u128)
    ensures
        ({
            let parts = probability_of(numerator, denominator);
            score_is_coherent(parts.numerator, parts.denominator, parts.value, parts.status)
        }),
        probability_of(numerator, denominator).status == ScoreStatus::InconsistentSnapshot <==> 0
            < denominator < numerator,
{
}

/// The lift is the quotient of the two rates: with terms that can be
/// multiplied, its value is the rate after a tail over the rate after none.
pub proof fn law_lift_is_the_quotient_of_the_rates(
    tail_local_tail: u128,
    previous_tail: u128,
    clean_local_tail: u128,
    previous_clean: u128,
)
    ensures
        ({
            let parts = lift_of(tail_local_tail, previous_tail, clean_local_tail, previous_clean);
            &&& score_is_coherent(parts.numerator, parts.denominator, parts.value, parts.status)
            &&& parts.status == ScoreStatus::ArithmeticOverflow <==> tail_local_tail
                * previous_clean > u128::MAX || previous_tail * clean_local_tail > u128::MAX
            &&& parts.status != ScoreStatus::ArithmeticOverflow ==> parts.numerator
                == tail_local_tail * previous_clean && parts.denominator == previous_tail
                * clean_local_tail
        }),
{
    assert(tail_local_tail * previous_clean >= 0) by (nonlinear_arith);
    assert(previous_tail * clean_local_tail >= 0) by (nonlinear_arith);
}

} // verus!
