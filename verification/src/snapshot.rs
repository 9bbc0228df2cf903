//! Owned scans of recorder counters and their differences.

use vstd::prelude::*;
use vstd::slice::slice_subrange;

use crate::bucket::{calibration_grid, default_grid, BUCKETS, CALIBRATION_BUCKETS};
use crate::calibration::{FreezeReport, StageCalibrationReport};
use crate::counts::{sum, total};
use crate::freeze::published_reports;
use crate::init::{MemoryEstimate, RegistryCookie, StageId, Tracegrams};
use crate::layout::{
    CalibrationDistribution, Cell, DiagnosticCounter, FixedStorageLayout,
    ONLINE_COUNTERS_PER_STAGE,
};
use crate::matrix::{MatrixCell, MATRIX_CELLS};
use crate::quantile::valid_quantile;
use crate::recorder::{
    owned_counts, CALIBRATION_COLLECTING, CALIBRATION_FREEZING, CALIBRATION_FROZEN,
};

verus! {

/// Consistency guarantee attached to read-plane data.
#[derive(Clone, Copy, Debug, PartialEq, Eq, Structural)]
#[non_exhaustive]
pub enum Consistency {
    /// Cells were loaded one by one; the scan has no single instant.
    Relaxed,
}

/// Recorder calibration lifecycle state observed by a snapshot.
#[derive(Clone, Copy, Debug, PartialEq, Eq, Structural)]
#[non_exhaustive]
pub enum CalibrationState {
    /// Calibration distributions are collecting samples.
    Collecting,
    /// One control-plane caller is deriving calibration thresholds.
    Freezing,
    /// Calibration thresholds have been published.
    Frozen,
}

impl CalibrationState {
    /// The value that stands for a state in storage.
    pub open spec fn stored(self) -> u8 {
        match self {
            CalibrationState::Collecting => CALIBRATION_COLLECTING,
            CalibrationState::Freezing => CALIBRATION_FREEZING,
            CalibrationState::Frozen => CALIBRATION_FROZEN,
        }
    }

    /// Returns the value that stands for this state in storage.
    pub fn raw(self) -> (raw: u8)
        ensures
            raw == self.stored(),
    {
        match self {
            CalibrationState::Collecting => CALIBRATION_COLLECTING,
            CalibrationState::Freezing => CALIBRATION_FREEZING,
            CalibrationState::Frozen => CALIBRATION_FROZEN,
        }
    }

    /// Returns the state that a stored value stands for.
    pub fn from_raw(raw: u8) -> (state: Self)
        requires
            raw <= CALIBRATION_FROZEN,
        ensures
            state.stored() == raw,
    {
        if raw == CALIBRATION_COLLECTING {
            CalibrationState::Collecting
        } else if raw == CALIBRATION_FREEZING {
            CalibrationState::Freezing
        } else {
            CalibrationState::Frozen
        }
    }
}

/// A calibration distribution stored for each stage.
#[derive(Clone, Copy, Debug, PartialEq, Eq, Structural)]
#[non_exhaustive]
pub enum CalibrationPopulation {
    /// Local latency at the stage.
    Local,
    /// Cumulative latency after the stage.
    CumulativeAfter,
    /// Cumulative latency before predecessor-bearing marks.
    PreviousCumulative,
}

/// The distribution that a population is counted in.
pub open spec fn distribution_of(population: CalibrationPopulation) -> CalibrationDistribution {
    match population {
        CalibrationPopulation::Local => CalibrationDistribution::Local,
        CalibrationPopulation::CumulativeAfter => CalibrationDistribution::CumulativeAfter,
        CalibrationPopulation::PreviousCumulative => CalibrationDistribution::PreviousCumulative,
    }
}

impl CalibrationPopulation {
    /// Returns the distribution that a population is counted in.
    pub fn distribution(self) -> (distribution: CalibrationDistribution)
        ensures
            distribution == distribution_of(self),
    {
        match self {
            CalibrationPopulation::Local => CalibrationDistribution::Local,
            CalibrationPopulation::CumulativeAfter => CalibrationDistribution::CumulativeAfter,
            CalibrationPopulation::PreviousCumulative => {
                CalibrationDistribution::PreviousCumulative
            },
        }
    }
}

/// Whether calibrated-online counters can be subtracted across a window.
#[derive(Clone, Copy, Debug, PartialEq, Eq, Structural)]
#[non_exhaustive]
pub enum OnlineDeltaAvailability {
    /// Both endpoints belong to the same online calibration epoch.
    SameEpoch {
        /// The shared epoch.
        epoch: u16,
    },
    /// The endpoints belong to different online calibration epochs.
    EpochMismatch {
        /// Epoch observed in the earlier snapshot.
        earlier: u16,
        /// Epoch observed in the later snapshot.
        later: u16,
    },
}

/// A typed failure to subtract two snapshots.
#[derive(Clone, Copy, Debug, PartialEq, Eq, Structural)]
#[non_exhaustive]
pub enum DeltaError {
    /// The snapshots came from different recorder registries.
    RegistryMismatch,
    /// A supposedly later monotonic counter was smaller than its earlier value.
    CounterUnderflow {
        /// Value observed in the earlier snapshot.
        earlier: u64,
        /// Value observed in the later snapshot.
        later: u64,
    },
}

/// Per-population sample totals observed for one stage.
#[derive(Clone, Copy, Debug, PartialEq, Eq, Structural)]
pub struct SampleCounts {
    /// Ordinary local-distribution samples.
    pub local: u128,
    /// Ordinary cumulative-after-distribution samples.
    pub cumulative_after: u128,
    /// Predecessor-bearing cause-matrix samples.
    pub cause: u128,
    /// Predecessor-bearing incoming-matrix samples.
    pub incoming: u128,
    /// Local calibration samples.
    pub calibration_local: u128,
    /// Cumulative-after calibration samples.
    pub calibration_cumulative_after: u128,
    /// Previous-cumulative calibration samples.
    pub calibration_previous_cumulative: u128,
    /// Calibrated-online truth-table samples.
    pub online: u128,
}

impl SampleCounts {
    /// Returns ordinary local-distribution samples.
    pub fn local(self) -> (count: u128)
        ensures
            count == self.local,
    {
        self.local
    }

    /// Returns ordinary cumulative-after-distribution samples.
    pub fn cumulative_after(self) -> (count: u128)
        ensures
            count == self.cumulative_after,
    {
        self.cumulative_after
    }

    /// Returns predecessor-bearing cause-matrix samples.
    pub fn cause(self) -> (count: u128)
        ensures
            count == self.cause,
    {
        self.cause
    }

    /// Returns predecessor-bearing incoming-matrix samples.
    pub fn incoming(self) -> (count: u128)
        ensures
            count == self.incoming,
    {
        self.incoming
    }

    /// Returns local calibration samples.
    pub fn calibration_local(self) -> (count: u128)
        ensures
            count == self.calibration_local,
    {
        self.calibration_local
    }

    /// Returns cumulative-after calibration samples.
    pub fn calibration_cumulative_after(self) -> (count: u128)
        ensures
            count == self.calibration_cumulative_after,
    {
        self.calibration_cumulative_after
    }

    /// Returns previous-cumulative calibration samples.
    pub fn calibration_previous_cumulative(self) -> (count: u128)
        ensures
            count == self.calibration_previous_cumulative,
    {
        self.calibration_previous_cumulative
    }

    /// Returns calibrated-online truth-table samples.
    pub fn online(self) -> (count: u128)
        ensures
            count == self.online,
    {
        self.online
    }
}

/// Coarse availability of each score path's raw inputs.
///
/// Individual scores may still be unavailable because their denominator is
/// zero or because a relaxed scan observed only part of a checkpoint.
#[derive(Clone, Copy, Debug, PartialEq, Eq, Structural)]
pub struct ScoreAvailability {
    /// Both destination matrices contain predecessor samples.
    pub matrix_derived: bool,
    /// Frozen online truth-table samples are present.
    pub calibrated_online: bool,
}

impl ScoreAvailability {
    /// Returns whether both destination matrices contain predecessor samples.
    pub fn matrix_derived(self) -> (available: bool)
        ensures
            available == self.matrix_derived,
    {
        self.matrix_derived
    }

    /// Returns whether frozen online truth-table samples are present.
    pub fn calibrated_online(self) -> (available: bool)
        ensures
            available == self.calibrated_online,
    {
        self.calibrated_online
    }
}

/// Snapshot-visible hot-path anomaly and rejection counters.
#[derive(Clone, Copy, Debug, PartialEq, Eq, Default, Structural)]
pub struct Diagnostics {
    /// Marks carrying a stage from another registry.
    pub invalid_stage_marks: u64,
    /// Marks carrying a context from another registry.
    pub invalid_context_marks: u64,
    /// Repeated or decreasing stage marks.
    pub non_monotonic_marks: u64,
    /// Rejected clock readings earlier than the context timestamp.
    pub clock_regressions: u64,
    /// Local durations outside the exact `u64` nanosecond range.
    pub latency_overflows: u64,
    /// Cumulative-duration additions that overflowed `u64`.
    pub cumulative_overflows: u64,
    /// Calibration samples skipped while a freeze was in progress.
    pub calibration_samples_skipped_while_freezing: u64,
    /// Online samples skipped because no previous threshold exists.
    pub online_samples_skipped_missing_previous_threshold: u64,
}

impl Diagnostics {
    /// Returns marks carrying a stage from another registry.
    pub fn invalid_stage_marks(self) -> (count: u64)
        ensures
            count == self.invalid_stage_marks,
    {
        self.invalid_stage_marks
    }

    /// Returns marks carrying a context from another registry.
    pub fn invalid_context_marks(self) -> (count: u64)
        ensures
            count == self.invalid_context_marks,
    {
        self.invalid_context_marks
    }

    /// Returns repeated or decreasing stage marks.
    pub fn non_monotonic_marks(self) -> (count: u64)
        ensures
            count == self.non_monotonic_marks,
    {
        self.non_monotonic_marks
    }

    /// Returns rejected clock readings earlier than the context timestamp.
    pub fn clock_regressions(self) -> (count: u64)
        ensures
            count == self.clock_regressions,
    {
        self.clock_regressions
    }

    /// Returns local durations outside the exact `u64` nanosecond range.
    pub fn latency_overflows(self) -> (count: u64)
        ensures
            count == self.latency_overflows,
    {
        self.latency_overflows
    }

    /// Returns cumulative-duration additions that overflowed `u64`.
    pub fn cumulative_overflows(self) -> (count: u64)
        ensures
            count == self.cumulative_overflows,
    {
        self.cumulative_overflows
    }

    /// Returns calibration samples skipped while a freeze was in progress.
    pub fn calibration_samples_skipped_while_freezing(self) -> (count: u64)
        ensures
            count == self.calibration_samples_skipped_while_freezing,
    {
        self.calibration_samples_skipped_while_freezing
    }

    /// Returns online samples skipped because no previous threshold exists.
    pub fn online_samples_skipped_missing_previous_threshold(self) -> (count: u64)
        ensures
            count == self.online_samples_skipped_missing_previous_threshold,
    {
        self.online_samples_skipped_missing_previous_threshold
    }

    /// Returns the sum of all diagnostic counters without `u64` overflow.
    pub fn total(self) -> (sum: u128)
        ensures
            sum == self.invalid_stage_marks
                + self.invalid_context_marks
                + self.non_monotonic_marks
                + self.clock_regressions
                + self.latency_overflows
                + self.cumulative_overflows
                + self.calibration_samples_skipped_while_freezing
                + self.online_samples_skipped_missing_previous_threshold,
    {
        self.invalid_stage_marks as u128
            + self.invalid_context_marks as u128
            + self.non_monotonic_marks as u128
            + self.clock_regressions as u128
            + self.latency_overflows as u128
            + self.cumulative_overflows as u128
            + self.calibration_samples_skipped_while_freezing as u128
            + self.online_samples_skipped_missing_previous_threshold as u128
    }
}

/// Owned metadata for one registered stage.
#[derive(Clone, Debug, PartialEq, Eq)]
pub struct StageMetadata {
    /// Registry-branded stage identifier.
    pub id: StageId,
    /// Registered stage name.
    pub name: String,
}

impl StageMetadata {
    /// Returns the registry-branded stage identifier.
    pub fn id(&self) -> (id: StageId)
        ensures
            id == self.id,
    {
        self.id
    }

    /// Returns the registered stage name.
    pub fn name(&self) -> (name: &str)
        ensures
            name@ == self.name@,
    {
        self.name.as_str()
    }
}

/// Success and error completions observed for one stage.
#[derive(Clone, Copy, Debug, PartialEq, Eq, Structural)]
pub struct CompletionCounts {
    /// Successful completions.
    pub success: u64,
    /// Error completions.
    pub error: u64,
}

impl CompletionCounts {
    /// Returns successful completions.
    pub fn success(self) -> (count: u64)
        ensures
            count == self.success,
    {
        self.success
    }

    /// Returns error completions.
    pub fn error(self) -> (count: u64)
        ensures
            count == self.error,
    {
        self.error
    }
}

/// Copies stage metadata.
fn owned_stages(stages: &[StageMetadata]) -> (copy: Vec<StageMetadata>)
    ensures
        copy@ == stages@,
{
    let mut copy: Vec<StageMetadata> = Vec::new();
    let mut at: usize = 0;
    while at < stages.len()
        invariant
            at <= stages@.len(),
            copy@ == stages@.take(at as int),
        decreases stages@.len() - at,
    {
        copy.push(StageMetadata { id: stages[at].id, name: stages[at].name.clone() });
        at = at + 1;
        assert(copy@ =~= stages@.take(at as int));
    }
    assert(copy@ =~= stages@);
    copy
}

/// Copies a freeze report.
fn owned_report(report: &FreezeReport) -> (copy: FreezeReport)
    ensures
        same_report(copy, *report),
{
    let mut stages: Vec<StageCalibrationReport> = Vec::new();
    let mut at: usize = 0;
    while at < report.stages.len()
        invariant
            at <= report.stages@.len(),
            stages@ == report.stages@.take(at as int),
        decreases report.stages@.len() - at,
    {
        stages.push(report.stages[at]);
        at = at + 1;
        assert(stages@ =~= report.stages@.take(at as int));
    }
    assert(stages@ =~= report.stages@);
    FreezeReport { epoch: report.epoch, consistency: report.consistency, stages }
}

/// Two reports hold the same epoch and the same entries.
pub open spec fn same_report(first: FreezeReport, second: FreezeReport) -> bool {
    &&& first.epoch == second.epoch
    &&& first.consistency == second.consistency
    &&& first.stages@ == second.stages@
}

/// An owned scan of one recorder's counters.
///
/// The snapshot remains valid after the recorder is dropped.
#[derive(Clone, Debug)]
pub struct Snapshot {
    /// Brand of the registry.
    pub cookie: RegistryCookie,
    /// Stage metadata in registration order.
    pub stages: Vec<StageMetadata>,
    /// Places of the counters.
    pub layout: FixedStorageLayout,
    /// All counters.
    pub counters: Vec<u64>,
    /// Ordinary bounds.
    pub bucket_bounds: Vec<u64>,
    /// Calibration bounds.
    pub calibration_bucket_bounds: Vec<u64>,
    /// Binary64 pattern of the tail quantile.
    pub tail_quantile: u64,
    /// Observed calibration lifecycle state.
    pub calibration_state: CalibrationState,
    /// Observed calibration epoch.
    pub calibration_epoch: u16,
    /// Report of the successful freeze.
    pub calibration_report: Option<FreezeReport>,
    /// Configured byte budget.
    pub memory_budget_bytes: usize,
    /// Itemized memory estimate.
    pub memory_estimate: MemoryEstimate,
    /// Weak consistency guarantee of the scan.
    pub consistency: Consistency,
}

/// Owned counter differences for a window between two relaxed snapshots.
///
/// Cross-epoch online counters are zeroed, not subtracted.
#[derive(Clone, Debug)]
pub struct DeltaSnapshot {
    /// The differences with the metadata of the later endpoint.
    pub snapshot: Snapshot,
    /// Online-counter epoch comparability.
    pub online_delta_availability: OnlineDeltaAvailability,
}

impl Snapshot {
    /// Counters and metadata fit together.
    pub open spec fn wf(self) -> bool {
        &&& self.layout.wf()
        &&& self.layout.stage_count == self.stages@.len()
        &&& self.stages@.len() <= 64
        &&& self.counters@.len() == self.layout.counter_count
        &&& self.bucket_bounds@ == default_grid()
        &&& self.calibration_bucket_bounds@ == calibration_grid()
        &&& valid_quantile(self.tail_quantile)
        &&& self.memory_estimate.wf()
        &&& forall|i: int|
            0 <= i < self.stages@.len() ==> (#[trigger] self.stages@[i]).id == (StageId {
                cookie: self.cookie,
                index: i as u8,
            })
    }

    /// Whether a stage identifier belongs to this snapshot.
    pub open spec fn owns(self, stage: StageId) -> bool {
        stage.cookie == self.cookie && stage.index < self.stages@.len()
    }

    /// The counters from a cell on.
    pub open spec fn counts_from(self, cell: Cell, length: int) -> Seq<u64> {
        self.counters@.subrange(self.layout.offset(cell), self.layout.offset(cell) + length)
    }

    /// The local distribution of a stage.
    pub open spec fn local_of(self, stage: StageId) -> Seq<u64> {
        self.counts_from(
            Cell::Matrix(MatrixCell::Local { stage: stage.index as usize, bucket: 0 }),
            BUCKETS as int,
        )
    }

    /// The cumulative distribution of a stage.
    pub open spec fn cumulative_of(self, stage: StageId) -> Seq<u64> {
        self.counts_from(
            Cell::Matrix(MatrixCell::Cumulative { stage: stage.index as usize, bucket: 0 }),
            BUCKETS as int,
        )
    }

    /// The cause matrix of a stage, row by row.
    pub open spec fn cause_of(self, stage: StageId) -> Seq<u64> {
        self.counts_from(
            Cell::Matrix(
                MatrixCell::Cause { destination: stage.index as usize, previous: 0, local: 0 },
            ),
            MATRIX_CELLS as int,
        )
    }

    /// The incoming matrix of a stage, row by row; the first stage has none.
    pub open spec fn incoming_of(self, stage: StageId) -> Seq<u64> {
        self.counts_from(
            Cell::Matrix(
                MatrixCell::Incoming { destination: stage.index as usize, previous: 0, after: 0 },
            ),
            MATRIX_CELLS as int,
        )
    }

    /// A calibration distribution of a stage.
    pub open spec fn calibration_of(
        self,
        stage: StageId,
        distribution: CalibrationDistribution,
    ) -> Seq<u64> {
        self.counts_from(
            Cell::Calibration { stage: stage.index as usize, distribution, bucket: 0 },
            CALIBRATION_BUCKETS as int,
        )
    }

    /// The online truth cells of a stage.
    pub open spec fn online_of(self, stage: StageId) -> Seq<u64> {
        self.counts_from(
            Cell::Online { stage: stage.index as usize, counter: 0 },
            ONLINE_COUNTERS_PER_STAGE as int,
        )
    }

    /// The count of a cell.
    pub open spec fn count(self, cell: Cell) -> u64 {
        self.counters@[self.layout.offset(cell)]
    }

    /// The sample totals of a stage.
    pub open spec fn samples_of(self, stage: StageId) -> SampleCounts {
        SampleCounts {
            local: total(self.local_of(stage)) as u128,
            cumulative_after: total(self.cumulative_of(stage)) as u128,
            cause: total(self.cause_of(stage)) as u128,
            incoming: if stage.index == 0 {
                0
            } else {
                total(self.incoming_of(stage)) as u128
            },
            calibration_local: total(
                self.calibration_of(stage, CalibrationDistribution::Local),
            ) as u128,
            calibration_cumulative_after: total(
                self.calibration_of(stage, CalibrationDistribution::CumulativeAfter),
            ) as u128,
            calibration_previous_cumulative: total(
                self.calibration_of(stage, CalibrationDistribution::PreviousCumulative),
            ) as u128,
            online: total(self.online_of(stage)) as u128,
        }
    }

    /// The score-path input availability of a stage.
    pub open spec fn availability_of(self, stage: StageId) -> ScoreAvailability {
        let samples = self.samples_of(stage);
        ScoreAvailability {
            matrix_derived: samples.cause > 0 && samples.incoming > 0,
            calibrated_online: self.calibration_state == CalibrationState::Frozen
                && samples.online > 0,
        }
    }

    /// The diagnostics of the scan.
    pub open spec fn diagnostics_of(self) -> Diagnostics {
        Diagnostics {
            invalid_stage_marks: self.count(Cell::Diagnostic(DiagnosticCounter::InvalidStageMarks)),
            invalid_context_marks: self.count(
                Cell::Diagnostic(DiagnosticCounter::InvalidContextMarks),
            ),
            non_monotonic_marks: self.count(Cell::Diagnostic(DiagnosticCounter::NonMonotonicMarks)),
            clock_regressions: self.count(Cell::Diagnostic(DiagnosticCounter::ClockRegressions)),
            latency_overflows: self.count(Cell::Diagnostic(DiagnosticCounter::LatencyOverflows)),
            cumulative_overflows: self.count(
                Cell::Diagnostic(DiagnosticCounter::CumulativeOverflows),
            ),
            calibration_samples_skipped_while_freezing: self.count(
                Cell::Diagnostic(DiagnosticCounter::CalibrationSamplesSkippedWhileFreezing),
            ),
            online_samples_skipped_missing_previous_threshold: self.count(
                Cell::Diagnostic(DiagnosticCounter::OnlineSamplesSkippedMissingPreviousThreshold),
            ),
        }
    }

    /// Returns the explicitly weak consistency guarantee for this scan.
    pub fn consistency(&self) -> (consistency: Consistency)
        ensures
            consistency == self.consistency,
    {
        self.consistency
    }

    /// Returns owned metadata for all stages in registration order.
    pub fn stages(&self) -> (stages: &[StageMetadata])
        ensures
            stages@ == self.stages@,
    {
        self.stages.as_slice()
    }

    /// Returns the registered name when `stage` belongs to this snapshot.
    pub fn stage_name(&self, stage: StageId) -> (name: Option<&str>)
        ensures
            match name {
                Some(name) => self.owns(stage) && name@ == self.stages@[stage.index as int].name@,
                None => !self.owns(stage),
            },
    {
        let index: usize = self.stage_index(stage)?;
        Some(self.stages[index].name())
    }

    /// Returns the pinned ordinary bucket bounds; each bound starts the next bucket.
    pub fn bucket_bounds(&self) -> (bounds: &[u64])
        ensures
            bounds@ == self.bucket_bounds@,
    {
        self.bucket_bounds.as_slice()
    }

    /// Returns the pinned calibration-grid bounds, using the same convention.
    pub fn calibration_bucket_bounds(&self) -> (bounds: &[u64])
        ensures
            bounds@ == self.calibration_bucket_bounds@,
    {
        self.calibration_bucket_bounds.as_slice()
    }

    /// Returns the binary64 pattern of the configured calibration tail quantile.
    pub fn tail_quantile(&self) -> (bits: u64)
        ensures
            bits == self.tail_quantile,
    {
        self.tail_quantile
    }

    /// Returns the calibration lifecycle state observed by the scan.
    pub fn calibration_state(&self) -> (state: CalibrationState)
        ensures
            state == self.calibration_state,
    {
        self.calibration_state
    }

    /// Returns the calibration epoch observed by the scan.
    pub fn calibration_epoch(&self) -> (epoch: u16)
        ensures
            epoch == self.calibration_epoch,
    {
        self.calibration_epoch
    }

    /// Returns the successful freeze report observed by the scan.
    pub fn calibration_report(&self) -> (report: Option<&FreezeReport>)
        ensures
            match report {
                Some(report) => self.calibration_report == Some(*report),
                None => self.calibration_report is None,
            },
    {
        match &self.calibration_report {
            Some(report) => Some(report),
            None => None,
        }
    }

    /// Returns the recorder's configured memory budget.
    pub fn memory_budget_bytes(&self) -> (budget: usize)
        ensures
            budget == self.memory_budget_bytes,
    {
        self.memory_budget_bytes
    }

    /// Returns the recorder's itemized owned-memory estimate.
    pub fn memory_estimate(&self) -> (estimate: MemoryEstimate)
        ensures
            estimate == self.memory_estimate,
    {
        self.memory_estimate
    }

    /// Returns the local-latency distribution for `stage`.
    pub fn local_counts(&self, stage: StageId) -> (counts: Option<&[u64]>)
        requires
            self.wf(),
        ensures
            match counts {
                Some(counts) => self.owns(stage) && counts@ == self.local_of(stage),
                None => !self.owns(stage),
            },
    {
        let index: usize = self.stage_index(stage)?;
        let start: usize = self.layout.local(index, 0)?;
        proof {
            self.layout.lemma_offset_bounded(
                Cell::Matrix(
                    MatrixCell::Local { stage: index, bucket: (BUCKETS - 1) as usize },
                ),
            );
        }
        Some(slice_subrange(self.counters.as_slice(), start, start + BUCKETS))
    }

    /// Returns the cumulative-latency-after distribution for `stage`.
    pub fn cumulative_counts(&self, stage: StageId) -> (counts: Option<&[u64]>)
        requires
            self.wf(),
        ensures
            match counts {
                Some(counts) => self.owns(stage) && counts@ == self.cumulative_of(stage),
                None => !self.owns(stage),
            },
    {
        let index: usize = self.stage_index(stage)?;
        let start: usize = self.layout.cumulative(index, 0)?;
        proof {
            self.layout.lemma_offset_bounded(
                Cell::Matrix(
                    MatrixCell::Cumulative { stage: index, bucket: (BUCKETS - 1) as usize },
                ),
            );
        }
        Some(slice_subrange(self.counters.as_slice(), start, start + BUCKETS))
    }

    /// Returns the destination-indexed cause matrix in row-major order.
    ///
    /// Rows are previous-cumulative buckets and columns are local buckets.
    pub fn cause_counts(&self, stage: StageId) -> (counts: Option<&[u64]>)
        requires
            self.wf(),
        ensures
            match counts {
                Some(counts) => self.owns(stage) && counts@ == self.cause_of(stage),
                None => !self.owns(stage),
            },
    {
        let index: usize = self.stage_index(stage)?;
        let start: usize = self.layout.cause(index, 0, 0)?;
        proof {
            self.layout.lemma_offset_bounded(
                Cell::Matrix(
                    MatrixCell::Cause {
                        destination: index,
                        previous: (BUCKETS - 1) as usize,
                        local: (BUCKETS - 1) as usize,
                    },
                ),
            );
        }
        Some(slice_subrange(self.counters.as_slice(), start, start + MATRIX_CELLS))
    }

    /// Returns the destination-indexed incoming matrix in row-major order.
    ///
    /// Rows are previous-cumulative buckets and columns are cumulative-after
    /// buckets. The first registered stage has no incoming matrix.
    pub fn incoming_counts(&self, stage: StageId) -> (counts: Option<&[u64]>)
        requires
            self.wf(),
        ensures
            match counts {
                Some(counts) => self.owns(stage) && stage.index > 0 && counts@ == self.incoming_of(stage),
                None => !(self.owns(stage) && stage.index > 0),
            },
    {
        let index: usize = self.stage_index(stage)?;
        let start: usize = self.layout.incoming(index, 0, 0)?;
        proof {
            self.layout.lemma_offset_bounded(
                Cell::Matrix(
                    MatrixCell::Incoming {
                        destination: index,
                        previous: (BUCKETS - 1) as usize,
                        after: (BUCKETS - 1) as usize,
                    },
                ),
            );
        }
        Some(slice_subrange(self.counters.as_slice(), start, start + MATRIX_CELLS))
    }

    /// Returns a calibration distribution for `stage`.
    pub fn calibration_counts(&self, stage: StageId, population: CalibrationPopulation) -> (counts: Option<&[u64]>)
        requires
            self.wf(),
        ensures
            match counts {
                Some(counts) => self.owns(stage) && counts@ == self.calibration_of(stage, distribution_of(population)),
                None => !self.owns(stage),
            },
    {
        let distribution = population.distribution();
        let index: usize = self.stage_index(stage)?;
        let start: usize = self.layout.calibration(index, distribution, 0)?;
        proof {
            self.layout.lemma_offset_bounded(
                Cell::Calibration {
                    stage: index,
                    distribution,
                    bucket: (CALIBRATION_BUCKETS - 1) as usize,
                },
            );
        }
        Some(slice_subrange(self.counters.as_slice(), start, start + CALIBRATION_BUCKETS))
    }

    /// Returns the online truth cells of `stage`.
    pub fn online_counts(&self, stage: StageId) -> (counts: Option<&[u64]>)
        requires
            self.wf(),
        ensures
            match counts {
                Some(counts) => self.owns(stage) && counts@ == self.online_of(stage),
                None => !self.owns(stage),
            },
    {
        let index: usize = self.stage_index(stage)?;
        let start: usize = self.layout.online(index, 0)?;
        proof {
            self.layout.lemma_offset_bounded(
                Cell::Online { stage: index, counter: (ONLINE_COUNTERS_PER_STAGE - 1) as usize },
            );
        }
        Some(slice_subrange(self.counters.as_slice(), start, start + ONLINE_COUNTERS_PER_STAGE))
    }

    /// Returns totals for every stored sample population at `stage`.
    pub fn sample_counts(&self, stage: StageId) -> (samples: Option<SampleCounts>)
        requires
            self.wf(),
        ensures
            samples == (if self.owns(stage) {
                Some(self.samples_of(stage))
            } else {
                None
            }),
    {
        let local: u128 = sum(self.local_counts(stage)?);
        let cumulative_after: u128 = sum(self.cumulative_counts(stage)?);
        let cause: u128 = sum(self.cause_counts(stage)?);
        let incoming: u128 = match self.incoming_counts(stage) {
            Some(counts) => sum(counts),
            None => 0,
        };
        let calibration_local: u128 = sum(
            self.calibration_counts(stage, CalibrationPopulation::Local)?,
        );
        let calibration_cumulative_after: u128 = sum(
            self.calibration_counts(stage, CalibrationPopulation::CumulativeAfter)?,
        );
        let calibration_previous_cumulative: u128 = sum(
            self.calibration_counts(stage, CalibrationPopulation::PreviousCumulative)?,
        );
        let online: u128 = sum(self.online_counts(stage)?);
        Some(
            SampleCounts {
                local,
                cumulative_after,
                cause,
                incoming,
                calibration_local,
                calibration_cumulative_after,
                calibration_previous_cumulative,
                online,
            },
        )
    }

    /// Returns coarse score-path input availability for `stage`.
    pub fn score_availability(&self, stage: StageId) -> (availability: Option<ScoreAvailability>)
        requires
            self.wf(),
        ensures
            availability == (if self.owns(stage) {
                Some(self.availability_of(stage))
            } else {
                None
            }),
    {
        let samples = self.sample_counts(stage)?;
        let frozen: bool = match self.calibration_state {
            CalibrationState::Frozen => true,
            _ => false,
        };
        Some(
            ScoreAvailability {
                matrix_derived: samples.cause > 0 && samples.incoming > 0,
                calibrated_online: frozen && samples.online > 0,
            },
        )
    }

    /// Returns terminal completion counts for `stage`.
    pub fn completion_counts(&self, stage: StageId) -> (counts: Option<CompletionCounts>)
        requires
            self.wf(),
        ensures
            counts == (if self.owns(stage) {
                Some(
                    CompletionCounts {
                        success: self.count(
                            Cell::Completion { stage: stage.index as usize, error: false },
                        ),
                        error: self.count(
                            Cell::Completion { stage: stage.index as usize, error: true },
                        ),
                    },
                )
            } else {
                None
            }),
    {
        let index: usize = self.stage_index(stage)?;
        let success: usize = self.layout.completion(index, false)?;
        let error: usize = self.layout.completion(index, true)?;
        proof {
            self.layout.lemma_offset_bounded(Cell::Completion { stage: index, error: false });
            self.layout.lemma_offset_bounded(Cell::Completion { stage: index, error: true });
        }
        Some(CompletionCounts { success: self.counters[success], error: self.counters[error] })
    }

    /// Returns all anomaly and rejection counters.
    pub fn diagnostics(&self) -> (diagnostics: Diagnostics)
        requires
            self.wf(),
        ensures
            diagnostics == self.diagnostics_of(),
    {
        Diagnostics {
            invalid_stage_marks: self.diagnostic_count(DiagnosticCounter::InvalidStageMarks),
            invalid_context_marks: self.diagnostic_count(DiagnosticCounter::InvalidContextMarks),
            non_monotonic_marks: self.diagnostic_count(DiagnosticCounter::NonMonotonicMarks),
            clock_regressions: self.diagnostic_count(DiagnosticCounter::ClockRegressions),
            latency_overflows: self.diagnostic_count(DiagnosticCounter::LatencyOverflows),
            cumulative_overflows: self.diagnostic_count(DiagnosticCounter::CumulativeOverflows),
            calibration_samples_skipped_while_freezing: self.diagnostic_count(
                DiagnosticCounter::CalibrationSamplesSkippedWhileFreezing,
            ),
            online_samples_skipped_missing_previous_threshold: self.diagnostic_count(
                DiagnosticCounter::OnlineSamplesSkippedMissingPreviousThreshold,
            ),
        }
    }

    fn diagnostic_count(&self, diagnostic: DiagnosticCounter) -> (count: u64)
        requires
            self.wf(),
        ensures
            count == self.count(Cell::Diagnostic(diagnostic)),
    {
        proof {
            self.layout.lemma_offset_bounded(Cell::Diagnostic(diagnostic));
        }
        self.counters[self.layout.diagnostic(diagnostic)]
    }

    fn stage_index(&self, stage: StageId) -> (index: Option<usize>)
        ensures
            index == (if self.owns(stage) {
                Some(stage.index as usize)
            } else {
                None
            }),
    {
        if stage.cookie() == self.cookie && stage.index() < self.stages.len() {
            Some(stage.index())
        } else {
            None
        }
    }

    /// Whether a counter is an online cell of different epochs.
    pub open spec fn discarded(self, earlier: Snapshot, at: int) -> bool {
        self.calibration_epoch != earlier.calibration_epoch && self.layout.online_start <= at
            < self.layout.completion_start
    }

    /// The difference of a counter across a window.
    pub open spec fn difference(self, earlier: Snapshot, at: int) -> int {
        if self.discarded(earlier, at) {
            0
        } else {
            self.counters@[at] - earlier.counters@[at]
        }
    }

    /// The first counter below its earlier value, among the first `end`.
    pub open spec fn underflow(self, earlier: Snapshot, end: int) -> Option<DeltaError>
        decreases end,
    {
        if end <= 0 {
            None
        } else {
            match self.underflow(earlier, end - 1) {
                Some(error) => Some(error),
                None => if self.difference(earlier, end - 1) < 0 {
                    Some(
                        DeltaError::CounterUnderflow {
                            earlier: earlier.counters@[end - 1],
                            later: self.counters@[end - 1],
                        },
                    )
                } else {
                    None
                },
            }
        }
    }

    /// Everything but the counters is the same.
    pub open spec fn same_but_counters(self, other: Snapshot) -> bool {
        &&& self.cookie == other.cookie
        &&& self.stages@ == other.stages@
        &&& self.layout == other.layout
        &&& self.bucket_bounds@ == other.bucket_bounds@
        &&& self.calibration_bucket_bounds@ == other.calibration_bucket_bounds@
        &&& self.tail_quantile == other.tail_quantile
        &&& self.calibration_state == other.calibration_state
        &&& self.calibration_epoch == other.calibration_epoch
        &&& match (self.calibration_report, other.calibration_report) {
            (Some(first), Some(second)) => same_report(first, second),
            (None, None) => true,
            _ => false,
        }
        &&& self.memory_budget_bytes == other.memory_budget_bytes
        &&& self.memory_estimate == other.memory_estimate
    }

    /// Whether online counters compare across a window.
    pub open spec fn online_availability(self, earlier: Snapshot) -> OnlineDeltaAvailability {
        if self.calibration_epoch == earlier.calibration_epoch {
            OnlineDeltaAvailability::SameEpoch { epoch: self.calibration_epoch }
        } else {
            OnlineDeltaAvailability::EpochMismatch {
                earlier: earlier.calibration_epoch,
                later: self.calibration_epoch,
            }
        }
    }

    /// Purely subtracts `earlier` from this later snapshot.
    ///
    /// When the endpoints belong to different calibration epochs, online
    /// counters are zeroed instead of subtracted and the window reports
    /// [`OnlineDeltaAvailability::EpochMismatch`].
    pub fn delta(&self, earlier: &Self) -> (result: Result<DeltaSnapshot, DeltaError>)
        requires
            self.wf(),
            earlier.wf(),
            self.cookie == earlier.cookie ==> self.layout == earlier.layout,
        ensures
            match result {
                Ok(delta) => {
                    &&& self.cookie == earlier.cookie
                    &&& self.underflow(*earlier, self.counters@.len() as int) is None
                    &&& delta.snapshot.wf()
                    &&& delta.snapshot.same_but_counters(*self)
                    &&& forall|i: int|
                        0 <= i < self.counters@.len() ==> #[trigger] delta.snapshot.counters@[i]
                            == self.difference(*earlier, i)
                    &&& delta.online_delta_availability == self.online_availability(*earlier)
                },
                Err(error) => if self.cookie != earlier.cookie {
                    error == DeltaError::RegistryMismatch
                } else {
                    self.underflow(*earlier, self.counters@.len() as int) == Some(error)
                },
            },
    {
        if self.cookie != earlier.cookie {
            return Err(DeltaError::RegistryMismatch);
        }
        let same_epoch: bool = self.calibration_epoch == earlier.calibration_epoch;
        let online_start: usize = self.layout.online_start();
        let online_end: usize = online_start + self.layout.online_counter_count();
        let mut counters: Vec<u64> = Vec::with_capacity(self.counters.len());
        let mut at: usize = 0;
        while at < self.counters.len()
            invariant
                at <= self.counters@.len(),
                self.wf(),
                earlier.wf(),
                self.cookie == earlier.cookie,
                self.layout == earlier.layout,
                same_epoch == (self.calibration_epoch == earlier.calibration_epoch),
                online_start == self.layout.online_start,
                online_end == self.layout.completion_start,
                self.underflow(*earlier, at as int) is None,
                counters@.len() == at,
                forall|i: int|
                    0 <= i < at ==> #[trigger] counters@[i] == self.difference(*earlier, i),
            decreases self.counters@.len() - at,
        {
            if !same_epoch && online_start <= at && at < online_end {
                counters.push(0);
            } else {
                let later_count: u64 = self.counters[at];
                let earlier_count: u64 = earlier.counters[at];
                match later_count.checked_sub(earlier_count) {
                    Some(count) => {
                        counters.push(count);
                    },
                    None => {
                        proof {
                            self.lemma_underflow_stays(
                                *earlier,
                                at + 1,
                                self.counters@.len() as int,
                            );
                        }
                        return Err(
                            DeltaError::CounterUnderflow {
                                earlier: earlier_count,
                                later: later_count,
                            },
                        );
                    },
                }
            }
            at = at + 1;
        }
        let online_delta_availability = if same_epoch {
            OnlineDeltaAvailability::SameEpoch { epoch: self.calibration_epoch }
        } else {
            OnlineDeltaAvailability::EpochMismatch {
                earlier: earlier.calibration_epoch,
                later: self.calibration_epoch,
            }
        };
        let calibration_report = match &self.calibration_report {
            Some(report) => Some(owned_report(report)),
            None => None,
        };
        let snapshot = Snapshot {
            cookie: self.cookie,
            stages: owned_stages(self.stages.as_slice()),
            layout: self.layout,
            counters,
            bucket_bounds: owned_counts(self.bucket_bounds.as_slice()),
            calibration_bucket_bounds: owned_counts(self.calibration_bucket_bounds.as_slice()),
            tail_quantile: self.tail_quantile,
            calibration_state: self.calibration_state,
            calibration_epoch: self.calibration_epoch,
            calibration_report,
            memory_budget_bytes: self.memory_budget_bytes,
            memory_estimate: self.memory_estimate,
            consistency: Consistency::Relaxed,
        };
        Ok(DeltaSnapshot { snapshot, online_delta_availability })
    }

    proof fn lemma_underflow_stays(self, earlier: Snapshot, from: int, end: int)
        requires
            0 <= from <= end,
            self.underflow(earlier, from) is Some,
        ensures
            self.underflow(earlier, end) == self.underflow(earlier, from),
        decreases end - from,
    {
        if from < end {
            self.lemma_underflow_stays(earlier, from, end - 1);
        }
    }
}

impl DeltaSnapshot {
    /// The invariant of a window.
    pub open spec fn wf(self) -> bool {
        self.snapshot.wf()
    }

    /// Returns online-counter epoch comparability for this window.
    pub fn online_delta_availability(&self) -> (availability: OnlineDeltaAvailability)
        ensures
            availability == self.online_delta_availability,
    {
        self.online_delta_availability
    }

    /// The score-path input availability of a stage in this window.
    pub open spec fn availability_of(self, stage: StageId) -> ScoreAvailability {
        let availability = self.snapshot.availability_of(stage);
        ScoreAvailability {
            matrix_derived: availability.matrix_derived,
            calibrated_online: availability.calibrated_online && !(
            self.online_delta_availability is EpochMismatch),
        }
    }

    /// Returns coarse score-path input availability for this window.
    pub fn score_availability(&self, stage: StageId) -> (availability: Option<ScoreAvailability>)
        requires
            self.snapshot.wf(),
        ensures
            availability == (if self.snapshot.owns(stage) {
                Some(self.availability_of(stage))
            } else {
                None
            }),
    {
        let mut availability = self.snapshot.score_availability(stage)?;
        match self.online_delta_availability {
            OnlineDeltaAvailability::EpochMismatch { .. } => {
                availability.calibrated_online = false;
            },
            OnlineDeltaAvailability::SameEpoch { .. } => {},
        }
        Some(availability)
    }

    /// Returns the explicitly weak consistency guarantee for this window.
    pub fn consistency(&self) -> (consistency: Consistency)
        ensures
            consistency == self.snapshot.consistency,
    {
        self.snapshot.consistency()
    }

    /// Returns owned metadata for all stages in registration order.
    pub fn stages(&self) -> (stages: &[StageMetadata])
        ensures
            stages@ == self.snapshot.stages@,
    {
        self.snapshot.stages()
    }

    /// Returns the registered name when `stage` belongs to this window.
    pub fn stage_name(&self, stage: StageId) -> (name: Option<&str>)
        ensures
            match name {
                Some(name) => self.snapshot.owns(stage) && name@ == self.snapshot.stages@[stage.index as int].name@,
                None => !self.snapshot.owns(stage),
            },
    {
        self.snapshot.stage_name(stage)
    }

    /// Returns the pinned ordinary bucket bounds; each bound starts the next bucket.
    pub fn bucket_bounds(&self) -> (bounds: &[u64])
        ensures
            bounds@ == self.snapshot.bucket_bounds@,
    {
        self.snapshot.bucket_bounds()
    }

    /// Returns the pinned calibration-grid bounds, using the same convention.
    pub fn calibration_bucket_bounds(&self) -> (bounds: &[u64])
        ensures
            bounds@ == self.snapshot.calibration_bucket_bounds@,
    {
        self.snapshot.calibration_bucket_bounds()
    }

    /// Returns the binary64 pattern of the configured calibration tail quantile.
    pub fn tail_quantile(&self) -> (bits: u64)
        ensures
            bits == self.snapshot.tail_quantile,
    {
        self.snapshot.tail_quantile()
    }

    /// Returns the calibration lifecycle state observed at the later endpoint.
    pub fn calibration_state(&self) -> (state: CalibrationState)
        ensures
            state == self.snapshot.calibration_state,
    {
        self.snapshot.calibration_state()
    }

    /// Returns the calibration epoch observed at the later endpoint.
    pub fn calibration_epoch(&self) -> (epoch: u16)
        ensures
            epoch == self.snapshot.calibration_epoch,
    {
        self.snapshot.calibration_epoch()
    }

    /// Returns the successful freeze report observed at the later endpoint.
    pub fn calibration_report(&self) -> (report: Option<&FreezeReport>)
        ensures
            match report {
                Some(report) => self.snapshot.calibration_report == Some(*report),
                None => self.snapshot.calibration_report is None,
            },
    {
        self.snapshot.calibration_report()
    }

    /// Returns the recorder's configured memory budget.
    pub fn memory_budget_bytes(&self) -> (budget: usize)
        ensures
            budget == self.snapshot.memory_budget_bytes,
    {
        self.snapshot.memory_budget_bytes()
    }

    /// Returns the recorder's itemized owned-memory estimate.
    pub fn memory_estimate(&self) -> (estimate: MemoryEstimate)
        ensures
            estimate == self.snapshot.memory_estimate,
    {
        self.snapshot.memory_estimate()
    }

    /// Returns the local-latency distribution delta for `stage`.
    pub fn local_counts(&self, stage: StageId) -> (counts: Option<&[u64]>)
        requires
            self.snapshot.wf(),
        ensures
            match counts {
                Some(counts) => self.snapshot.owns(stage) && counts@ == self.snapshot.local_of(stage),
                None => !self.snapshot.owns(stage),
            },
    {
        self.snapshot.local_counts(stage)
    }

    /// Returns the cumulative-latency-after distribution delta for `stage`.
    pub fn cumulative_counts(&self, stage: StageId) -> (counts: Option<&[u64]>)
        requires
            self.snapshot.wf(),
        ensures
            match counts {
                Some(counts) => self.snapshot.owns(stage) && counts@ == self.snapshot.cumulative_of(stage),
                None => !self.snapshot.owns(stage),
            },
    {
        self.snapshot.cumulative_counts(stage)
    }

    /// Returns the destination-indexed cause-matrix delta in row-major order.
    ///
    /// Rows are previous-cumulative buckets and columns are local buckets.
    pub fn cause_counts(&self, stage: StageId) -> (counts: Option<&[u64]>)
        requires
            self.snapshot.wf(),
        ensures
            match counts {
                Some(counts) => self.snapshot.owns(stage) && counts@ == self.snapshot.cause_of(stage),
                None => !self.snapshot.owns(stage),
            },
    {
        self.snapshot.cause_counts(stage)
    }

    /// Returns the destination-indexed incoming-matrix delta in row-major order.
    ///
    /// Rows are previous-cumulative buckets and columns are cumulative-after
    /// buckets. The first registered stage has no incoming matrix.
    pub fn incoming_counts(&self, stage: StageId) -> (counts: Option<&[u64]>)
        requires
            self.snapshot.wf(),
        ensures
            match counts {
                Some(counts) => self.snapshot.owns(stage) && stage.index > 0 && counts@ == self.snapshot.incoming_of(stage),
                None => !(self.snapshot.owns(stage) && stage.index > 0),
            },
    {
        self.snapshot.incoming_counts(stage)
    }

    /// Returns a calibration-distribution delta for `stage`.
    pub fn calibration_counts(&self, stage: StageId, population: CalibrationPopulation) -> (counts: Option<&[u64]>)
        requires
            self.snapshot.wf(),
        ensures
            match counts {
                Some(counts) => self.snapshot.owns(stage) && counts@ == self.snapshot.calibration_of(stage, distribution_of(population)),
                None => !self.snapshot.owns(stage),
            },
    {
        self.snapshot.calibration_counts(stage, population)
    }

    /// Returns the online truth-cell deltas of `stage`.
    pub fn online_counts(&self, stage: StageId) -> (counts: Option<&[u64]>)
        requires
            self.snapshot.wf(),
        ensures
            match counts {
                Some(counts) => self.snapshot.owns(stage) && counts@ == self.snapshot.online_of(stage),
                None => !self.snapshot.owns(stage),
            },
    {
        self.snapshot.online_counts(stage)
    }

    /// Returns totals for every stored sample population in this window.
    pub fn sample_counts(&self, stage: StageId) -> (samples: Option<SampleCounts>)
        requires
            self.snapshot.wf(),
        ensures
            samples == (if self.snapshot.owns(stage) {
                Some(self.snapshot.samples_of(stage))
            } else {
                None
            }),
    {
        self.snapshot.sample_counts(stage)
    }

    /// Returns terminal completion deltas for `stage`.
    pub fn completion_counts(&self, stage: StageId) -> (counts: Option<CompletionCounts>)
        requires
            self.snapshot.wf(),
        ensures
            counts == (if self.snapshot.owns(stage) {
                Some(
                    CompletionCounts {
                        success: self.snapshot.count(
                            Cell::Completion { stage: stage.index as usize, error: false },
                        ),
                        error: self.snapshot.count(
                            Cell::Completion { stage: stage.index as usize, error: true },
                        ),
                    },
                )
            } else {
                None
            }),
    {
        self.snapshot.completion_counts(stage)
    }

    /// Returns all anomaly and rejection counter deltas.
    pub fn diagnostics(&self) -> (diagnostics: Diagnostics)
        requires
            self.snapshot.wf(),
        ensures
            diagnostics == self.snapshot.diagnostics_of(),
    {
        self.snapshot.diagnostics()
    }
}

impl Tracegrams {
    /// Loads each counter into an owned snapshot.
    pub fn snapshot_relaxed(&self) -> (snapshot: Snapshot)
        requires
            self.wf(),
        ensures
            snapshot.wf(),
            snapshot.cookie == self.inner.cookie,
            snapshot.layout == self.inner.layout,
            snapshot.counters@ == self.inner.counters@,
            snapshot.stages@.len() == self.inner.stage_names@.len(),
            forall|i: int|
                0 <= i < snapshot.stages@.len() ==> (#[trigger] snapshot.stages@[i]).name@
                    == self.inner.stage_names@[i]@,
            snapshot.tail_quantile == self.inner.tail_quantile,
            snapshot.calibration_state == self.inner.calibration_state,
            snapshot.calibration_epoch == self.current_epoch(),
            match snapshot.calibration_report {
                Some(report) => {
                    &&& self.inner.calibration_state == CalibrationState::Frozen
                    &&& report.epoch == Some(self.inner.calibration_epoch)
                    &&& report.stages@ == published_reports(
                        self.inner.frozen_calibration@,
                        self.inner.frozen_calibration@.len() as int,
                    )
                },
                None => self.inner.calibration_state != CalibrationState::Frozen,
            },
            snapshot.memory_budget_bytes == self.inner.memory_budget_bytes,
            snapshot.memory_estimate == self.inner.memory_estimate,
    {
        let mut stages: Vec<StageMetadata> = Vec::new();
        let mut at: usize = 0;
        while at < self.inner.stage_names.len()
            invariant
                at <= self.inner.stage_names@.len() <= 64,
                stages@.len() == at,
                forall|i: int|
                    0 <= i < at ==> (#[trigger] stages@[i]).name@ == self.inner.stage_names@[i]@
                        && stages@[i].id == (StageId { cookie: self.inner.cookie, index: i as u8 }),
            decreases self.inner.stage_names@.len() - at,
        {
            stages.push(
                StageMetadata {
                    id: StageId::new(self.inner.cookie, at as u8),
                    name: (&*self.inner.stage_names[at]).to_owned(),
                },
            );
            at = at + 1;
        }
        Snapshot {
            cookie: self.inner.cookie,
            stages,
            layout: self.inner.layout,
            counters: owned_counts(self.inner.counters.as_slice()),
            bucket_bounds: owned_counts(self.inner.default_bounds.as_slice()),
            calibration_bucket_bounds: owned_counts(self.inner.calibration_bounds.as_slice()),
            tail_quantile: self.inner.tail_quantile,
            calibration_state: self.inner.calibration_state,
            calibration_epoch: self.current_calibration_epoch(),
            calibration_report: self.frozen_calibration_report(),
            memory_budget_bytes: self.inner.memory_budget_bytes,
            memory_estimate: self.inner.memory_estimate,
            consistency: Consistency::Relaxed,
        }
    }
}

} // verus!
