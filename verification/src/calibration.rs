//! Calibration readiness and explicit freeze control.

use vstd::prelude::*;

use crate::init::StageId;
use crate::quantile::{QuantileEstimate, TerminalStatus};
use crate::ratio::Ratio;
use crate::snapshot::CalibrationPopulation;

verus! {

/// Consistency guarantee attached to calibration scans and reports.
#[derive(Clone, Copy, Debug, PartialEq, Eq, Structural)]
#[non_exhaustive]
pub enum CalibrationConsistency {
    /// Cells were loaded one by one; the scan has no single instant.
    Relaxed,
}

/// Readiness of one calibration population.
#[derive(Clone, Copy, Debug, PartialEq, Eq, Structural)]
#[non_exhaustive]
pub enum PopulationReadiness {
    /// The population has enough samples to derive a threshold.
    Ready {
        /// Samples observed by the relaxed scan.
        samples: u128,
        /// Required minimum sample count.
        minimum: u64,
    },
    /// The population has not reached its required minimum.
    Insufficient {
        /// Samples observed by the relaxed scan.
        samples: u128,
        /// Required minimum sample count.
        minimum: u64,
    },
    /// No predecessor-bearing marks have reached this stage.
    AbsentNoPredecessor,
}

/// The samples that a readiness speaks of.
pub open spec fn readiness_samples(readiness: PopulationReadiness) -> u128 {
    match readiness {
        PopulationReadiness::Ready { samples, .. } => samples,
        PopulationReadiness::Insufficient { samples, .. } => samples,
        PopulationReadiness::AbsentNoPredecessor => 0,
    }
}

impl PopulationReadiness {
    /// Returns the observed sample count.
    pub fn samples(self) -> (samples: u128)
        ensures
            samples == readiness_samples(self),
    {
        match self {
            PopulationReadiness::Ready { samples, .. } => samples,
            PopulationReadiness::Insufficient { samples, .. } => samples,
            PopulationReadiness::AbsentNoPredecessor => 0,
        }
    }

    /// Returns whether this population permits freezing.
    pub fn permits_freeze(self) -> (permits: bool)
        ensures
            permits == !(self is Insufficient),
    {
        match self {
            PopulationReadiness::Ready { .. } => true,
            PopulationReadiness::AbsentNoPredecessor => true,
            PopulationReadiness::Insufficient { .. } => false,
        }
    }
}

/// Per-population readiness for one stage.
#[derive(Clone, Copy, Debug, PartialEq, Eq, Structural)]
pub struct StageCalibrationReadiness {
    /// The stage described by this entry.
    pub stage: StageId,
    /// Local-latency readiness.
    pub local: PopulationReadiness,
    /// Cumulative-after readiness.
    pub cumulative_after: PopulationReadiness,
    /// Previous-cumulative readiness.
    pub previous_cumulative: PopulationReadiness,
}

impl StageCalibrationReadiness {
    /// Every required or observed population permits freezing.
    pub open spec fn ready(self) -> bool {
        !(self.local is Insufficient) && !(self.cumulative_after is Insufficient) && !(
        self.previous_cumulative is Insufficient)
    }

    /// Returns the stage described by this entry.
    pub fn stage(self) -> (stage: StageId)
        ensures
            stage == self.stage,
    {
        self.stage
    }

    /// Returns local-latency readiness.
    pub fn local(self) -> (readiness: PopulationReadiness)
        ensures
            readiness == self.local,
    {
        self.local
    }

    /// Returns cumulative-after readiness.
    pub fn cumulative_after(self) -> (readiness: PopulationReadiness)
        ensures
            readiness == self.cumulative_after,
    {
        self.cumulative_after
    }

    /// Returns previous-cumulative readiness.
    pub fn previous_cumulative(self) -> (readiness: PopulationReadiness)
        ensures
            readiness == self.previous_cumulative,
    {
        self.previous_cumulative
    }

    /// Returns whether every required or observed population permits freezing.
    pub fn is_ready(self) -> (ready: bool)
        ensures
            ready == self.ready(),
    {
        self.local.permits_freeze() && self.cumulative_after.permits_freeze()
            && self.previous_cumulative.permits_freeze()
    }
}

/// Terminal status of a calibration quantile estimate.
#[derive(Clone, Copy, Debug, PartialEq, Eq, Structural)]
#[non_exhaustive]
pub enum CalibrationTerminal {
    /// The selected rank is below the finite calibration range.
    Lower,
    /// The selected rank has finite lower and upper bounds.
    Finite,
    /// The selected rank is above the finite calibration range.
    Upper,
}

/// One nearest-rank estimate from the pinned calibration grid.
#[derive(Clone, Copy, Debug, PartialEq, Eq, Structural)]
pub struct CalibrationEstimate {
    /// Selected nearest rank.
    pub rank: u128,
    /// Scanned population size.
    pub samples: u128,
    /// Inclusive finite lower bound.
    pub lower_bound: Option<u64>,
    /// Exclusive finite upper bound.
    pub upper_bound: Option<u64>,
    /// Finite minimax threshold representative.
    pub value: Option<u64>,
    /// Maximum relative value error of the finite bucket.
    pub max_relative_error: Option<Ratio>,
    /// Whether the selected rank is finite or terminal.
    pub terminal: CalibrationTerminal,
}

impl CalibrationEstimate {
    /// Returns the selected nearest rank.
    pub fn rank(self) -> (rank: u128)
        ensures
            rank == self.rank,
    {
        self.rank
    }

    /// Returns the scanned population size.
    pub fn samples(self) -> (samples: u128)
        ensures
            samples == self.samples,
    {
        self.samples
    }

    /// Returns the inclusive finite lower bound, when known.
    pub fn lower_bound(self) -> (bound: Option<u64>)
        ensures
            bound == self.lower_bound,
    {
        self.lower_bound
    }

    /// Returns the exclusive finite upper bound, when known.
    pub fn upper_bound(self) -> (bound: Option<u64>)
        ensures
            bound == self.upper_bound,
    {
        self.upper_bound
    }

    /// Returns the finite minimax threshold representative.
    pub fn value(self) -> (value: Option<u64>)
        ensures
            value == self.value,
    {
        self.value
    }

    /// Returns the finite bucket's maximum relative value error.
    pub fn max_relative_error(self) -> (error: Option<Ratio>)
        ensures
            error == self.max_relative_error,
    {
        self.max_relative_error
    }

    /// Returns whether the selected rank is finite or terminal.
    pub fn terminal(self) -> (terminal: CalibrationTerminal)
        ensures
            terminal == self.terminal,
    {
        self.terminal
    }
}

/// The calibration terminal of a quantile estimate.
pub open spec fn calibration_terminal(status: TerminalStatus) -> CalibrationTerminal {
    match status {
        TerminalStatus::Lower => CalibrationTerminal::Lower,
        TerminalStatus::Finite => CalibrationTerminal::Finite,
        TerminalStatus::Upper => CalibrationTerminal::Upper,
    }
}

/// The calibration estimate of a quantile estimate.
pub open spec fn calibration_estimate(estimate: QuantileEstimate) -> CalibrationEstimate {
    CalibrationEstimate {
        rank: estimate.selection.rank,
        samples: estimate.selection.samples,
        lower_bound: estimate.lower_bound,
        upper_bound: estimate.upper_bound,
        value: estimate.value,
        max_relative_error: estimate.max_relative_error,
        terminal: calibration_terminal(estimate.terminal),
    }
}

impl From<QuantileEstimate> for CalibrationEstimate {
    fn from(estimate: QuantileEstimate) -> (result: Self) {
        CalibrationEstimate {
            rank: estimate.selection.rank,
            samples: estimate.selection.samples,
            lower_bound: estimate.lower_bound,
            upper_bound: estimate.upper_bound,
            value: estimate.value,
            max_relative_error: estimate.max_relative_error,
            terminal: match estimate.terminal {
                TerminalStatus::Lower => CalibrationTerminal::Lower,
                TerminalStatus::Finite => CalibrationTerminal::Finite,
                TerminalStatus::Upper => CalibrationTerminal::Upper,
            },
        }
    }
}

impl vstd::std_specs::convert::FromSpecImpl<QuantileEstimate> for CalibrationEstimate {
    open spec fn obeys_from_spec() -> bool {
        true
    }

    open spec fn from_spec(estimate: QuantileEstimate) -> Self {
        calibration_estimate(estimate)
    }
}

/// Availability of a threshold in a freeze report.
#[derive(Clone, Copy, Debug, PartialEq, Eq, Structural)]
#[non_exhaustive]
pub enum CalibrationThresholdAvailability {
    /// A finite threshold was derived and published.
    Available,
    /// The stage had no predecessor-bearing calibration population.
    AbsentNoPredecessor,
    /// The nearest-rank estimate selected a terminal bucket.
    RangeInsufficient,
}

/// Freeze information for one calibration population.
#[derive(Clone, Copy, Debug, PartialEq, Eq, Structural)]
pub struct CalibrationPopulationReport {
    /// The represented population.
    pub population: CalibrationPopulation,
    /// Population size observed by the freeze scan.
    pub samples: u128,
    /// Threshold availability.
    pub availability: CalibrationThresholdAvailability,
    /// Nearest-rank estimate, including terminal estimates.
    pub estimate: Option<CalibrationEstimate>,
}

impl CalibrationPopulationReport {
    /// Returns the represented population.
    pub fn population(self) -> (population: CalibrationPopulation)
        ensures
            population == self.population,
    {
        self.population
    }

    /// Returns the population size observed by the freeze scan.
    pub fn samples(self) -> (samples: u128)
        ensures
            samples == self.samples,
    {
        self.samples
    }

    /// Returns threshold availability.
    pub fn availability(self) -> (availability: CalibrationThresholdAvailability)
        ensures
            availability == self.availability,
    {
        self.availability
    }

    /// Returns the nearest-rank estimate, including terminal estimates.
    pub fn estimate(self) -> (estimate: Option<CalibrationEstimate>)
        ensures
            estimate == self.estimate,
    {
        self.estimate
    }
}

/// Frozen calibration information for one selected stage.
#[derive(Clone, Copy, Debug, PartialEq, Eq, Structural)]
pub struct StageCalibrationReport {
    /// The selected stage.
    pub stage: StageId,
    /// Local-latency threshold report.
    pub local: CalibrationPopulationReport,
    /// Cumulative-after threshold report.
    pub cumulative_after: CalibrationPopulationReport,
    /// Previous-cumulative threshold report.
    pub previous_cumulative: CalibrationPopulationReport,
}

impl StageCalibrationReport {
    /// Returns the selected stage.
    pub fn stage(self) -> (stage: StageId)
        ensures
            stage == self.stage,
    {
        self.stage
    }

    /// Returns the local-latency threshold report.
    pub fn local(self) -> (report: CalibrationPopulationReport)
        ensures
            report == self.local,
    {
        self.local
    }

    /// Returns the cumulative-after threshold report.
    pub fn cumulative_after(self) -> (report: CalibrationPopulationReport)
        ensures
            report == self.cumulative_after,
    {
        self.cumulative_after
    }

    /// Returns the previous-cumulative threshold report.
    pub fn previous_cumulative(self) -> (report: CalibrationPopulationReport)
        ensures
            report == self.previous_cumulative,
    {
        self.previous_cumulative
    }
}

/// The threshold that a population report publishes.
pub open spec fn threshold_of(report: CalibrationPopulationReport) -> Option<u64> {
    match report.estimate {
        Some(estimate) => estimate.value,
        None => None,
    }
}

/// Published thresholds of one stage.
#[derive(Clone, Copy, Debug, PartialEq, Eq, Structural)]
pub struct FrozenStageCalibration {
    /// The report that the thresholds come from.
    pub report: StageCalibrationReport,
}

impl FrozenStageCalibration {
    /// The required thresholds are finite.
    pub open spec fn wf(self) -> bool {
        threshold_of(self.report.local) is Some && threshold_of(self.report.cumulative_after)
            is Some
    }

    /// Returns the report that the thresholds come from.
    pub fn report(self) -> (report: StageCalibrationReport)
        ensures
            report == self.report,
    {
        self.report
    }

    /// Returns the local threshold.
    pub fn local_threshold(self) -> (threshold: u64)
        requires
            self.wf(),
        ensures
            Some(threshold) == threshold_of(self.report.local),
    {
        self.report.local.estimate.unwrap().value.unwrap()
    }

    /// Returns the cumulative-after threshold.
    pub fn cumulative_after_threshold(self) -> (threshold: u64)
        requires
            self.wf(),
        ensures
            Some(threshold) == threshold_of(self.report.cumulative_after),
    {
        self.report.cumulative_after.estimate.unwrap().value.unwrap()
    }

    /// Returns the previous-cumulative threshold, where one was observed.
    pub fn previous_cumulative_threshold(self) -> (threshold: Option<u64>)
        ensures
            threshold == threshold_of(self.report.previous_cumulative),
    {
        match self.report.previous_cumulative.estimate {
            Some(estimate) => estimate.value,
            None => None,
        }
    }
}

/// The first entry for a stage among the first `end` entries.
pub open spec fn find_entry(entries: Seq<StageCalibrationReadiness>, stage: StageId, end: int) -> Option<
    StageCalibrationReadiness,
>
    decreases end,
{
    if end <= 0 {
        None
    } else {
        match find_entry(entries, stage, end - 1) {
            Some(entry) => Some(entry),
            None => if entries[end - 1].stage == stage {
                Some(entries[end - 1])
            } else {
                None
            },
        }
    }
}

proof fn lemma_find_entry_stays(entries: Seq<StageCalibrationReadiness>, stage: StageId, from: int, end: int)
    requires
        0 <= from <= end,
        find_entry(entries, stage, from) is Some,
    ensures
        find_entry(entries, stage, end) == find_entry(entries, stage, from),
    decreases end - from,
{
    if from < end {
        lemma_find_entry_stays(entries, stage, from, end - 1);
    }
}

/// A stage has an entry exactly when some entry is for it, and an entry that is
/// found is for the stage.
pub proof fn lemma_find_entry(entries: Seq<StageCalibrationReadiness>, stage: StageId, end: int)
    requires
        0 <= end <= entries.len(),
    ensures
        find_entry(entries, stage, end) is Some <==> exists|i: int|
            0 <= i < end && (#[trigger] entries[i]).stage == stage,
        find_entry(entries, stage, end) matches Some(entry) ==> entry.stage == stage
            && exists|i: int| 0 <= i < end && #[trigger] entries[i] == entry,
    decreases end,
{
    if end > 0 {
        lemma_find_entry(entries, stage, end - 1);
        if entries[end - 1].stage == stage {
            assert(entries[end - 1].stage == stage);
        }
        if find_entry(entries, stage, end - 1) is Some {
            let i = choose|i: int|
                0 <= i < end - 1 && (#[trigger] entries[i]).stage == stage;
            assert(entries[i].stage == stage);
        }
    }
}

/// Owned relaxed readiness scan for selected stages.
#[derive(Clone, Debug, PartialEq, Eq)]
pub struct CalibrationReadiness {
    /// Requested per-population minimum.
    pub minimum_samples: u64,
    /// Scan consistency.
    pub consistency: CalibrationConsistency,
    /// Stage entries in registration order.
    pub stages: Vec<StageCalibrationReadiness>,
}

impl CalibrationReadiness {
    /// Every selected stage permits freezing.
    pub open spec fn ready(self) -> bool {
        forall|i: int| 0 <= i < self.stages@.len() ==> (#[trigger] self.stages@[i]).ready()
    }

    /// Returns the requested per-population minimum.
    pub fn minimum_samples(&self) -> (minimum: u64)
        ensures
            minimum == self.minimum_samples,
    {
        self.minimum_samples
    }

    /// Returns the scan consistency.
    pub fn consistency(&self) -> (consistency: CalibrationConsistency)
        ensures
            consistency == self.consistency,
    {
        self.consistency
    }

    /// Returns stage entries in registration order.
    pub fn stages(&self) -> (stages: &[StageCalibrationReadiness])
        ensures
            stages@ == self.stages@,
    {
        self.stages.as_slice()
    }

    /// Returns the entry for `stage` when it belongs to this scan.
    pub fn stage(&self, stage: StageId) -> (entry: Option<StageCalibrationReadiness>)
        ensures
            entry == find_entry(self.stages@, stage, self.stages@.len() as int),
    {
        let mut at: usize = 0;
        while at < self.stages.len()
            invariant
                at <= self.stages@.len(),
                find_entry(self.stages@, stage, at as int) is None,
            decreases self.stages@.len() - at,
        {
            if self.stages[at].stage == stage {
                proof {
                    lemma_find_entry_stays(
                        self.stages@,
                        stage,
                        at + 1,
                        self.stages@.len() as int,
                    );
                }
                return Some(self.stages[at]);
            }
            at = at + 1;
        }
        None
    }

    /// Returns whether every selected stage permits freezing.
    pub fn is_ready(&self) -> (ready: bool)
        ensures
            ready == self.ready(),
    {
        let mut at: usize = 0;
        while at < self.stages.len()
            invariant
                at <= self.stages@.len(),
                forall|i: int| 0 <= i < at ==> (#[trigger] self.stages@[i]).ready(),
            decreases self.stages@.len() - at,
        {
            if !self.stages[at].is_ready() {
                assert(!self.stages@[at as int].ready());
                return false;
            }
            at = at + 1;
        }
        true
    }
}

/// Which stages a freeze is requested for.
#[derive(Clone, Debug, PartialEq, Eq)]
pub enum FreezeSelection {
    /// Every registered stage.
    All,
    /// Only these stages.
    Selected(Vec<StageId>),
}

/// Stages and minimum population size requested for an explicit freeze.
#[derive(Clone, Debug, PartialEq, Eq)]
pub struct FreezeCriteria {
    /// Requested per-population minimum.
    pub minimum_samples: u64,
    /// Requested stages.
    pub selection: FreezeSelection,
}

impl FreezeCriteria {
    /// Selects every registered stage.
    pub fn all_stages(minimum_samples: u64) -> (criteria: Self)
        ensures
            criteria.minimum_samples == minimum_samples,
            criteria.selection is All,
    {
        FreezeCriteria { minimum_samples, selection: FreezeSelection::All }
    }

    /// Selects only the supplied stages; excluded stages remain uncalibrated.
    pub fn for_stages(stages: &[StageId], minimum_samples: u64) -> (criteria: Self)
        ensures
            criteria.minimum_samples == minimum_samples,
            criteria.selection matches FreezeSelection::Selected(selected) && selected@ == stages@,
    {
        let mut selected: Vec<StageId> = Vec::new();
        let mut at: usize = 0;
        while at < stages.len()
            invariant
                at <= stages@.len(),
                selected@ == stages@.take(at as int),
            decreases stages@.len() - at,
        {
            selected.push(stages[at]);
            at = at + 1;
            assert(selected@ =~= stages@.take(at as int));
        }
        assert(selected@ =~= stages@);
        FreezeCriteria { minimum_samples, selection: FreezeSelection::Selected(selected) }
    }

    /// Returns the requested per-population minimum.
    pub fn minimum_samples(&self) -> (minimum: u64)
        ensures
            minimum == self.minimum_samples,
    {
        self.minimum_samples
    }
}

/// The first entry for a stage among the first `end` entries.
pub open spec fn find_report(entries: Seq<StageCalibrationReport>, stage: StageId, end: int) -> Option<
    StageCalibrationReport,
>
    decreases end,
{
    if end <= 0 {
        None
    } else {
        match find_report(entries, stage, end - 1) {
            Some(entry) => Some(entry),
            None => if entries[end - 1].stage == stage {
                Some(entries[end - 1])
            } else {
                None
            },
        }
    }
}

proof fn lemma_find_report_stays(entries: Seq<StageCalibrationReport>, stage: StageId, from: int, end: int)
    requires
        0 <= from <= end,
        find_report(entries, stage, from) is Some,
    ensures
        find_report(entries, stage, end) == find_report(entries, stage, from),
    decreases end - from,
{
    if from < end {
        lemma_find_report_stays(entries, stage, from, end - 1);
    }
}

/// A stage has an entry exactly when some entry is for it, and an entry that is
/// found is for the stage.
pub proof fn lemma_find_report(entries: Seq<StageCalibrationReport>, stage: StageId, end: int)
    requires
        0 <= end <= entries.len(),
    ensures
        find_report(entries, stage, end) is Some <==> exists|i: int|
            0 <= i < end && (#[trigger] entries[i]).stage == stage,
        find_report(entries, stage, end) matches Some(entry) ==> entry.stage == stage
            && exists|i: int| 0 <= i < end && #[trigger] entries[i] == entry,
    decreases end,
{
    if end > 0 {
        lemma_find_report(entries, stage, end - 1);
        if entries[end - 1].stage == stage {
            assert(entries[end - 1].stage == stage);
        }
        if find_report(entries, stage, end - 1) is Some {
            let i = choose|i: int|
                0 <= i < end - 1 && (#[trigger] entries[i]).stage == stage;
            assert(entries[i].stage == stage);
        }
    }
}

/// Owned report from one relaxed freeze attempt.
#[derive(Clone, Debug, PartialEq, Eq)]
pub struct FreezeReport {
    /// Published epoch, or `None` for a failed range check.
    pub epoch: Option<u16>,
    /// Explicitly relaxed freeze consistency.
    pub consistency: CalibrationConsistency,
    /// Selected stage reports in registration order.
    pub stages: Vec<StageCalibrationReport>,
}

impl FreezeReport {
    /// Returns the published epoch, or `None` for a failed range check.
    pub fn epoch(&self) -> (epoch: Option<u16>)
        ensures
            epoch == self.epoch,
    {
        self.epoch
    }

    /// Returns the explicitly relaxed freeze consistency.
    pub fn consistency(&self) -> (consistency: CalibrationConsistency)
        ensures
            consistency == self.consistency,
    {
        self.consistency
    }

    /// Returns selected stage reports in registration order.
    pub fn stages(&self) -> (stages: &[StageCalibrationReport])
        ensures
            stages@ == self.stages@,
    {
        self.stages.as_slice()
    }

    /// Returns the report for `stage` when it was selected.
    pub fn stage(&self, stage: StageId) -> (report: Option<StageCalibrationReport>)
        ensures
            report == find_report(self.stages@, stage, self.stages@.len() as int),
    {
        let mut at: usize = 0;
        while at < self.stages.len()
            invariant
                at <= self.stages@.len(),
                find_report(self.stages@, stage, at as int) is None,
            decreases self.stages@.len() - at,
        {
            if self.stages[at].stage == stage {
                proof {
                    lemma_find_report_stays(
                        self.stages@,
                        stage,
                        at + 1,
                        self.stages@.len() as int,
                    );
                }
                return Some(self.stages[at]);
            }
            at = at + 1;
        }
        None
    }
}

/// A typed failure to freeze calibration.
#[derive(Clone, Debug, PartialEq, Eq)]
#[non_exhaustive]
pub enum FreezeError {
    /// A selected-stage criterion contained no stages.
    NoStagesSelected,
    /// A selected stage does not belong to this recorder.
    InvalidStageSelection {
        /// Rejected stage identifier.
        stage: StageId,
    },
    /// A selected stage occurred more than once.
    DuplicateStageSelection {
        /// Repeated stage identifier.
        stage: StageId,
    },
    /// At least one required or observed population is not ready.
    NotReady {
        /// Relaxed readiness scan that prevented the freeze.
        readiness: CalibrationReadiness,
    },
    /// Another caller currently owns the freeze transition.
    AlreadyFreezing,
    /// Calibration has already frozen successfully.
    AlreadyFrozen {
        /// Existing frozen epoch.
        epoch: u16,
    },
    /// A selected quantile rank landed in a terminal bucket.
    CalibrationRangeInsufficient {
        /// Stage whose population selected a terminal bucket.
        stage: StageId,
        /// Population whose range was insufficient.
        population: CalibrationPopulation,
        /// Selected lower or upper terminal.
        terminal: CalibrationTerminal,
        /// Full retained relaxed report for the failed attempt.
        report: FreezeReport,
    },
    /// Calibration counters exceeded the supported nearest-rank total.
    CalibrationArithmeticOverflow {
        /// Stage whose population overflowed.
        stage: StageId,
        /// Population whose counter total overflowed.
        population: CalibrationPopulation,
    },
}

} // verus!
