//! The single collecting-to-frozen transition of a recorder.

use vstd::prelude::*;

use crate::bucket::{
    calibration_grid, law_grids_increase, lemma_calibration_bounds_are_limited,
    CALIBRATION_BUCKETS, LARGEST_BOUND,
};
use crate::calibration::{
    calibration_estimate, threshold_of, CalibrationConsistency, CalibrationEstimate,
    CalibrationPopulationReport, CalibrationReadiness, CalibrationTerminal,
    CalibrationThresholdAvailability, FreezeCriteria, FreezeError, FreezeReport, FreezeSelection,
    FrozenStageCalibration, PopulationReadiness, StageCalibrationReadiness, StageCalibrationReport,
};
use crate::counts::{sum, total};
use crate::init::{StageId, Tracegrams};
use crate::layout::{CalibrationDistribution, Cell};
use crate::quantile::{
    estimate, estimate_quantile, law_rank_is_within_the_samples, law_selected_bucket_is_the_first,
    rank_of,
};
use crate::recorder::Inner;
use crate::snapshot::{distribution_of, CalibrationPopulation, CalibrationState};

verus! {

/// Counters of one calibration population with their sum.
#[derive(Debug)]
pub struct PopulationScan {
    /// The scanned population.
    pub population: CalibrationPopulation,
    /// Bucket counts.
    pub counts: Vec<u64>,
    /// Sum of the counts.
    pub samples: u128,
}

/// Calibration populations of one stage.
#[derive(Debug)]
pub struct StageScan {
    /// The scanned stage.
    pub stage: StageId,
    /// Local latency.
    pub local: PopulationScan,
    /// Cumulative latency after the stage.
    pub cumulative_after: PopulationScan,
    /// Cumulative latency before the stage.
    pub previous_cumulative: PopulationScan,
}

/// Readiness of a population that every stage must have.
pub open spec fn required_ready(samples: u128, minimum: u64) -> PopulationReadiness {
    if samples > 0 && samples >= minimum {
        PopulationReadiness::Ready { samples, minimum }
    } else {
        PopulationReadiness::Insufficient { samples, minimum }
    }
}

/// Readiness of the predecessor population, which may be absent.
pub open spec fn previous_ready(samples: u128, minimum: u64) -> PopulationReadiness {
    if samples == 0 {
        PopulationReadiness::AbsentNoPredecessor
    } else {
        required_ready(samples, minimum)
    }
}

/// Returns the readiness of a population that every stage must have.
pub fn required_readiness(samples: u128, minimum: u64) -> (readiness: PopulationReadiness)
    ensures
        readiness == required_ready(samples, minimum),
{
    if samples > 0 && samples >= minimum as u128 {
        PopulationReadiness::Ready { samples, minimum }
    } else {
        PopulationReadiness::Insufficient { samples, minimum }
    }
}

/// Returns the readiness of the predecessor population, which may be absent.
pub fn previous_readiness(samples: u128, minimum: u64) -> (readiness: PopulationReadiness)
    ensures
        readiness == previous_ready(samples, minimum),
{
    if samples == 0 {
        PopulationReadiness::AbsentNoPredecessor
    } else {
        required_readiness(samples, minimum)
    }
}

/// The readiness that a scan of one stage shows.
pub open spec fn scan_readiness(scan: StageScan, minimum: u64) -> StageCalibrationReadiness {
    StageCalibrationReadiness {
        stage: scan.stage,
        local: required_ready(scan.local.samples, minimum),
        cumulative_after: required_ready(scan.cumulative_after.samples, minimum),
        previous_cumulative: previous_ready(scan.previous_cumulative.samples, minimum),
    }
}

/// Returns the readiness that scans show.
pub fn readiness_from_scans(scans: &[StageScan], minimum: u64) -> (readiness: CalibrationReadiness)
    ensures
        readiness.minimum_samples == minimum,
        readiness.stages@.len() == scans@.len(),
        forall|i: int|
            0 <= i < scans@.len() ==> #[trigger] readiness.stages@[i] == scan_readiness(
                scans@[i],
                minimum,
            ),
{
    let mut stages: Vec<StageCalibrationReadiness> = Vec::new();
    let mut at: usize = 0;
    while at < scans.len()
        invariant
            at <= scans@.len(),
            stages@.len() == at,
            forall|i: int|
                0 <= i < at ==> #[trigger] stages@[i] == scan_readiness(scans@[i], minimum),
        decreases scans@.len() - at,
    {
        let scan = &scans[at];
        stages.push(
            StageCalibrationReadiness {
                stage: scan.stage,
                local: required_readiness(scan.local.samples, minimum),
                cumulative_after: required_readiness(scan.cumulative_after.samples, minimum),
                previous_cumulative: previous_readiness(
                    scan.previous_cumulative.samples,
                    minimum,
                ),
            },
        );
        at = at + 1;
    }
    CalibrationReadiness {
        minimum_samples: minimum,
        consistency: CalibrationConsistency::Relaxed,
        stages,
    }
}

impl Inner {
    /// Whether a stage identifier belongs to this recorder.
    pub open spec fn owns(self, stage: StageId) -> bool {
        stage.cookie == self.cookie && stage.index < self.layout.stage_count
    }

    /// The bucket counts of one calibration population of a stage.
    pub open spec fn population_counts(
        self,
        stage: StageId,
        distribution: CalibrationDistribution,
    ) -> Seq<u64> {
        let start = self.layout.offset(
            Cell::Calibration { stage: stage.index as usize, distribution, bucket: 0 },
        );
        self.counters@.subrange(start, start + CALIBRATION_BUCKETS)
    }

    /// The readiness of one stage.
    pub open spec fn stage_readiness(self, stage: StageId, minimum: u64) -> StageCalibrationReadiness {
        let local = total(self.population_counts(stage, CalibrationDistribution::Local));
        let after = total(self.population_counts(stage, CalibrationDistribution::CumulativeAfter));
        let previous = total(
            self.population_counts(stage, CalibrationDistribution::PreviousCumulative),
        );
        StageCalibrationReadiness {
            stage,
            local: required_ready(local as u128, minimum),
            cumulative_after: required_ready(after as u128, minimum),
            previous_cumulative: previous_ready(previous as u128, minimum),
        }
    }

    /// The readiness of some stages.
    pub open spec fn readiness_entries(self, stages: Seq<StageId>, minimum: u64) -> Seq<
        StageCalibrationReadiness,
    > {
        Seq::new(stages.len(), |i: int| self.stage_readiness(stages[i], minimum))
    }

    /// Whether some stages may be frozen.
    pub open spec fn stages_ready(self, stages: Seq<StageId>, minimum: u64) -> bool {
        forall|i: int|
            0 <= i < stages.len() ==> self.stage_readiness(#[trigger] stages[i], minimum).ready()
    }

    /// All registered stages in registration order.
    pub open spec fn registered_stages(self) -> Seq<StageId> {
        Seq::new(
            self.layout.stage_count as nat,
            |i: int| StageId { cookie: self.cookie, index: i as u8 },
        )
    }

    /// The stages that a criterion asks for, as given.
    pub open spec fn requested(self, criteria: FreezeCriteria) -> Seq<StageId> {
        match criteria.selection {
            FreezeSelection::All => self.registered_stages(),
            FreezeSelection::Selected(stages) => stages@,
        }
    }

    /// The first error among the first `end` requested stages.
    pub open spec fn selection_error(self, stages: Seq<StageId>, end: int) -> Option<FreezeError>
        decreases end,
    {
        if end <= 0 {
            None
        } else {
            match self.selection_error(stages, end - 1) {
                Some(error) => Some(error),
                None => {
                    let stage = stages[end - 1];
                    if !self.owns(stage) {
                        Some(FreezeError::InvalidStageSelection { stage })
                    } else if stages.take(end - 1).contains(stage) {
                        Some(FreezeError::DuplicateStageSelection { stage })
                    } else {
                        None
                    }
                },
            }
        }
    }

    /// Why a requested selection is refused, if it is.
    pub open spec fn refused_selection(self, stages: Seq<StageId>) -> Option<FreezeError> {
        if stages.len() == 0 {
            Some(FreezeError::NoStagesSelected)
        } else {
            self.selection_error(stages, stages.len() as int)
        }
    }

    /// The requested stages among the first `end` registered ones, in
    /// registration order.
    pub open spec fn chosen(self, stages: Seq<StageId>, end: int) -> Seq<StageId>
        decreases end,
    {
        if end <= 0 {
            Seq::empty()
        } else {
            let rest = self.chosen(stages, end - 1);
            let stage = StageId { cookie: self.cookie, index: (end - 1) as u8 };
            if stages.contains(stage) {
                rest.push(stage)
            } else {
                rest
            }
        }
    }

    /// The requested stages in registration order.
    pub open spec fn selected(self, stages: Seq<StageId>) -> Seq<StageId> {
        self.chosen(stages, self.layout.stage_count as int)
    }

    /// What a freeze reports of one population.
    pub open spec fn population_report(
        self,
        stage: StageId,
        population: CalibrationPopulation,
    ) -> Result<CalibrationPopulationReport, FreezeError> {
        let counts = self.population_counts(stage, distribution_of(population));
        if population == CalibrationPopulation::PreviousCumulative && total(counts) == 0 {
            Ok(
                CalibrationPopulationReport {
                    population,
                    samples: 0,
                    availability: CalibrationThresholdAvailability::AbsentNoPredecessor,
                    estimate: None,
                },
            )
        } else {
            match estimate(counts, calibration_grid(), self.tail_quantile) {
                Ok(Some(found)) => {
                    let result = calibration_estimate(found);
                    Ok(
                        CalibrationPopulationReport {
                            population,
                            samples: total(counts) as u128,
                            availability: if result.terminal == CalibrationTerminal::Finite {
                                CalibrationThresholdAvailability::Available
                            } else {
                                CalibrationThresholdAvailability::RangeInsufficient
                            },
                            estimate: Some(result),
                        },
                    )
                },
                _ => Err(FreezeError::CalibrationArithmeticOverflow { stage, population }),
            }
        }
    }

    /// What a freeze reports of one stage.
    pub open spec fn stage_report(self, stage: StageId) -> Result<
        StageCalibrationReport,
        FreezeError,
    > {
        match self.population_report(stage, CalibrationPopulation::Local) {
            Err(error) => Err(error),
            Ok(local) => match self.population_report(
                stage,
                CalibrationPopulation::CumulativeAfter,
            ) {
                Err(error) => Err(error),
                Ok(cumulative_after) => match self.population_report(
                    stage,
                    CalibrationPopulation::PreviousCumulative,
                ) {
                    Err(error) => Err(error),
                    Ok(previous_cumulative) => Ok(
                        StageCalibrationReport {
                            stage,
                            local,
                            cumulative_after,
                            previous_cumulative,
                        },
                    ),
                },
            },
        }
    }

    /// What a freeze reports of the first `end` stages, up to the first error.
    pub open spec fn stage_reports(self, stages: Seq<StageId>, end: int) -> Result<
        Seq<StageCalibrationReport>,
        FreezeError,
    >
        decreases end,
    {
        if end <= 0 {
            Ok(Seq::empty())
        } else {
            match self.stage_reports(stages, end - 1) {
                Err(error) => Err(error),
                Ok(reports) => match self.stage_report(stages[end - 1]) {
                    Err(error) => Err(error),
                    Ok(report) => Ok(reports.push(report)),
                },
            }
        }
    }
}

/// The terminal of a population estimate outside the finite range.
pub open spec fn population_terminal(report: CalibrationPopulationReport) -> Option<
    CalibrationTerminal,
> {
    match report.estimate {
        Some(found) if found.terminal != CalibrationTerminal::Finite => Some(found.terminal),
        _ => None,
    }
}

/// The first population of a stage with a terminal estimate.
pub open spec fn stage_terminal(report: StageCalibrationReport) -> Option<
    (StageId, CalibrationPopulation, CalibrationTerminal),
> {
    match population_terminal(report.local) {
        Some(terminal) => Some((report.stage, report.local.population, terminal)),
        None => match population_terminal(report.cumulative_after) {
            Some(terminal) => Some((report.stage, report.cumulative_after.population, terminal)),
            None => match population_terminal(report.previous_cumulative) {
                Some(terminal) => Some(
                    (report.stage, report.previous_cumulative.population, terminal),
                ),
                None => None,
            },
        },
    }
}

/// The first terminal estimate among the first `end` reports.
pub open spec fn terminal_before(reports: Seq<StageCalibrationReport>, end: int) -> Option<
    (StageId, CalibrationPopulation, CalibrationTerminal),
>
    decreases end,
{
    if end <= 0 {
        None
    } else {
        match terminal_before(reports, end - 1) {
            Some(found) => Some(found),
            None => stage_terminal(reports[end - 1]),
        }
    }
}

/// Returns the first terminal estimate of some reports.
pub fn first_terminal(reports: &[StageCalibrationReport]) -> (found: Option<
    (StageId, CalibrationPopulation, CalibrationTerminal),
>)
    ensures
        found == terminal_before(reports@, reports@.len() as int),
{
    let mut at: usize = 0;
    while at < reports.len()
        invariant
            at <= reports@.len(),
            terminal_before(reports@, at as int) is None,
        decreases reports@.len() - at,
    {
        let found = first_terminal_of(reports[at]);
        if found.is_some() {
            proof {
                lemma_terminal_stays(reports@, at + 1, reports@.len() as int);
            }
            return found;
        }
        at = at + 1;
    }
    None
}

proof fn lemma_terminal_stays(reports: Seq<StageCalibrationReport>, from: int, end: int)
    requires
        0 <= from <= end,
        terminal_before(reports, from) is Some,
    ensures
        terminal_before(reports, end) == terminal_before(reports, from),
    decreases end - from,
{
    if from < end {
        lemma_terminal_stays(reports, from, end - 1);
    }
}

fn first_terminal_of(report: StageCalibrationReport) -> (found: Option<
    (StageId, CalibrationPopulation, CalibrationTerminal),
>)
    ensures
        found == stage_terminal(report),
{
    if let Some(terminal) = terminal_of(report.local) {
        return Some((report.stage, report.local.population, terminal));
    }
    if let Some(terminal) = terminal_of(report.cumulative_after) {
        return Some((report.stage, report.cumulative_after.population, terminal));
    }
    if let Some(terminal) = terminal_of(report.previous_cumulative) {
        return Some((report.stage, report.previous_cumulative.population, terminal));
    }
    None
}

fn terminal_of(report: CalibrationPopulationReport) -> (found: Option<CalibrationTerminal>)
    ensures
        found == population_terminal(report),
{
    match report.estimate {
        Some(found) => {
            if found.terminal == CalibrationTerminal::Finite {
                None
            } else {
                Some(found.terminal)
            }
        },
        None => None,
    }
}

/// A scan holds the counts of a population of a recorder.
pub open spec fn population_scanned(
    inner: Inner,
    stage: StageId,
    population: CalibrationPopulation,
    scan: PopulationScan,
) -> bool {
    &&& scan.population == population
    &&& scan.counts@ == inner.population_counts(stage, distribution_of(population))
    &&& scan.samples == total(scan.counts@)
}

/// A scan holds the calibration populations of a stage of a recorder.
pub open spec fn stage_scanned(inner: Inner, stage: StageId, scan: StageScan) -> bool {
    &&& scan.stage == stage
    &&& population_scanned(inner, stage, CalibrationPopulation::Local, scan.local)
    &&& population_scanned(
        inner,
        stage,
        CalibrationPopulation::CumulativeAfter,
        scan.cumulative_after,
    )
    &&& population_scanned(
        inner,
        stage,
        CalibrationPopulation::PreviousCumulative,
        scan.previous_cumulative,
    )
}

/// Scans hold the calibration populations of some stages, in their order.
pub open spec fn all_scanned(inner: Inner, stages: Seq<StageId>, scans: Seq<StageScan>) -> bool {
    &&& scans.len() == stages.len()
    &&& forall|i: int|
        0 <= i < stages.len() ==> stage_scanned(inner, stages[i], #[trigger] scans[i])
}

/// All of some stages belong to a recorder.
pub open spec fn all_owned(inner: Inner, stages: Seq<StageId>) -> bool {
    forall|i: int| 0 <= i < stages.len() ==> inner.owns(#[trigger] stages[i])
}

/// Reports as they are published: the thresholds of their stages, and nothing
/// for any other stage.
pub open spec fn publishes(
    inner: Inner,
    reports: Seq<StageCalibrationReport>,
    frozen: Seq<Option<FrozenStageCalibration>>,
) -> bool {
    &&& frozen.len() == inner.layout.stage_count
    &&& forall|i: int|
        0 <= i < reports.len() ==> frozen[(#[trigger] reports[i]).stage.index as int] == Some(
            FrozenStageCalibration { report: reports[i] },
        )
    &&& forall|stage: int|
        0 <= stage < frozen.len() && #[trigger] frozen[stage] is Some ==> exists|i: int|
            0 <= i < reports.len() && (#[trigger] reports[i]).stage.index == stage
}

/// What a freeze attempt of a recorder returns, and what it leaves behind.
///
/// A failed attempt leaves a collecting recorder that is otherwise unchanged. A
/// successful one resets the online cells, publishes the thresholds of the
/// stages under the first epoch, and changes nothing else.
pub open spec fn freeze_outcome(
    before: Inner,
    stages: Seq<StageId>,
    minimum: u64,
    result: Result<FreezeReport, FreezeError>,
    after: Inner,
) -> bool {
    let collecting = Inner { calibration_state: CalibrationState::Collecting, ..before };
    if !before.stages_ready(stages, minimum) {
        &&& result matches Err(FreezeError::NotReady { readiness })
        &&& readiness.minimum_samples == minimum
        &&& readiness.stages@ == before.readiness_entries(stages, minimum)
        &&& after == collecting
    } else {
        match before.stage_reports(stages, stages.len() as int) {
            Err(error) => result == Err::<FreezeReport, FreezeError>(error) && after == collecting,
            Ok(reports) => match terminal_before(reports, reports.len() as int) {
                Some(found) => {
                    &&& result matches Err(
                        FreezeError::CalibrationRangeInsufficient {
                            stage,
                            population,
                            terminal,
                            report,
                        },
                    )
                    &&& (stage, population, terminal) == found
                    &&& report.epoch is None
                    &&& report.stages@ == reports
                    &&& after == collecting
                },
                None => {
                    &&& result matches Ok(report)
                    &&& report.epoch == Some(1u16)
                    &&& report.stages@ == reports
                    &&& frozen_from(before, reports, after)
                },
            },
        }
    }
}

/// What a requested freeze of a recorder returns, and what it leaves behind: a
/// refused selection, or a recorder that is freezing or frozen, changes nothing.
pub open spec fn freeze_attempt(
    before: Inner,
    criteria: FreezeCriteria,
    result: Result<FreezeReport, FreezeError>,
    after: Inner,
) -> bool {
    let requested = before.requested(criteria);
    match before.refused_selection(requested) {
        Some(error) => result == Err::<FreezeReport, FreezeError>(error) && after == before,
        None => match before.calibration_state {
            CalibrationState::Freezing => result == Err::<FreezeReport, FreezeError>(
                FreezeError::AlreadyFreezing,
            ) && after == before,
            CalibrationState::Frozen => result == Err::<FreezeReport, FreezeError>(
                FreezeError::AlreadyFrozen { epoch: before.calibration_epoch },
            ) && after == before,
            CalibrationState::Collecting => freeze_outcome(
                before,
                before.selected(requested),
                criteria.minimum_samples,
                result,
                after,
            ),
        },
    }
}

/// A recorder that was frozen with some reports.
pub open spec fn frozen_from(
    before: Inner,
    reports: Seq<StageCalibrationReport>,
    after: Inner,
) -> bool {
    &&& after == (Inner {
        counters: after.counters,
        frozen_calibration: after.frozen_calibration,
        calibration_state: CalibrationState::Frozen,
        calibration_epoch: 1,
        ..before
    })
    &&& after.counters@.len() == before.counters@.len()
    &&& forall|i: int|
        0 <= i < after.counters@.len() ==> #[trigger] after.counters@[i] == (
        if before.layout.online_start <= i < before.layout.completion_start {
            0
        } else {
            before.counters@[i]
        })
    &&& publishes(before, reports, after.frozen_calibration@)
}

/// Report entries in registration order of the published thresholds.
pub open spec fn published_reports(frozen: Seq<Option<FrozenStageCalibration>>, end: int) -> Seq<
    StageCalibrationReport,
>
    decreases end,
{
    if end <= 0 {
        Seq::empty()
    } else {
        match frozen[end - 1] {
            Some(published) => published_reports(frozen, end - 1).push(published.report),
            None => published_reports(frozen, end - 1),
        }
    }
}

impl Tracegrams {
    /// Reports calibration readiness for every registered stage.
    pub fn calibration_readiness(&self, minimum_samples: u64) -> (readiness: CalibrationReadiness)
        requires
            self.wf(),
        ensures
            readiness.minimum_samples == minimum_samples,
            readiness.stages@ == self.inner.readiness_entries(
                self.inner.registered_stages(),
                minimum_samples,
            ),
    {
        let stages = self.all_stages();
        let scans = self.scan_calibration(stages.as_slice());
        let readiness = readiness_from_scans(scans.as_slice(), minimum_samples);
        proof {
            lemma_readiness(self.inner, stages@, scans@, minimum_samples, readiness);
        }
        readiness
    }

    /// Attempts the single explicit collecting-to-frozen transition.
    pub fn try_freeze_calibration(&mut self, criteria: FreezeCriteria) -> (result: Result<
        FreezeReport,
        FreezeError,
    >)
        requires
            old(self).wf(),
        ensures
            final(self).wf(),
            freeze_attempt(old(self).inner, criteria, result, final(self).inner),
    {
        let minimum_samples: u64 = criteria.minimum_samples;
        let stages = self.validate_selection(criteria)?;
        match self.inner.calibration_state {
            CalibrationState::Collecting => {},
            CalibrationState::Freezing => {
                return Err(FreezeError::AlreadyFreezing);
            },
            CalibrationState::Frozen => {
                return Err(self.already_frozen());
            },
        }
        let scans = self.scan_calibration(stages.as_slice());
        let readiness = readiness_from_scans(scans.as_slice(), minimum_samples);
        proof {
            lemma_readiness(self.inner, stages@, scans@, minimum_samples, readiness);
        }
        if !readiness.is_ready() {
            return Err(FreezeError::NotReady { readiness });
        }
        self.inner.calibration_state = CalibrationState::Freezing;
        proof {
            lemma_state_is_irrelevant(old(self).inner, self.inner, stages@, minimum_samples);
        }
        self.freeze_after_claim(stages.as_slice(), minimum_samples)
    }

    /// Completes a claimed freeze of some distinct stages.
    pub fn freeze_after_claim(&mut self, stages: &[StageId], minimum_samples: u64) -> (result:
        Result<FreezeReport, FreezeError>)
        requires
            old(self).wf(),
            old(self).inner.calibration_state == CalibrationState::Freezing,
            all_owned(old(self).inner, stages@),
            stages@.no_duplicates(),
        ensures
            final(self).wf(),
            freeze_outcome(old(self).inner, stages@, minimum_samples, result, final(self).inner),
    {
        let scans = self.scan_calibration(stages);
        let readiness = readiness_from_scans(scans.as_slice(), minimum_samples);
        proof {
            lemma_readiness(self.inner, stages@, scans@, minimum_samples, readiness);
        }
        if !readiness.is_ready() {
            self.restore_collecting();
            return Err(FreezeError::NotReady { readiness });
        }
        let stage_reports = match self.derive_stage_reports(scans.as_slice(), Ghost(stages@)) {
            Ok(reports) => reports,
            Err(error) => {
                self.restore_collecting();
                return Err(error);
            },
        };
        if let Some((stage, population, terminal)) = first_terminal(stage_reports.as_slice()) {
            self.restore_collecting();
            return Err(
                FreezeError::CalibrationRangeInsufficient {
                    stage,
                    population,
                    terminal,
                    report: FreezeReport {
                        epoch: None,
                        consistency: CalibrationConsistency::Relaxed,
                        stages: stage_reports,
                    },
                },
            );
        }
        self.reset_online_counters();
        self.publish(stage_reports.as_slice(), Ghost(stages@), Ghost(*old(self)));
        let epoch: u16 = 1;
        self.inner.calibration_epoch = epoch;
        self.inner.calibration_state = CalibrationState::Frozen;
        Ok(
            FreezeReport {
                epoch: Some(epoch),
                consistency: CalibrationConsistency::Relaxed,
                stages: stage_reports,
            },
        )
    }

    fn restore_collecting(&mut self)
        requires
            old(self).wf(),
            old(self).inner.calibration_state == CalibrationState::Freezing,
        ensures
            final(self).wf(),
            final(self).inner == (Inner {
                calibration_state: CalibrationState::Collecting,
                ..old(self).inner
            }),
    {
        self.inner.calibration_state = CalibrationState::Collecting;
    }

    fn already_frozen(&self) -> (error: FreezeError)
        ensures
            error == (FreezeError::AlreadyFrozen { epoch: self.inner.calibration_epoch }),
    {
        FreezeError::AlreadyFrozen { epoch: self.inner.calibration_epoch }
    }

    fn all_stages(&self) -> (stages: Vec<StageId>)
        requires
            self.wf(),
        ensures
            stages@ == self.inner.registered_stages(),
            all_owned(self.inner, stages@),
            stages@.no_duplicates(),
    {
        let count: usize = self.inner.layout.stage_count();
        let mut stages: Vec<StageId> = Vec::new();
        let mut at: usize = 0;
        while at < count
            invariant
                at <= count,
                count == self.inner.layout.stage_count,
                count <= 64,
                stages@ == self.inner.registered_stages().take(at as int),
            decreases count - at,
        {
            stages.push(StageId::new(self.inner.cookie, at as u8));
            at = at + 1;
            assert(stages@ =~= self.inner.registered_stages().take(at as int));
        }
        assert(stages@ =~= self.inner.registered_stages());
        stages
    }

    /// Checks a requested selection and puts it into registration order.
    pub fn validate_selection(&self, criteria: FreezeCriteria) -> (result: Result<
        Vec<StageId>,
        FreezeError,
    >)
        requires
            self.wf(),
        ensures
            match self.inner.refused_selection(self.inner.requested(criteria)) {
                Some(error) => result == Err::<Vec<StageId>, FreezeError>(error),
                None => result matches Ok(stages) && stages@ == self.inner.selected(
                    self.inner.requested(criteria),
                ) && all_owned(self.inner, stages@) && stages@.no_duplicates(),
            },
    {
        let stages = match criteria.selection {
            FreezeSelection::All => self.all_stages(),
            FreezeSelection::Selected(stages) => stages,
        };
        if stages.len() == 0 {
            return Err(FreezeError::NoStagesSelected);
        }
        let mut at: usize = 0;
        while at < stages.len()
            invariant
                at <= stages@.len(),
                self.inner.selection_error(stages@, at as int) is None,
                stages@.len() > 0,
                stages@ == self.inner.requested(criteria),
            decreases stages@.len() - at,
        {
            let stage = stages[at];
            if stage.cookie() != self.inner.cookie || stage.index()
                >= self.inner.layout.stage_count() {
                proof {
                    self.inner.lemma_selection_error_stays(
                        stages@,
                        at + 1,
                        stages@.len() as int,
                    );
                }
                return Err(FreezeError::InvalidStageSelection { stage });
            }
            if contains_stage(stages.as_slice(), at, stage) {
                proof {
                    self.inner.lemma_selection_error_stays(
                        stages@,
                        at + 1,
                        stages@.len() as int,
                    );
                }
                return Err(FreezeError::DuplicateStageSelection { stage });
            }
            at = at + 1;
        }
        let count: usize = self.inner.layout.stage_count();
        let mut sorted: Vec<StageId> = Vec::new();
        let mut index: usize = 0;
        while index < count
            invariant
                index <= count,
                count == self.inner.layout.stage_count,
                count <= 64,
                sorted@ == self.inner.chosen(stages@, index as int),
            decreases count - index,
        {
            let stage = StageId::new(self.inner.cookie, index as u8);
            if contains_stage(stages.as_slice(), stages.len(), stage) {
                sorted.push(stage);
            }
            assert(stages@.take(stages@.len() as int) =~= stages@);
            index = index + 1;
        }
        proof {
            self.inner.lemma_chosen(stages@, count as int);
        }
        Ok(sorted)
    }

    /// Scans the calibration populations of some stages.
    pub fn scan_calibration(&self, stages: &[StageId]) -> (scans: Vec<StageScan>)
        requires
            self.wf(),
            all_owned(self.inner, stages@),
        ensures
            all_scanned(self.inner, stages@, scans@),
    {
        let mut scans: Vec<StageScan> = Vec::new();
        let mut at: usize = 0;
        while at < stages.len()
            invariant
                at <= stages@.len(),
                self.wf(),
                all_owned(self.inner, stages@),
                scans@.len() == at,
                forall|i: int|
                    0 <= i < at ==> stage_scanned(self.inner, stages@[i], #[trigger] scans@[i]),
            decreases stages@.len() - at,
        {
            let stage = stages[at];
            scans.push(
                StageScan {
                    stage,
                    local: self.scan_population(stage, CalibrationPopulation::Local),
                    cumulative_after: self.scan_population(
                        stage,
                        CalibrationPopulation::CumulativeAfter,
                    ),
                    previous_cumulative: self.scan_population(
                        stage,
                        CalibrationPopulation::PreviousCumulative,
                    ),
                },
            );
            at = at + 1;
        }
        scans
    }

    fn scan_population(&self, stage: StageId, population: CalibrationPopulation) -> (scan:
        PopulationScan)
        requires
            self.wf(),
            self.inner.owns(stage),
        ensures
            population_scanned(self.inner, stage, population, scan),
    {
        let distribution = population.distribution();
        let start: usize = self.inner.layout.calibration_index(stage.index(), distribution, 0);
        let ghost expected = self.inner.population_counts(stage, distribution);
        proof {
            self.inner.layout.lemma_offset_bounded(
                Cell::Calibration {
                    stage: stage.index as usize,
                    distribution,
                    bucket: (CALIBRATION_BUCKETS - 1) as usize,
                },
            );
        }
        let mut counts: Vec<u64> = Vec::new();
        let mut bucket: usize = 0;
        while bucket < CALIBRATION_BUCKETS
            invariant
                bucket <= CALIBRATION_BUCKETS,
                self.inner.counters@.len() == self.inner.layout.counter_count,
                start + CALIBRATION_BUCKETS <= self.inner.counters@.len(),
                expected == self.inner.counters@.subrange(
                    start as int,
                    start + CALIBRATION_BUCKETS,
                ),
                counts@ == expected.take(bucket as int),
            decreases CALIBRATION_BUCKETS - bucket,
        {
            counts.push(self.inner.counters[start + bucket]);
            bucket = bucket + 1;
            assert(counts@ =~= expected.take(bucket as int));
        }
        assert(counts@ =~= expected);
        let samples: u128 = sum(counts.as_slice());
        PopulationScan { population, counts, samples }
    }

    fn derive_stage_reports(&self, scans: &[StageScan], Ghost(stages): Ghost<Seq<StageId>>) -> (result:
        Result<Vec<StageCalibrationReport>, FreezeError>)
        requires
            self.wf(),
            all_scanned(self.inner, stages, scans@),
        ensures
            match self.inner.stage_reports(stages, stages.len() as int) {
                Ok(reports) => result matches Ok(derived) && derived@ == reports,
                Err(error) => result == Err::<Vec<StageCalibrationReport>, FreezeError>(error),
            },
    {
        let mut reports: Vec<StageCalibrationReport> = Vec::new();
        let mut at: usize = 0;
        while at < scans.len()
            invariant
                at <= scans@.len(),
                self.wf(),
                all_scanned(self.inner, stages, scans@),
                self.inner.stage_reports(stages, at as int) == Ok::<
                    Seq<StageCalibrationReport>,
                    FreezeError,
                >(reports@),
            decreases scans@.len() - at,
        {
            let scan = &scans[at];
            assert(stage_scanned(self.inner, stages[at as int], scans@[at as int]));
            match self.derive_stage_report(scan) {
                Ok(report) => {
                    reports.push(report);
                },
                Err(error) => {
                    proof {
                        self.inner.lemma_report_error_stays(
                            stages,
                            at + 1,
                            stages.len() as int,
                        );
                    }
                    return Err(error);
                },
            }
            at = at + 1;
        }
        Ok(reports)
    }

    fn derive_stage_report(&self, scan: &StageScan) -> (result: Result<
        StageCalibrationReport,
        FreezeError,
    >)
        requires
            self.wf(),
            stage_scanned(self.inner, scan.stage, *scan),
        ensures
            result == self.inner.stage_report(scan.stage),
    {
        let local = self.derive_population_report(scan.stage, &scan.local, false)?;
        let cumulative_after = self.derive_population_report(
            scan.stage,
            &scan.cumulative_after,
            false,
        )?;
        let previous_cumulative = self.derive_population_report(
            scan.stage,
            &scan.previous_cumulative,
            true,
        )?;
        Ok(
            StageCalibrationReport {
                stage: scan.stage,
                local,
                cumulative_after,
                previous_cumulative,
            },
        )
    }

    fn derive_population_report(&self, stage: StageId, scan: &PopulationScan, absent_allowed: bool) -> (result:
        Result<CalibrationPopulationReport, FreezeError>)
        requires
            self.wf(),
            population_scanned(self.inner, stage, scan.population, *scan),
            absent_allowed == (scan.population == CalibrationPopulation::PreviousCumulative),
        ensures
            result == self.inner.population_report(stage, scan.population),
    {
        if absent_allowed && scan.samples == 0 {
            return Ok(
                CalibrationPopulationReport {
                    population: scan.population,
                    samples: 0,
                    availability: CalibrationThresholdAvailability::AbsentNoPredecessor,
                    estimate: None,
                },
            );
        }
        let found = match estimate_quantile(
            scan.counts.as_slice(),
            self.inner.calibration_bounds.as_slice(),
            self.inner.tail_quantile,
        ) {
            Ok(Some(found)) => found,
            _ => {
                return Err(
                    FreezeError::CalibrationArithmeticOverflow {
                        stage,
                        population: scan.population,
                    },
                );
            },
        };
        let estimate = CalibrationEstimate::from(found);
        let availability = if estimate.terminal == CalibrationTerminal::Finite {
            CalibrationThresholdAvailability::Available
        } else {
            CalibrationThresholdAvailability::RangeInsufficient
        };
        Ok(
            CalibrationPopulationReport {
                population: scan.population,
                samples: scan.samples,
                availability,
                estimate: Some(estimate),
            },
        )
    }

    fn reset_online_counters(&mut self)
        requires
            old(self).wf(),
        ensures
            final(self).wf(),
            final(self).inner.same_but_counters(old(self).inner),
            forall|i: int|
                0 <= i < final(self).inner.counters@.len()
                    ==> #[trigger] final(self).inner.counters@[i] == (
                if old(self).inner.layout.online_start <= i
                    < old(self).inner.layout.completion_start {
                    0
                } else {
                    old(self).inner.counters@[i]
                }),
    {
        let start: usize = self.inner.layout.online_start();
        let end: usize = start + self.inner.layout.online_counter_count();
        let mut at: usize = start;
        while at < end
            invariant
                old(self).wf(),
                self.wf(),
                self.inner.same_but_counters(old(self).inner),
                start == old(self).inner.layout.online_start,
                end == old(self).inner.layout.completion_start,
                start <= at <= end,
                forall|i: int|
                    0 <= i < self.inner.counters@.len() ==> #[trigger] self.inner.counters@[i] == (
                    if start <= i < at {
                        0
                    } else {
                        old(self).inner.counters@[i]
                    }),
            decreases end - at,
        {
            self.inner.counters.set(at, 0);
            at = at + 1;
        }
    }

    fn publish(
        &mut self,
        reports: &[StageCalibrationReport],
        Ghost(stages): Ghost<Seq<StageId>>,
        Ghost(before): Ghost<Tracegrams>,
    )
        requires
            old(self).wf(),
            before.wf(),
            old(self).inner.same_but_counters(before.inner),
            old(self).inner.calibration_state == CalibrationState::Freezing,
            before.inner.stage_reports(stages, stages.len() as int) == Ok::<
                Seq<StageCalibrationReport>,
                FreezeError,
            >(reports@),
            terminal_before(reports@, reports@.len() as int) is None,
            all_owned(before.inner, stages),
            stages.no_duplicates(),
        ensures
            final(self).inner == (Inner {
                frozen_calibration: final(self).inner.frozen_calibration,
                ..old(self).inner
            }),
            publishes(before.inner, reports@, final(self).inner.frozen_calibration@),
            (Tracegrams {
                inner: Inner {
                    calibration_epoch: 1,
                    calibration_state: CalibrationState::Frozen,
                    ..final(self).inner
                },
            }).wf(),
    {
        proof {
            before.inner.lemma_reports_match_stages(stages, stages.len() as int);
        }
        let mut at: usize = 0;
        while at < reports.len()
            invariant
                at <= reports@.len(),
                reports@.len() == stages.len(),
                old(self).wf(),
                before.wf(),
                old(self).inner.same_but_counters(before.inner),
                all_owned(before.inner, stages),
                stages.no_duplicates(),
                old(self).inner.calibration_state == CalibrationState::Freezing,
                self.inner == (Inner {
                    frozen_calibration: self.inner.frozen_calibration,
                    ..old(self).inner
                }),
                self.inner.frozen_calibration@.len() == before.inner.layout.stage_count,
                terminal_before(reports@, reports@.len() as int) is None,
                forall|i: int|
                    0 <= i < reports@.len() ==> before.inner.stage_report(stages[i]) == Ok::<
                        StageCalibrationReport,
                        FreezeError,
                    >(#[trigger] reports@[i]) && reports@[i].stage == stages[i],
                forall|i: int|
                    0 <= i < at
                        ==> self.inner.frozen_calibration@[(#[trigger] reports@[i]).stage.index as int]
                        == Some(FrozenStageCalibration { report: reports@[i] }),
                forall|stage: int|
                    0 <= stage < self.inner.frozen_calibration@.len()
                        && #[trigger] self.inner.frozen_calibration@[stage] is Some
                        ==> exists|i: int|
                        0 <= i < at && (#[trigger] reports@[i]).stage.index == stage
                            && self.inner.frozen_calibration@[stage] == Some(
                            FrozenStageCalibration { report: reports@[i] },
                        ),
            decreases reports@.len() - at,
        {
            let report = reports[at];
            let ghost earlier = self.inner.frozen_calibration@;
            assert(before.inner.owns(stages[at as int]));
            let published = FrozenStageCalibration { report };
            self.inner.frozen_calibration.set(report.stage.index(), Some(published));
            proof {
                let index = report.stage.index as int;
                assert forall|i: int| 0 <= i < at + 1 implies self.inner.frozen_calibration@[(
                #[trigger] reports@[i]).stage.index as int] == Some(
                    FrozenStageCalibration { report: reports@[i] },
                ) by {
                    if i < at {
                        assert(before.inner.owns(stages[i]));
                        assert(stages[i] != stages[at as int]);
                    }
                }
                assert forall|stage: int|
                    0 <= stage < self.inner.frozen_calibration@.len()
                        && #[trigger] self.inner.frozen_calibration@[stage] is Some implies exists|
                    i: int,
                |
                    0 <= i < at + 1 && (#[trigger] reports@[i]).stage.index == stage
                        && self.inner.frozen_calibration@[stage] == Some(
                        FrozenStageCalibration { report: reports@[i] },
                    ) by {
                    if stage == index {
                        assert(reports@[at as int].stage.index == stage);
                    } else {
                        assert(earlier[stage] is Some);
                        let i = choose|i: int|
                            0 <= i < at && (#[trigger] reports@[i]).stage.index == stage
                                && earlier[stage] == Some(
                                FrozenStageCalibration { report: reports@[i] },
                            );
                        assert(reports@[i].stage.index == stage);
                    }
                }
            }
            at = at + 1;
        }
        proof {
            let frozen = self.inner.frozen_calibration@;
            assert forall|stage: int|
                0 <= stage < frozen.len() implies (#[trigger] frozen[stage] matches Some(published)
                ==> published.wf() && published.report.stage == (StageId {
                cookie: before.inner.cookie,
                index: stage as u8,
            })) by {
                if frozen[stage] is Some {
                    let i = choose|i: int|
                        0 <= i < at && (#[trigger] reports@[i]).stage.index == stage
                            && frozen[stage] == Some(
                            FrozenStageCalibration { report: reports@[i] },
                        );
                    assert(before.inner.owns(stages[i]));
                    lemma_no_terminal(reports@, reports@.len() as int, i);
                    before.inner.lemma_finite_report(stages[i]);
                }
            }
        }
    }

    /// Returns the report of the successful freeze, once there was one.
    pub fn frozen_calibration_report(&self) -> (report: Option<FreezeReport>)
        ensures
            match report {
                Some(report) => {
                    &&& self.inner.calibration_state == CalibrationState::Frozen
                    &&& report.epoch == Some(self.inner.calibration_epoch)
                    &&& report.stages@ == published_reports(
                        self.inner.frozen_calibration@,
                        self.inner.frozen_calibration@.len() as int,
                    )
                },
                None => self.inner.calibration_state != CalibrationState::Frozen,
            },
    {
        match self.inner.calibration_state {
            CalibrationState::Frozen => {},
            _ => {
                return None;
            },
        }
        let mut stages: Vec<StageCalibrationReport> = Vec::new();
        let mut at: usize = 0;
        while at < self.inner.frozen_calibration.len()
            invariant
                at <= self.inner.frozen_calibration@.len(),
                stages@ == published_reports(self.inner.frozen_calibration@, at as int),
            decreases self.inner.frozen_calibration@.len() - at,
        {
            if let Some(published) = self.inner.frozen_calibration[at] {
                stages.push(published.report());
            }
            at = at + 1;
        }
        Some(
            FreezeReport {
                epoch: Some(self.inner.calibration_epoch),
                consistency: CalibrationConsistency::Relaxed,
                stages,
            },
        )
    }
}

fn contains_stage(stages: &[StageId], end: usize, stage: StageId) -> (found: bool)
    requires
        end <= stages@.len(),
    ensures
        found == stages@.take(end as int).contains(stage),
{
    let mut at: usize = 0;
    while at < end
        invariant
            at <= end <= stages@.len(),
            !stages@.take(at as int).contains(stage),
        decreases end - at,
    {
        if stages[at] == stage {
            assert(stages@.take(end as int)[at as int] == stage);
            return true;
        }
        assert(stages@.take(at + 1) =~= stages@.take(at as int).push(stages@[at as int]));
        assert(!stages@.take(at + 1).contains(stage));
        at = at + 1;
    }
    false
}

/// Readiness from scans is the readiness of the scanned recorder.
proof fn lemma_readiness(
    inner: Inner,
    stages: Seq<StageId>,
    scans: Seq<StageScan>,
    minimum: u64,
    readiness: CalibrationReadiness,
)
    requires
        all_scanned(inner, stages, scans),
        readiness.stages@.len() == scans.len(),
        forall|i: int|
            0 <= i < scans.len() ==> #[trigger] readiness.stages@[i] == scan_readiness(
                scans[i],
                minimum,
            ),
    ensures
        readiness.stages@ == inner.readiness_entries(stages, minimum),
        readiness.ready() == inner.stages_ready(stages, minimum),
{
    assert forall|i: int| 0 <= i < stages.len() implies #[trigger] readiness.stages@[i]
        == inner.stage_readiness(stages[i], minimum) by {
        assert(stage_scanned(inner, stages[i], scans[i]));
    }
    assert(readiness.stages@ =~= inner.readiness_entries(stages, minimum));
    if readiness.ready() {
        assert forall|i: int| 0 <= i < stages.len() implies inner.stage_readiness(
            #[trigger] stages[i],
            minimum,
        ).ready() by {
            assert(readiness.stages@[i].ready());
        }
    }
    if inner.stages_ready(stages, minimum) {
        assert forall|i: int| 0 <= i < readiness.stages@.len() implies (
        #[trigger] readiness.stages@[i]).ready() by {
            assert(inner.stage_readiness(stages[i], minimum).ready());
        }
    }
}

/// Claiming a freeze changes nothing that the freeze reads.
proof fn lemma_state_is_irrelevant(
    before: Inner,
    claimed: Inner,
    stages: Seq<StageId>,
    minimum: u64,
)
    requires
        claimed == (Inner { calibration_state: CalibrationState::Freezing, ..before }),
    ensures
        claimed.stages_ready(stages, minimum) == before.stages_ready(stages, minimum),
        claimed.readiness_entries(stages, minimum) == before.readiness_entries(stages, minimum),
        claimed.stage_reports(stages, stages.len() as int) == before.stage_reports(
            stages,
            stages.len() as int,
        ),
{
    assert forall|stage: StageId| claimed.stage_readiness(stage, minimum)
        == before.stage_readiness(stage, minimum) by {}
    assert(claimed.readiness_entries(stages, minimum) =~= before.readiness_entries(
        stages,
        minimum,
    ));
    if claimed.stages_ready(stages, minimum) {
        assert forall|i: int| 0 <= i < stages.len() implies before.stage_readiness(
            #[trigger] stages[i],
            minimum,
        ).ready() by {
            assert(claimed.stage_readiness(stages[i], minimum).ready());
        }
    }
    if before.stages_ready(stages, minimum) {
        assert forall|i: int| 0 <= i < stages.len() implies claimed.stage_readiness(
            #[trigger] stages[i],
            minimum,
        ).ready() by {
            assert(before.stage_readiness(stages[i], minimum).ready());
        }
    }
    lemma_state_is_irrelevant_to_reports(before, claimed, stages, stages.len() as int);
}

proof fn lemma_state_is_irrelevant_to_reports(
    before: Inner,
    claimed: Inner,
    stages: Seq<StageId>,
    end: int,
)
    requires
        claimed == (Inner { calibration_state: CalibrationState::Freezing, ..before }),
        0 <= end,
    ensures
        claimed.stage_reports(stages, end) == before.stage_reports(stages, end),
    decreases end,
{
    if end > 0 {
        lemma_state_is_irrelevant_to_reports(before, claimed, stages, end - 1);
        assert(claimed.stage_report(stages[end - 1]) == before.stage_report(stages[end - 1]));
    }
}

/// Without a terminal estimate among some reports, no one of them has one.
proof fn lemma_no_terminal(reports: Seq<StageCalibrationReport>, end: int, at: int)
    requires
        0 <= at < end,
        terminal_before(reports, end) is None,
    ensures
        stage_terminal(reports[at]) is None,
    decreases end,
{
    if at < end - 1 {
        lemma_no_terminal(reports, end - 1, at);
    }
}

/// A finite estimate on the calibration grid has a representative.
proof fn lemma_finite_estimate(counts: Seq<u64>, bits: u64)
    requires
        estimate(counts, calibration_grid(), bits) matches Ok(Some(found))
            && found.terminal is Finite,
    ensures
        estimate(counts, calibration_grid(), bits)->Ok_0->0.value is Some,
{
    law_grids_increase();
    lemma_calibration_bounds_are_limited();
    law_rank_is_within_the_samples(total(counts), bits);
    law_selected_bucket_is_the_first(counts, rank_of(total(counts), bits));
    let found = estimate(counts, calibration_grid(), bits)->Ok_0->0;
    let bucket = found.selection.bucket as int;
    let lower = calibration_grid()[bucket - 1];
    let upper = calibration_grid()[bucket];
    assert(lower * upper <= LARGEST_BOUND * LARGEST_BOUND) by (nonlinear_arith)
        requires
            lower <= LARGEST_BOUND,
            upper <= LARGEST_BOUND,
    ;
}

impl Inner {
    proof fn lemma_selection_error_stays(self, stages: Seq<StageId>, from: int, end: int)
        requires
            0 <= from <= end,
            self.selection_error(stages, from) is Some,
        ensures
            self.selection_error(stages, end) == self.selection_error(stages, from),
        decreases end - from,
    {
        if from < end {
            self.lemma_selection_error_stays(stages, from, end - 1);
        }
    }

    proof fn lemma_report_error_stays(self, stages: Seq<StageId>, from: int, end: int)
        requires
            0 <= from <= end,
            self.stage_reports(stages, from) is Err,
        ensures
            self.stage_reports(stages, end) == self.stage_reports(stages, from),
        decreases end - from,
    {
        if from < end {
            self.lemma_report_error_stays(stages, from, end - 1);
        }
    }

    /// The chosen stages are the requested ones, each once, in registration order.
    pub proof fn lemma_chosen(self, stages: Seq<StageId>, end: int)
        requires
            0 <= end <= self.layout.stage_count <= 64,
        ensures
            all_owned(self, self.chosen(stages, end)),
            self.chosen(stages, end).no_duplicates(),
            forall|i: int, j: int|
                0 <= i < j < self.chosen(stages, end).len() ==> (#[trigger] self.chosen(
                    stages,
                    end,
                )[i]).index < (#[trigger] self.chosen(stages, end)[j]).index,
            forall|i: int|
                0 <= i < self.chosen(stages, end).len() ==> (#[trigger] self.chosen(
                    stages,
                    end,
                )[i]).index < end,
            forall|stage: StageId| #[trigger]
                self.chosen(stages, end).contains(stage) <==> stage.cookie == self.cookie
                    && stage.index < end && stages.contains(stage),
        decreases end,
    {
        if end > 0 {
            self.lemma_chosen(stages, end - 1);
            let rest = self.chosen(stages, end - 1);
            let all = self.chosen(stages, end);
            let next = StageId { cookie: self.cookie, index: (end - 1) as u8 };
            assert forall|stage: StageId| #[trigger] all.contains(stage) <==> stage.cookie
                == self.cookie && stage.index < end && stages.contains(stage) by {
                assert(rest.contains(stage) <==> stage.cookie == self.cookie && stage.index < end
                    - 1 && stages.contains(stage));
                if stages.contains(next) {
                    assert(all == rest.push(next));
                    if rest.contains(stage) {
                        let i = choose|i: int| 0 <= i < rest.len() && rest[i] == stage;
                        assert(all[i] == stage);
                    }
                    if stage == next {
                        assert(all[rest.len() as int] == stage);
                    }
                    if all.contains(stage) {
                        let i = choose|i: int| 0 <= i < all.len() && all[i] == stage;
                        if i < rest.len() {
                            assert(rest[i] == stage);
                        }
                    }
                }
            }
        }
    }

    /// Reports stand in the order of their stages.
    pub proof fn lemma_reports_match_stages(self, stages: Seq<StageId>, end: int)
        requires
            0 <= end <= stages.len(),
            self.stage_reports(stages, end) is Ok,
        ensures
            self.stage_reports(stages, end)->Ok_0.len() == end,
            forall|i: int|
                0 <= i < end ==> self.stage_report(stages[i]) == Ok::<
                    StageCalibrationReport,
                    FreezeError,
                >(#[trigger] self.stage_reports(stages, end)->Ok_0[i]) && self.stage_reports(
                    stages,
                    end,
                )->Ok_0[i].stage == stages[i],
        decreases end,
    {
        if end > 0 {
            self.lemma_reports_match_stages(stages, end - 1);
            let rest = self.stage_reports(stages, end - 1)->Ok_0;
            let all = self.stage_reports(stages, end)->Ok_0;
            assert forall|i: int| 0 <= i < end implies self.stage_report(stages[i]) == Ok::<
                StageCalibrationReport,
                FreezeError,
            >(#[trigger] all[i]) && all[i].stage == stages[i] by {
                if i < end - 1 {
                    assert(all[i] == rest[i]);
                }
            }
        }
    }

    /// A report without terminal estimates has the required thresholds.
    proof fn lemma_finite_report(self, stage: StageId)
        requires
            self.stage_report(stage) matches Ok(report) && stage_terminal(report) is None,
        ensures
            threshold_of(self.stage_report(stage)->Ok_0.local) is Some,
            threshold_of(self.stage_report(stage)->Ok_0.cumulative_after) is Some,
    {
        let report = self.stage_report(stage)->Ok_0;
        assert(report.local.estimate is Some);
        assert(report.cumulative_after.estimate is Some);
        lemma_finite_estimate(
            self.population_counts(stage, CalibrationDistribution::Local),
            self.tail_quantile,
        );
        lemma_finite_estimate(
            self.population_counts(stage, CalibrationDistribution::CumulativeAfter),
            self.tail_quantile,
        );
    }
}

} // verus!
