//! Diagnosis of tail propagation from both score paths.

use vstd::prelude::*;

use crate::binary64::{
    equal_numbers, law_equal_thresholds_are_reached_alike, reaches, reaches_threshold, same_number,
};
use crate::calibration::find_report;
use crate::init::StageId;
use crate::ratio::Ratio;
use crate::scores::{
    calibrated_scores_of, derive_calibrated_online_scores, derive_matrix_scores, matrix_scores_of,
    CalibratedOnlineScores, MatrixScores,
};
use crate::snapshot::{DeltaSnapshot, OnlineDeltaAvailability, Snapshot};

verus! {

/// Binary64 pattern of 0.70.
pub const EXPERIMENTAL_ONSET: u64 = 0x3fe6_6666_6666_6666;

/// Binary64 pattern of 10.
pub const EXPERIMENTAL_LIFT: u64 = 0x4024_0000_0000_0000;

/// Binary64 pattern of 0.80.
pub const EXPERIMENTAL_CARRY: u64 = 0x3fe9_9999_9999_999a;

/// Named classification thresholds, each given by its binary64 pattern. There
/// is deliberately no default policy. When multiple thresholds pass, onset takes
/// precedence over amplifier, then carry-through.
///
/// Policies are equal when their thresholds are equal numbers.
#[derive(Clone, Copy, Debug)]
pub struct DiagnoseConfig {
    /// Minimum `tail_onset` score for [`Classification::Onset`].
    pub onset_threshold: u64,
    /// Minimum `amplification_lift` for [`Classification::Amplifier`].
    pub amplification_lift_threshold: u64,
    /// Minimum `carry_through` score for [`Classification::CarryThrough`].
    pub carry_through_threshold: u64,
}

impl PartialEq for DiagnoseConfig {
    fn eq(&self, other: &Self) -> (equal: bool) {
        equal_numbers(self.onset_threshold, other.onset_threshold) && equal_numbers(
            self.amplification_lift_threshold,
            other.amplification_lift_threshold,
        ) && equal_numbers(self.carry_through_threshold, other.carry_through_threshold)
    }
}

impl vstd::std_specs::cmp::PartialEqSpecImpl for DiagnoseConfig {
    open spec fn obeys_eq_spec() -> bool {
        true
    }

    open spec fn eq_spec(&self, other: &Self) -> bool {
        same_number(self.onset_threshold, other.onset_threshold) && same_number(
            self.amplification_lift_threshold,
            other.amplification_lift_threshold,
        ) && same_number(self.carry_through_threshold, other.carry_through_threshold)
    }
}

/// The synthetic policy, which is not for production.
pub open spec fn experimental_policy() -> DiagnoseConfig {
    DiagnoseConfig {
        onset_threshold: EXPERIMENTAL_ONSET,
        amplification_lift_threshold: EXPERIMENTAL_LIFT,
        carry_through_threshold: EXPERIMENTAL_CARRY,
    }
}

impl DiagnoseConfig {
    /// Returns the synthetic policy; these values are not production defaults.
    pub fn experimental_defaults() -> (config: Self)
        ensures
            config == experimental_policy(),
    {
        DiagnoseConfig {
            onset_threshold: EXPERIMENTAL_ONSET,
            amplification_lift_threshold: EXPERIMENTAL_LIFT,
            carry_through_threshold: EXPERIMENTAL_CARRY,
        }
    }

    /// Returns whether this is the synthetic policy, bit for bit.
    pub fn is_experimental_defaults(self) -> (experimental: bool)
        ensures
            experimental == (self == experimental_policy()),
    {
        self.onset_threshold == EXPERIMENTAL_ONSET && self.amplification_lift_threshold
            == EXPERIMENTAL_LIFT && self.carry_through_threshold == EXPERIMENTAL_CARRY
    }
}

/// Secondary convenience label applied in onset, amplifier, carry-through
/// precedence; the first score meeting its threshold wins.
#[derive(Clone, Copy, Debug, PartialEq, Eq, Structural)]
#[non_exhaustive]
pub enum Classification {
    /// The tail-onset score met its threshold.
    Onset,
    /// The amplification-lift score met its threshold; tail onset did not.
    Amplifier,
    /// The carry-through score met its threshold; higher-precedence scores did not.
    CarryThrough,
    /// No available score met its classification threshold.
    Inconclusive,
}

/// A typed failure to derive calibrated-online diagnosis.
#[derive(Clone, Copy, Debug, PartialEq, Eq, Structural)]
#[non_exhaustive]
pub enum DiagnoseError {
    /// Calibration has not frozen for the requested stage.
    NotCalibrated {
        /// Requested stage.
        stage: StageId,
    },
    /// A delta spans online epochs whose truth-table counters are incomparable.
    EpochMismatch {
        /// Earlier endpoint epoch.
        earlier: u16,
        /// Later endpoint epoch.
        later: u16,
    },
}

/// Whether a score is available and its binary64 value reaches a threshold.
pub open spec fn meets(value: Option<Ratio>, threshold: u64) -> bool {
    value matches Some(ratio) && reaches(ratio, threshold)
}

/// Returns whether a score is available and its binary64 value reaches a
/// threshold.
pub fn meets_threshold(value: Option<Ratio>, threshold: u64) -> (met: bool)
    ensures
        met == meets(value, threshold),
{
    match value {
        Some(ratio) => reaches_threshold(ratio, threshold),
        None => false,
    }
}

/// The label of three scores under a policy.
pub open spec fn label_of(
    tail_onset: Option<Ratio>,
    amplification_lift: Option<Ratio>,
    carry_through: Option<Ratio>,
    config: DiagnoseConfig,
) -> Classification {
    if meets(tail_onset, config.onset_threshold) {
        Classification::Onset
    } else if meets(amplification_lift, config.amplification_lift_threshold) {
        Classification::Amplifier
    } else if meets(carry_through, config.carry_through_threshold) {
        Classification::CarryThrough
    } else {
        Classification::Inconclusive
    }
}

/// Labels three scores under a policy.
pub fn classify_values(
    tail_onset: Option<Ratio>,
    amplification_lift: Option<Ratio>,
    carry_through: Option<Ratio>,
    config: DiagnoseConfig,
) -> (label: Classification)
    ensures
        label == label_of(tail_onset, amplification_lift, carry_through, config),
{
    if meets_threshold(tail_onset, config.onset_threshold) {
        Classification::Onset
    } else if meets_threshold(amplification_lift, config.amplification_lift_threshold) {
        Classification::Amplifier
    } else if meets_threshold(carry_through, config.carry_through_threshold) {
        Classification::CarryThrough
    } else {
        Classification::Inconclusive
    }
}

/// Labels follow their precedence: each label is given exactly when its score
/// is available and meets its threshold while no score before it does.
pub proof fn law_labels_follow_their_precedence(
    tail_onset: Option<Ratio>,
    amplification_lift: Option<Ratio>,
    carry_through: Option<Ratio>,
    config: DiagnoseConfig,
)
    ensures
        ({
            let label = label_of(tail_onset, amplification_lift, carry_through, config);
            let onset = meets(tail_onset, config.onset_threshold);
            let lift = meets(amplification_lift, config.amplification_lift_threshold);
            let carry = meets(carry_through, config.carry_through_threshold);
            &&& label == Classification::Onset <==> onset
            &&& label == Classification::Amplifier <==> !onset && lift
            &&& label == Classification::CarryThrough <==> !onset && !lift && carry
            &&& label == Classification::Inconclusive <==> !onset && !lift && !carry
        }),
        tail_onset is None && amplification_lift is None && carry_through is None ==> label_of(
            tail_onset,
            amplification_lift,
            carry_through,
            config,
        ) == Classification::Inconclusive,
{
}

/// Equal policies give equal labels.
pub proof fn law_equal_policies_label_alike(
    tail_onset: Option<Ratio>,
    amplification_lift: Option<Ratio>,
    carry_through: Option<Ratio>,
    first: DiagnoseConfig,
    second: DiagnoseConfig,
)
    requires
        same_number(first.onset_threshold, second.onset_threshold),
        same_number(first.amplification_lift_threshold, second.amplification_lift_threshold),
        same_number(first.carry_through_threshold, second.carry_through_threshold),
    ensures
        label_of(tail_onset, amplification_lift, carry_through, first) == label_of(
            tail_onset,
            amplification_lift,
            carry_through,
            second,
        ),
{
    if let Some(ratio) = tail_onset {
        law_equal_thresholds_are_reached_alike(
            ratio,
            first.onset_threshold,
            second.onset_threshold,
        );
    }
    if let Some(ratio) = amplification_lift {
        law_equal_thresholds_are_reached_alike(
            ratio,
            first.amplification_lift_threshold,
            second.amplification_lift_threshold,
        );
    }
    if let Some(ratio) = carry_through {
        law_equal_thresholds_are_reached_alike(
            ratio,
            first.carry_through_threshold,
            second.carry_through_threshold,
        );
    }
}

impl MatrixScores {
    /// The label of these scores under a policy.
    pub open spec fn label(self, config: DiagnoseConfig) -> Classification {
        label_of(
            self.tail_onset.value,
            self.amplification_lift.value,
            self.carry_through.value,
            config,
        )
    }

    /// Applies an explicit secondary classification policy to these scores.
    pub fn classification(&self, config: &DiagnoseConfig) -> (label: Classification)
        ensures
            label == self.label(*config),
    {
        classify_values(
            self.tail_onset.value,
            self.amplification_lift.value,
            self.carry_through.value,
            *config,
        )
    }
}

impl CalibratedOnlineScores {
    /// The label of these scores under a policy.
    pub open spec fn label(self, config: DiagnoseConfig) -> Classification {
        label_of(
            self.tail_onset.value,
            self.amplification_lift.value,
            self.carry_through.value,
            config,
        )
    }

    /// Applies an explicit secondary classification policy to these scores.
    pub fn classification(&self, config: &DiagnoseConfig) -> (label: Classification)
        ensures
            label == self.label(*config),
    {
        classify_values(
            self.tail_onset.value,
            self.amplification_lift.value,
            self.carry_through.value,
            *config,
        )
    }
}

/// Numeric matrix and calibrated paths plus their secondary stage classification.
#[derive(Clone, Debug, PartialEq)]
pub struct DiagnosisReport {
    /// Registered name of the stage.
    pub stage_name: String,
    /// Caller-selected classification policy.
    pub config: DiagnoseConfig,
    /// Predecessor-only known-drift matrix path.
    pub matrix_derived: MatrixScores,
    /// Exact frozen-threshold online path.
    pub calibrated_online: CalibratedOnlineScores,
    /// Label of the matrix path.
    pub matrix_classification: Classification,
    /// Label of the calibrated-online path.
    pub classification: Classification,
}

impl DiagnosisReport {
    /// Returns the diagnosed destination stage.
    pub fn stage(&self) -> (stage: StageId)
        ensures
            stage == self.calibrated_online.stage,
    {
        self.calibrated_online.stage
    }

    /// Returns its registered read-plane name.
    pub fn stage_name(&self) -> (name: &str)
        ensures
            name@ == self.stage_name@,
    {
        self.stage_name.as_str()
    }

    /// Returns the caller-selected classification policy.
    pub fn config(&self) -> (config: DiagnoseConfig)
        ensures
            config == self.config,
    {
        self.config
    }

    /// Returns the predecessor-only known-drift matrix path.
    pub fn matrix_derived(&self) -> (scores: &MatrixScores)
        ensures
            *scores == self.matrix_derived,
    {
        &self.matrix_derived
    }

    /// Returns the exact frozen-threshold online path.
    pub fn calibrated_online(&self) -> (scores: &CalibratedOnlineScores)
        ensures
            *scores == self.calibrated_online,
    {
        &self.calibrated_online
    }

    /// Returns the matrix path's secondary convenience label.
    pub fn matrix_classification(&self) -> (label: Classification)
        ensures
            label == self.matrix_classification,
    {
        self.matrix_classification
    }

    /// Returns the calibrated-online path's secondary convenience label.
    pub fn classification(&self) -> (label: Classification)
        ensures
            label == self.classification,
    {
        self.classification
    }
}

/// What a diagnosis returns from its parts: an online error first, then the
/// report with a label for each path.
pub open spec fn diagnosis_of(
    name: Option<Seq<char>>,
    matrix: Option<MatrixScores>,
    online: Result<CalibratedOnlineScores, DiagnoseError>,
    config: DiagnoseConfig,
    stage: StageId,
    result: Result<DiagnosisReport, DiagnoseError>,
) -> bool {
    match (online, matrix, name) {
        (Err(error), _, _) => result == Err::<DiagnosisReport, DiagnoseError>(error),
        (Ok(online), Some(matrix), Some(name)) => {
            &&& result matches Ok(report)
            &&& report.stage_name@ == name
            &&& report.config == config
            &&& report.matrix_derived == matrix
            &&& report.calibrated_online == online
            &&& report.matrix_classification == matrix.label(config)
            &&& report.classification == online.label(config)
        },
        _ => result == Err::<DiagnosisReport, DiagnoseError>(
            DiagnoseError::NotCalibrated { stage },
        ),
    }
}

/// The text of an optional name.
pub open spec fn optional_text(name: Option<&str>) -> Option<Seq<char>> {
    match name {
        Some(name) => Some(name@),
        None => None,
    }
}

/// Builds a diagnosis from its parts.
pub fn build_diagnosis(
    stage_name: Option<&str>,
    matrix_derived: Option<MatrixScores>,
    calibrated_online: Result<CalibratedOnlineScores, DiagnoseError>,
    config: DiagnoseConfig,
    stage: StageId,
) -> (result: Result<DiagnosisReport, DiagnoseError>)
    ensures
        diagnosis_of(
            optional_text(stage_name),
            matrix_derived,
            calibrated_online,
            config,
            stage,
            result,
        ),
{
    let calibrated_online = calibrated_online?;
    let matrix_derived = match matrix_derived {
        Some(scores) => scores,
        None => {
            return Err(DiagnoseError::NotCalibrated { stage });
        },
    };
    let stage_name = match stage_name {
        Some(name) => name.to_owned(),
        None => {
            return Err(DiagnoseError::NotCalibrated { stage });
        },
    };
    let matrix_classification = matrix_derived.classification(&config);
    let classification = calibrated_online.classification(&config);
    Ok(
        DiagnosisReport {
            stage_name,
            config,
            matrix_derived,
            calibrated_online,
            matrix_classification,
            classification,
        },
    )
}

impl Snapshot {
    /// The matrix-derived scores of a stage.
    pub open spec fn matrix_scores_of_stage(self, stage: StageId) -> Option<MatrixScores> {
        if !self.owns(stage) {
            None
        } else {
            matrix_scores_of(
                stage,
                self.consistency,
                self.tail_quantile,
                self.cause_of(stage),
                if stage.index == 0 {
                    None
                } else {
                    Some(self.incoming_of(stage))
                },
            )
        }
    }

    /// The calibrated-online scores of a stage, which needs frozen thresholds.
    pub open spec fn online_scores_of_stage(self, stage: StageId) -> Result<
        CalibratedOnlineScores,
        DiagnoseError,
    > {
        let missing = Err(DiagnoseError::NotCalibrated { stage });
        match self.calibration_report {
            None => missing,
            Some(report) => match find_report(report.stages@, stage, report.stages@.len() as int) {
                None => missing,
                Some(calibration) => if !self.owns(stage) {
                    missing
                } else {
                    match calibrated_scores_of(
                        stage,
                        self.consistency,
                        self.calibration_epoch,
                        calibration,
                        self.online_of(stage),
                    ) {
                        Some(scores) => Ok(scores),
                        None => missing,
                    }
                },
            },
        }
    }

    /// The registered name of a stage.
    pub open spec fn name_of(self, stage: StageId) -> Option<Seq<char>> {
        if self.owns(stage) {
            Some(self.stages@[stage.index as int].name@)
        } else {
            None
        }
    }

    /// Purely derives predecessor-only approximate scores from matrix cells.
    pub fn matrix_scores(&self, stage: StageId) -> (scores: Option<MatrixScores>)
        requires
            self.wf(),
        ensures
            scores == self.matrix_scores_of_stage(stage),
            scores is Some == self.owns(stage),
    {
        let cause = self.cause_counts(stage)?;
        let incoming = self.incoming_counts(stage);
        proof {
            self.lemma_matrix_shapes(stage);
        }
        derive_matrix_scores(stage, self.consistency(), self.tail_quantile(), cause, incoming)
    }

    /// Purely derives exact scores from frozen online truth-table counters.
    pub fn calibrated_online_scores(&self, stage: StageId) -> (result: Result<
        CalibratedOnlineScores,
        DiagnoseError,
    >)
        requires
            self.wf(),
        ensures
            result == self.online_scores_of_stage(stage),
    {
        let missing = DiagnoseError::NotCalibrated { stage };
        let calibration = match self.calibration_report() {
            None => {
                return Err(missing);
            },
            Some(report) => match report.stage(stage) {
                None => {
                    return Err(missing);
                },
                Some(calibration) => calibration,
            },
        };
        let counts = match self.online_counts(stage) {
            None => {
                return Err(missing);
            },
            Some(counts) => counts,
        };
        match derive_calibrated_online_scores(
            stage,
            self.consistency(),
            self.calibration_epoch(),
            &calibration,
            counts,
        ) {
            Some(scores) => Ok(scores),
            None => Err(missing),
        }
    }

    /// Purely diagnoses one calibrated stage while retaining both score paths.
    pub fn diagnose(
        &self,
        stage: StageId,
        config: &DiagnoseConfig,
    ) -> (result: Result<DiagnosisReport, DiagnoseError>)
        requires
            self.wf(),
        ensures
            diagnosis_of(
                self.name_of(stage),
                self.matrix_scores_of_stage(stage),
                self.online_scores_of_stage(stage),
                *config,
                stage,
                result,
            ),
    {
        build_diagnosis(
            self.stage_name(stage),
            self.matrix_scores(stage),
            self.calibrated_online_scores(stage),
            *config,
            stage,
        )
    }

    /// The matrices of a snapshot have the shape of matrices.
    proof fn lemma_matrix_shapes(self, stage: StageId)
        requires
            self.wf(),
            self.owns(stage),
        ensures
            self.cause_of(stage).len() == crate::matrix::MATRIX_CELLS,
            stage.index > 0 ==> self.incoming_of(stage).len() == crate::matrix::MATRIX_CELLS,
    {
    }
}

impl DeltaSnapshot {
    /// The calibrated-online scores of a stage in this window.
    pub open spec fn online_scores_of_stage(self, stage: StageId) -> Result<
        CalibratedOnlineScores,
        DiagnoseError,
    > {
        match self.online_delta_availability {
            OnlineDeltaAvailability::SameEpoch { .. } => self.snapshot.online_scores_of_stage(
                stage,
            ),
            OnlineDeltaAvailability::EpochMismatch { earlier, later } => Err(
                DiagnoseError::EpochMismatch { earlier, later },
            ),
        }
    }

    /// Purely derives predecessor-only approximate scores for this window.
    pub fn matrix_scores(&self, stage: StageId) -> (scores: Option<MatrixScores>)
        requires
            self.snapshot.wf(),
        ensures
            scores == self.snapshot.matrix_scores_of_stage(stage),
            scores is Some == self.snapshot.owns(stage),
    {
        self.snapshot.matrix_scores(stage)
    }

    /// Purely derives exact online scores for a same-epoch window.
    pub fn calibrated_online_scores(&self, stage: StageId) -> (result: Result<
        CalibratedOnlineScores,
        DiagnoseError,
    >)
        requires
            self.snapshot.wf(),
        ensures
            result == self.online_scores_of_stage(stage),
    {
        match self.online_delta_availability {
            OnlineDeltaAvailability::SameEpoch { .. } => {
                self.snapshot.calibrated_online_scores(stage)
            },
            OnlineDeltaAvailability::EpochMismatch { earlier, later } => Err(
                DiagnoseError::EpochMismatch { earlier, later },
            ),
        }
    }

    /// Purely diagnoses one calibrated same-epoch window with both score paths.
    pub fn diagnose(
        &self,
        stage: StageId,
        config: &DiagnoseConfig,
    ) -> (result: Result<DiagnosisReport, DiagnoseError>)
        requires
            self.snapshot.wf(),
        ensures
            diagnosis_of(
                self.snapshot.name_of(stage),
                self.snapshot.matrix_scores_of_stage(stage),
                self.online_scores_of_stage(stage),
                *config,
                stage,
                result,
            ),
    {
        build_diagnosis(
            self.stage_name(stage),
            self.matrix_scores(stage),
            self.calibrated_online_scores(stage),
            *config,
            stage,
        )
    }
}

} // verus!
