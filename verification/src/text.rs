//! Texts of errors, labels and reports.
//!
//! Numbers that are not integers come in as finished texts.

use vstd::prelude::*;
use vstd::string::StringExecFns;

use crate::calibration::{CalibrationTerminal, FreezeError};
use crate::diagnose::{
    experimental_policy, Classification, DiagnoseConfig, DiagnoseError, DiagnosisReport,
};
use crate::init::{InitError, StageId};
use crate::scores::{BucketThreshold, CalibratedOnlineScores, MatrixScores, ScoreStatus};
use crate::snapshot::{CalibrationPopulation, DeltaError};

verus! {

/// The text of a decimal digit.
pub open spec fn digit_text(digit: nat) -> Seq<char> {
    if digit == 0 {
        "0"@
    } else if digit == 1 {
        "1"@
    } else if digit == 2 {
        "2"@
    } else if digit == 3 {
        "3"@
    } else if digit == 4 {
        "4"@
    } else if digit == 5 {
        "5"@
    } else if digit == 6 {
        "6"@
    } else if digit == 7 {
        "7"@
    } else if digit == 8 {
        "8"@
    } else {
        "9"@
    }
}

/// The decimal text of a number.
pub open spec fn decimal(number: nat) -> Seq<char>
    decreases number,
{
    if number < 10 {
        digit_text(number)
    } else {
        decimal(number / 10) + digit_text(number % 10)
    }
}

fn push_digit(out: &mut String, digit: u128)
    requires
        digit < 10,
    ensures
        final(out)@ == old(out)@ + digit_text(digit as nat),
{
    if digit == 0 {
        out.append("0");
    } else if digit == 1 {
        out.append("1");
    } else if digit == 2 {
        out.append("2");
    } else if digit == 3 {
        out.append("3");
    } else if digit == 4 {
        out.append("4");
    } else if digit == 5 {
        out.append("5");
    } else if digit == 6 {
        out.append("6");
    } else if digit == 7 {
        out.append("7");
    } else if digit == 8 {
        out.append("8");
    } else {
        out.append("9");
    }
}

/// Appends the decimal text of a number.
pub fn push_decimal(out: &mut String, number: u128)
    ensures
        final(out)@ == old(out)@ + decimal(number as nat),
    decreases number,
{
    if number >= 10 {
        push_decimal(out, number / 10);
    }
    push_digit(out, number % 10);
    assert(out@ =~= old(out)@ + decimal(number as nat));
}

/// The name of a calibration population.
pub open spec fn population_text(value: CalibrationPopulation) -> Seq<char> {
    match value {
        CalibrationPopulation::Local => "Local"@,
        CalibrationPopulation::CumulativeAfter => "CumulativeAfter"@,
        CalibrationPopulation::PreviousCumulative => "PreviousCumulative"@,
    }
}

/// Returns the name of a calibration population.
pub fn population_name(value: CalibrationPopulation) -> (name: &'static str)
    ensures
        name@ == population_text(value),
{
    match value {
        CalibrationPopulation::Local => "Local",
        CalibrationPopulation::CumulativeAfter => "CumulativeAfter",
        CalibrationPopulation::PreviousCumulative => "PreviousCumulative",
    }
}

/// The name of a terminal status.
pub open spec fn terminal_text(value: CalibrationTerminal) -> Seq<char> {
    match value {
        CalibrationTerminal::Lower => "Lower"@,
        CalibrationTerminal::Finite => "Finite"@,
        CalibrationTerminal::Upper => "Upper"@,
    }
}

/// Returns the name of a terminal status.
pub fn terminal_name(value: CalibrationTerminal) -> (name: &'static str)
    ensures
        name@ == terminal_text(value),
{
    match value {
        CalibrationTerminal::Lower => "Lower",
        CalibrationTerminal::Finite => "Finite",
        CalibrationTerminal::Upper => "Upper",
    }
}

/// The words for a score status.
pub open spec fn status_text(value: ScoreStatus) -> Seq<char> {
    match value {
        ScoreStatus::Available => "available"@,
        ScoreStatus::NoPredecessorPopulation => "no predecessor population"@,
        ScoreStatus::ZeroDenominator => "zero denominator"@,
        ScoreStatus::InconsistentSnapshot => "inconsistent relaxed snapshot"@,
        ScoreStatus::ArithmeticOverflow => "arithmetic overflow"@,
    }
}

/// Returns the words for a score status.
pub fn score_status_name(value: ScoreStatus) -> (name: &'static str)
    ensures
        name@ == status_text(value),
{
    match value {
        ScoreStatus::Available => "available",
        ScoreStatus::NoPredecessorPopulation => "no predecessor population",
        ScoreStatus::ZeroDenominator => "zero denominator",
        ScoreStatus::InconsistentSnapshot => "inconsistent relaxed snapshot",
        ScoreStatus::ArithmeticOverflow => "arithmetic overflow",
    }
}

/// The word for a classification.
pub open spec fn classification_text(value: Classification) -> Seq<char> {
    match value {
        Classification::Onset => "onset"@,
        Classification::Amplifier => "amplifier"@,
        Classification::CarryThrough => "carry-through"@,
        Classification::Inconclusive => "inconclusive"@,
    }
}

/// Returns the word for a classification.
pub fn classification_name(value: Classification) -> (name: &'static str)
    ensures
        name@ == classification_text(value),
{
    match value {
        Classification::Onset => "onset",
        Classification::Amplifier => "amplifier",
        Classification::CarryThrough => "carry-through",
        Classification::Inconclusive => "inconclusive",
    }
}

impl Classification {
    /// Returns the word for this label.
    pub fn name(self) -> (name: &'static str)
        ensures
            name@ == classification_text(self),
    {
        classification_name(self)
    }
}

/// The text of a stage identifier.
pub open spec fn stage_text(stage: StageId) -> Seq<char> {
    "StageId("@ + decimal(stage.index as nat) + ")"@
}

fn push_stage(out: &mut String, stage: StageId)
    ensures
        final(out)@ == old(out)@ + stage_text(stage),
{
    out.append("StageId(");
    push_decimal(out, stage.index as u128);
    out.append(")");
    assert(out@ =~= old(out)@ + stage_text(stage));
}

impl InitError {
    /// The text of this error, given a quoted name or a quantile as `detail`.
    pub open spec fn text(self, detail: Seq<char>) -> Seq<char> {
        match self {
            InitError::EmptyStageName => "stage name must not be empty"@,
            InitError::DuplicateStageName { .. } => "stage name "@
                + detail
                + " is already registered"@,
            InitError::NoStages => "at least one stage must be registered"@,
            InitError::TooManyStages { maximum } => "at most "@
                + decimal(maximum as nat)
                + " stages may be registered"@,
            InitError::InvalidTailQuantile { .. } => "tail quantile "@
                + detail
                + " is outside (0, 1]"@,
            InitError::RegistryCookieExhausted => "registry-cookie space is exhausted"@,
            InitError::SizeOverflow => "recorder size calculation overflowed"@,
            InitError::MemoryBudgetExceeded { required, budget } => "recorder requires "@
                + decimal(required as nat)
                + " bytes, exceeding the "@
                + decimal(budget as nat)
                + "-byte budget"@,
        }
    }

    /// Returns the text of this error, given a quoted name or a quantile as `detail`.
    pub fn message(&self, detail: &str) -> (text: String)
        ensures
            text@ == self.text(detail@),
    {
        let mut out = String::new();
        match self {
            InitError::EmptyStageName => {
                out.append("stage name must not be empty");
            },
            InitError::DuplicateStageName { .. } => {
                out.append("stage name ");
                out.append(detail);
                out.append(" is already registered");
            },
            InitError::NoStages => {
                out.append("at least one stage must be registered");
            },
            InitError::TooManyStages { maximum } => {
                out.append("at most ");
                push_decimal(&mut out, *maximum as u128);
                out.append(" stages may be registered");
            },
            InitError::InvalidTailQuantile { .. } => {
                out.append("tail quantile ");
                out.append(detail);
                out.append(" is outside (0, 1]");
            },
            InitError::RegistryCookieExhausted => {
                out.append("registry-cookie space is exhausted");
            },
            InitError::SizeOverflow => {
                out.append("recorder size calculation overflowed");
            },
            InitError::MemoryBudgetExceeded { required, budget } => {
                out.append("recorder requires ");
                push_decimal(&mut out, *required as u128);
                out.append(" bytes, exceeding the ");
                push_decimal(&mut out, *budget as u128);
                out.append("-byte budget");
            },
        }
        assert(out@ =~= self.text(detail@));
        out
    }
}

impl FreezeError {
    /// The text of this error.
    pub open spec fn text(self) -> Seq<char> {
        match self {
            FreezeError::NoStagesSelected => "freeze criteria selected no stages"@,
            FreezeError::InvalidStageSelection { stage } => "freeze criteria contains foreign "@
                + stage_text(stage),
            FreezeError::DuplicateStageSelection { stage } => "freeze criteria repeats "@
                + stage_text(stage),
            FreezeError::NotReady { .. } => "selected calibration populations are not ready"@,
            FreezeError::AlreadyFreezing => "calibration is already freezing"@,
            FreezeError::AlreadyFrozen { epoch } => "calibration is already frozen at epoch "@
                + decimal(epoch as nat),
            FreezeError::CalibrationRangeInsufficient { stage, population, terminal, .. } => "calibration range is insufficient for "@
                + stage_text(stage)
                + " "@
                + population_text(population)
                + ": "@
                + terminal_text(terminal),
            FreezeError::CalibrationArithmeticOverflow { stage, population } => "calibration counter total overflowed for "@
                + stage_text(stage)
                + " "@
                + population_text(population),
        }
    }

    /// Returns the text of this error.
    pub fn message(&self) -> (text: String)
        ensures
            text@ == self.text(),
    {
        let mut out = String::new();
        match self {
            FreezeError::NoStagesSelected => {
                out.append("freeze criteria selected no stages");
            },
            FreezeError::InvalidStageSelection { stage } => {
                out.append("freeze criteria contains foreign ");
                push_stage(&mut out, *stage);
            },
            FreezeError::DuplicateStageSelection { stage } => {
                out.append("freeze criteria repeats ");
                push_stage(&mut out, *stage);
            },
            FreezeError::NotReady { .. } => {
                out.append("selected calibration populations are not ready");
            },
            FreezeError::AlreadyFreezing => {
                out.append("calibration is already freezing");
            },
            FreezeError::AlreadyFrozen { epoch } => {
                out.append("calibration is already frozen at epoch ");
                push_decimal(&mut out, *epoch as u128);
            },
            FreezeError::CalibrationRangeInsufficient { stage, population, terminal, .. } => {
                out.append("calibration range is insufficient for ");
                push_stage(&mut out, *stage);
                out.append(" ");
                out.append(population_name(*population));
                out.append(": ");
                out.append(terminal_name(*terminal));
            },
            FreezeError::CalibrationArithmeticOverflow { stage, population } => {
                out.append("calibration counter total overflowed for ");
                push_stage(&mut out, *stage);
                out.append(" ");
                out.append(population_name(*population));
            },
        }
        assert(out@ =~= self.text());
        out
    }
}

impl DeltaError {
    /// The text of this error.
    pub open spec fn text(self) -> Seq<char> {
        match self {
            DeltaError::RegistryMismatch => "snapshots belong to different registries"@,
            DeltaError::CounterUnderflow { earlier, later } => "later counter value "@
                + decimal(later as nat)
                + " is below earlier value "@
                + decimal(earlier as nat),
        }
    }

    /// Returns the text of this error.
    pub fn message(&self) -> (text: String)
        ensures
            text@ == self.text(),
    {
        let mut out = String::new();
        match self {
            DeltaError::RegistryMismatch => {
                out.append("snapshots belong to different registries");
            },
            DeltaError::CounterUnderflow { earlier, later } => {
                out.append("later counter value ");
                push_decimal(&mut out, *later as u128);
                out.append(" is below earlier value ");
                push_decimal(&mut out, *earlier as u128);
            },
        }
        assert(out@ =~= self.text());
        out
    }
}

impl DiagnoseError {
    /// The text of this error.
    pub open spec fn text(self) -> Seq<char> {
        match self {
            DiagnoseError::NotCalibrated { stage } => stage_text(stage) + " is not calibrated"@,
            DiagnoseError::EpochMismatch { earlier, later } => "online diagnosis cannot span calibration epochs "@
                + decimal(earlier as nat)
                + " and "@
                + decimal(later as nat),
        }
    }

    /// Returns the text of this error.
    pub fn message(&self) -> (text: String)
        ensures
            text@ == self.text(),
    {
        let mut out = String::new();
        match self {
            DiagnoseError::NotCalibrated { stage } => {
                push_stage(&mut out, *stage);
                out.append(" is not calibrated");
            },
            DiagnoseError::EpochMismatch { earlier, later } => {
                out.append("online diagnosis cannot span calibration epochs ");
                push_decimal(&mut out, *earlier as u128);
                out.append(" and ");
                push_decimal(&mut out, *later as u128);
            },
        }
        assert(out@ =~= self.text());
        out
    }
}

/// Texts of the values of one score path, used for available scores.
#[derive(Debug)]
pub struct ScoreTexts {
    /// Text of `tail_onset`.
    pub tail_onset: String,
    /// Text of `local_tail_origin_clean`.
    pub local_tail_origin_clean: String,
    /// Text of `local_tail_origin_tail`.
    pub local_tail_origin_tail: String,
    /// Text of `local_tail_rate_given_prev_tail`.
    pub local_tail_rate_given_prev_tail: String,
    /// Text of `local_tail_rate_given_prev_not_tail`.
    pub local_tail_rate_given_prev_not_tail: String,
    /// Text of `amplification_lift`.
    pub amplification_lift: String,
    /// Text of `carry_through`.
    pub carry_through: String,
}

/// Texts of the thresholds of a policy.
#[derive(Debug)]
pub struct PolicyTexts {
    /// Text of the onset threshold.
    pub onset: String,
    /// Text of the lift threshold.
    pub amplification_lift: String,
    /// Text of the carry-through threshold.
    pub carry_through: String,
}

/// The line of one score.
pub open spec fn score_line(
    name: Seq<char>,
    numerator: u128,
    denominator: u128,
    available: bool,
    status: ScoreStatus,
    value: Seq<char>,
) -> Seq<char> {
    "  "@ + name + ": "@ + decimal(numerator as nat) + "/"@ + decimal(denominator as nat) + " = "@
        + (if available {
        value + "\n"@
    } else {
        "n/a ("@ + status_text(status) + ")\n"@
    })
}

fn push_score(
    out: &mut String,
    name: &str,
    numerator: u128,
    denominator: u128,
    available: bool,
    status: ScoreStatus,
    value: &str,
)
    ensures
        final(out)@ == old(out)@ + score_line(
            name@,
            numerator,
            denominator,
            available,
            status,
            value@,
        ),
{
    out.append("  ");
    out.append(name);
    out.append(": ");
    push_decimal(out, numerator);
    out.append("/");
    push_decimal(out, denominator);
    out.append(" = ");
    if available {
        out.append(value);
        out.append("\n");
    } else {
        out.append("n/a (");
        out.append(score_status_name(status));
        out.append(")\n");
    }
    assert(out@ =~= old(out)@ + score_line(
        name@,
        numerator,
        denominator,
        available,
        status,
        value@,
    ));
}

/// The text of an optional bucket.
pub open spec fn bucket_text(threshold: Option<BucketThreshold>) -> Seq<char> {
    match threshold {
        Some(threshold) => decimal(threshold.bucket as nat),
        None => "n/a"@,
    }
}

fn push_bucket(out: &mut String, threshold: Option<BucketThreshold>)
    ensures
        final(out)@ == old(out)@ + bucket_text(threshold),
{
    match threshold {
        Some(threshold) => push_decimal(out, threshold.bucket as u128),
        None => out.append("n/a"),
    }
}

/// The text of an optional count.
pub open spec fn count_text(count: Option<u64>) -> Seq<char> {
    match count {
        Some(count) => decimal(count as nat),
        None => "n/a"@,
    }
}

fn push_count(out: &mut String, count: Option<u64>)
    ensures
        final(out)@ == old(out)@ + count_text(count),
{
    match count {
        Some(count) => push_decimal(out, count as u128),
        None => out.append("n/a"),
    }
}

impl CalibratedOnlineScores {
    /// A text with the calibrated-online path after it.
    pub open spec fn with_text(self, before: Seq<char>, texts: ScoreTexts) -> Seq<char> {
        let header = before + "path: calibrated-online\n"@ + "  population: all-reached marks (first="@ + decimal(
            self.first_samples as nat,
        ) + ", predecessor="@ + decimal(self.predecessor_samples as nat) + ")\n"@
            + "  epoch: "@ + decimal(self.epoch as nat) + "\n"@ + "  consistency: relaxed\n"@
            + "  thresholds_ns: local="@ + decimal(self.thresholds.local as nat)
            + ", previous_cumulative="@ + count_text(self.thresholds.previous_cumulative)
            + ", cumulative_after="@ + decimal(self.thresholds.cumulative_after as nat) + "\n"@;
        self.with_score_lines(header, texts)
    }

    fn push_text(&self, out: &mut String, texts: &ScoreTexts)
        ensures
            final(out)@ == self.with_text(old(out)@, *texts),
    {
        out.append("path: calibrated-online\n");
        out.append("  population: all-reached marks (first=");
        push_decimal(out, self.first_samples);
        out.append(", predecessor=");
        push_decimal(out, self.predecessor_samples);
        out.append(")\n");
        out.append("  epoch: ");
        push_decimal(out, self.epoch as u128);
        out.append("\n");
        out.append("  consistency: relaxed\n");
        out.append("  thresholds_ns: local=");
        push_decimal(out, self.thresholds.local as u128);
        out.append(", previous_cumulative=");
        push_count(out, self.thresholds.previous_cumulative);
        out.append(", cumulative_after=");
        push_decimal(out, self.thresholds.cumulative_after as u128);
        out.append("\n");
        self.push_score_lines(out, texts);
    }

    /// A text with the score lines of this path after it.
    pub open spec fn with_score_lines(self, before: Seq<char>, texts: ScoreTexts) -> Seq<char> {
        before + score_line(
            "tail_onset"@,
            self.tail_onset.numerator,
            self.tail_onset.denominator,
            self.tail_onset.value is Some,
            self.tail_onset.status,
            texts.tail_onset@,
        ) + score_line(
            "local_tail_origin_clean"@,
            self.local_tail_origin_clean.numerator,
            self.local_tail_origin_clean.denominator,
            self.local_tail_origin_clean.value is Some,
            self.local_tail_origin_clean.status,
            texts.local_tail_origin_clean@,
        ) + score_line(
            "local_tail_origin_tail"@,
            self.local_tail_origin_tail.numerator,
            self.local_tail_origin_tail.denominator,
            self.local_tail_origin_tail.value is Some,
            self.local_tail_origin_tail.status,
            texts.local_tail_origin_tail@,
        ) + score_line(
            "local_tail_rate_given_prev_tail"@,
            self.local_tail_rate_given_prev_tail.numerator,
            self.local_tail_rate_given_prev_tail.denominator,
            self.local_tail_rate_given_prev_tail.value is Some,
            self.local_tail_rate_given_prev_tail.status,
            texts.local_tail_rate_given_prev_tail@,
        ) + score_line(
            "local_tail_rate_given_prev_not_tail"@,
            self.local_tail_rate_given_prev_not_tail.numerator,
            self.local_tail_rate_given_prev_not_tail.denominator,
            self.local_tail_rate_given_prev_not_tail.value is Some,
            self.local_tail_rate_given_prev_not_tail.status,
            texts.local_tail_rate_given_prev_not_tail@,
        ) + score_line(
            "amplification_lift"@,
            self.amplification_lift.numerator,
            self.amplification_lift.denominator,
            self.amplification_lift.value is Some,
            self.amplification_lift.status,
            texts.amplification_lift@,
        ) + score_line(
            "carry_through"@,
            self.carry_through.numerator,
            self.carry_through.denominator,
            self.carry_through.value is Some,
            self.carry_through.status,
            texts.carry_through@,
        )
    }

    fn push_score_lines(&self, out: &mut String, texts: &ScoreTexts)
        ensures
            final(out)@ == self.with_score_lines(old(out)@, *texts),
    {
        push_score(
            out,
            "tail_onset",
            self.tail_onset.numerator,
            self.tail_onset.denominator,
            self.tail_onset.value.is_some(),
            self.tail_onset.status,
            texts.tail_onset.as_str(),
        );
        push_score(
            out,
            "local_tail_origin_clean",
            self.local_tail_origin_clean.numerator,
            self.local_tail_origin_clean.denominator,
            self.local_tail_origin_clean.value.is_some(),
            self.local_tail_origin_clean.status,
            texts.local_tail_origin_clean.as_str(),
        );
        push_score(
            out,
            "local_tail_origin_tail",
            self.local_tail_origin_tail.numerator,
            self.local_tail_origin_tail.denominator,
            self.local_tail_origin_tail.value.is_some(),
            self.local_tail_origin_tail.status,
            texts.local_tail_origin_tail.as_str(),
        );
        push_score(
            out,
            "local_tail_rate_given_prev_tail",
            self.local_tail_rate_given_prev_tail.numerator,
            self.local_tail_rate_given_prev_tail.denominator,
            self.local_tail_rate_given_prev_tail.value.is_some(),
            self.local_tail_rate_given_prev_tail.status,
            texts.local_tail_rate_given_prev_tail.as_str(),
        );
        push_score(
            out,
            "local_tail_rate_given_prev_not_tail",
            self.local_tail_rate_given_prev_not_tail.numerator,
            self.local_tail_rate_given_prev_not_tail.denominator,
            self.local_tail_rate_given_prev_not_tail.value.is_some(),
            self.local_tail_rate_given_prev_not_tail.status,
            texts.local_tail_rate_given_prev_not_tail.as_str(),
        );
        push_score(
            out,
            "amplification_lift",
            self.amplification_lift.numerator,
            self.amplification_lift.denominator,
            self.amplification_lift.value.is_some(),
            self.amplification_lift.status,
            texts.amplification_lift.as_str(),
        );
        push_score(
            out,
            "carry_through",
            self.carry_through.numerator,
            self.carry_through.denominator,
            self.carry_through.value.is_some(),
            self.carry_through.status,
            texts.carry_through.as_str(),
        );
    }
}

impl MatrixScores {
    /// A text with the matrix-derived path after it.
    pub open spec fn with_text(self, before: Seq<char>, texts: ScoreTexts) -> Seq<char> {
        let header = before + "path: matrix-derived (known drift)\n"@ + "  population: predecessor-only (cause="@
            + decimal(self.cause_samples as nat) + ", incoming="@ + decimal(
            self.incoming_samples as nat,
        ) + ")\n"@ + "  consistency: relaxed\n"@ + "  threshold_buckets: local="@ + bucket_text(
            self.thresholds.local,
        ) + ", previous_cumulative="@ + bucket_text(self.thresholds.previous_cumulative)
            + ", cumulative_after="@ + bucket_text(self.thresholds.cumulative_after) + "\n"@;
        self.with_score_lines(header, texts)
    }

    fn push_text(&self, out: &mut String, texts: &ScoreTexts)
        ensures
            final(out)@ == self.with_text(old(out)@, *texts),
    {
        out.append("path: matrix-derived (known drift)\n");
        out.append("  population: predecessor-only (cause=");
        push_decimal(out, self.cause_samples);
        out.append(", incoming=");
        push_decimal(out, self.incoming_samples);
        out.append(")\n");
        out.append("  consistency: relaxed\n");
        out.append("  threshold_buckets: local=");
        push_bucket(out, self.thresholds.local);
        out.append(", previous_cumulative=");
        push_bucket(out, self.thresholds.previous_cumulative);
        out.append(", cumulative_after=");
        push_bucket(out, self.thresholds.cumulative_after);
        out.append("\n");
        self.push_score_lines(out, texts);
    }

    /// A text with the score lines of this path after it.
    pub open spec fn with_score_lines(self, before: Seq<char>, texts: ScoreTexts) -> Seq<char> {
        before + score_line(
            "tail_onset"@,
            self.tail_onset.numerator,
            self.tail_onset.denominator,
            self.tail_onset.value is Some,
            self.tail_onset.status,
            texts.tail_onset@,
        ) + score_line(
            "local_tail_origin_clean"@,
            self.local_tail_origin_clean.numerator,
            self.local_tail_origin_clean.denominator,
            self.local_tail_origin_clean.value is Some,
            self.local_tail_origin_clean.status,
            texts.local_tail_origin_clean@,
        ) + score_line(
            "local_tail_origin_tail"@,
            self.local_tail_origin_tail.numerator,
            self.local_tail_origin_tail.denominator,
            self.local_tail_origin_tail.value is Some,
            self.local_tail_origin_tail.status,
            texts.local_tail_origin_tail@,
        ) + score_line(
            "local_tail_rate_given_prev_tail"@,
            self.local_tail_rate_given_prev_tail.numerator,
            self.local_tail_rate_given_prev_tail.denominator,
            self.local_tail_rate_given_prev_tail.value is Some,
            self.local_tail_rate_given_prev_tail.status,
            texts.local_tail_rate_given_prev_tail@,
        ) + score_line(
            "local_tail_rate_given_prev_not_tail"@,
            self.local_tail_rate_given_prev_not_tail.numerator,
            self.local_tail_rate_given_prev_not_tail.denominator,
            self.local_tail_rate_given_prev_not_tail.value is Some,
            self.local_tail_rate_given_prev_not_tail.status,
            texts.local_tail_rate_given_prev_not_tail@,
        ) + score_line(
            "amplification_lift"@,
            self.amplification_lift.numerator,
            self.amplification_lift.denominator,
            self.amplification_lift.value is Some,
            self.amplification_lift.status,
            texts.amplification_lift@,
        ) + score_line(
            "carry_through"@,
            self.carry_through.numerator,
            self.carry_through.denominator,
            self.carry_through.value is Some,
            self.carry_through.status,
            texts.carry_through@,
        )
    }

    fn push_score_lines(&self, out: &mut String, texts: &ScoreTexts)
        ensures
            final(out)@ == self.with_score_lines(old(out)@, *texts),
    {
        push_score(
            out,
            "tail_onset",
            self.tail_onset.numerator,
            self.tail_onset.denominator,
            self.tail_onset.value.is_some(),
            self.tail_onset.status,
            texts.tail_onset.as_str(),
        );
        push_score(
            out,
            "local_tail_origin_clean",
            self.local_tail_origin_clean.numerator,
            self.local_tail_origin_clean.denominator,
            self.local_tail_origin_clean.value.is_some(),
            self.local_tail_origin_clean.status,
            texts.local_tail_origin_clean.as_str(),
        );
        push_score(
            out,
            "local_tail_origin_tail",
            self.local_tail_origin_tail.numerator,
            self.local_tail_origin_tail.denominator,
            self.local_tail_origin_tail.value.is_some(),
            self.local_tail_origin_tail.status,
            texts.local_tail_origin_tail.as_str(),
        );
        push_score(
            out,
            "local_tail_rate_given_prev_tail",
            self.local_tail_rate_given_prev_tail.numerator,
            self.local_tail_rate_given_prev_tail.denominator,
            self.local_tail_rate_given_prev_tail.value.is_some(),
            self.local_tail_rate_given_prev_tail.status,
            texts.local_tail_rate_given_prev_tail.as_str(),
        );
        push_score(
            out,
            "local_tail_rate_given_prev_not_tail",
            self.local_tail_rate_given_prev_not_tail.numerator,
            self.local_tail_rate_given_prev_not_tail.denominator,
            self.local_tail_rate_given_prev_not_tail.value.is_some(),
            self.local_tail_rate_given_prev_not_tail.status,
            texts.local_tail_rate_given_prev_not_tail.as_str(),
        );
        push_score(
            out,
            "amplification_lift",
            self.amplification_lift.numerator,
            self.amplification_lift.denominator,
            self.amplification_lift.value.is_some(),
            self.amplification_lift.status,
            texts.amplification_lift.as_str(),
        );
        push_score(
            out,
            "carry_through",
            self.carry_through.numerator,
            self.carry_through.denominator,
            self.carry_through.value.is_some(),
            self.carry_through.status,
            texts.carry_through.as_str(),
        );
    }
}

/// The line of a classification policy.
pub open spec fn policy_text(config: DiagnoseConfig, texts: PolicyTexts) -> Seq<char> {
    "classification thresholds: onset>="@ + texts.onset@ + ", amplification_lift>="@
        + texts.amplification_lift@ + ", carry_through>="@ + texts.carry_through@ + (if config
        == experimental_policy() {
        " (experimental PoC values)"@
    } else {
        ""@
    })
}

impl DiagnosisReport {
    /// The text of a diagnosis.
    pub open spec fn text(
        self,
        online: ScoreTexts,
        matrix: ScoreTexts,
        policy: PolicyTexts,
    ) -> Seq<char> {
        let title = Seq::<char>::empty() + "tracegrams diagnosis: "@ + self.stage_name@ + "\n"@;
        let online_path = self.calibrated_online.with_text(title, online);
        let both_paths = self.matrix_derived.with_text(online_path, matrix);
        both_paths + "classification (calibrated-online): "@
            + classification_text(self.classification) + "\n"@
            + "classification (matrix-derived): "@ + classification_text(
            self.matrix_classification,
        ) + "\n"@ + policy_text(self.config, policy)
    }

    /// Renders the diagnosis with the texts of its values and thresholds.
    pub fn render(&self, online: &ScoreTexts, matrix: &ScoreTexts, policy: &PolicyTexts) -> (text:
        String)
        ensures
            text@ == self.text(*online, *matrix, *policy),
    {
        let mut out = String::new();
        out.append("tracegrams diagnosis: ");
        out.append(self.stage_name.as_str());
        out.append("\n");
        self.calibrated_online.push_text(&mut out, online);
        self.matrix_derived.push_text(&mut out, matrix);
        out.append("classification (calibrated-online): ");
        out.append(self.classification.name());
        out.append("\n");
        out.append("classification (matrix-derived): ");
        out.append(self.matrix_classification.name());
        out.append("\n");
        push_policy(&mut out, self.config, policy);
        out
    }
}

fn push_policy(out: &mut String, config: DiagnoseConfig, texts: &PolicyTexts)
    ensures
        final(out)@ == old(out)@ + policy_text(config, *texts),
{
    out.append("classification thresholds: onset>=");
    out.append(texts.onset.as_str());
    out.append(", amplification_lift>=");
    out.append(texts.amplification_lift.as_str());
    out.append(", carry_through>=");
    out.append(texts.carry_through.as_str());
    if config.is_experimental_defaults() {
        out.append(" (experimental PoC values)");
    } else {
        out.append("");
    }
    assert(out@ =~= old(out)@ + policy_text(config, *texts));
}

} // verus!
