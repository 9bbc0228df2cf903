//! Diagnosis reports and error texts.

use tracegrams::init::FIRST_REGISTRY_COOKIE;
use tracegrams::text::{push_decimal, score_status_name, PolicyTexts, ScoreTexts};
use tracegrams::{
    CalibrationPopulation, CalibrationTerminal, Classification, DeltaError, DiagnoseConfig,
    DiagnoseError, DiagnosisReport, FreezeCriteria, FreezeError, InitError, Outcome, Ratio,
    ScoreStatus, Snapshot, StageId, Tracegrams,
};

const MILLISECOND: u128 = 1_000_000;

#[allow(clippy::cast_precision_loss)]
fn quotient(ratio: Ratio) -> f64 {
    ratio.numerator as f64 / ratio.denominator as f64
}

fn value_text(value: Option<Ratio>) -> String {
    match value {
        Some(value) => format!("{:.6}", quotient(value)),
        None => String::new(),
    }
}

fn render(report: &DiagnosisReport) -> String {
    let online = report.calibrated_online();
    let matrix = report.matrix_derived();
    let config = report.config();
    report.render(
        &ScoreTexts {
            tail_onset: value_text(online.tail_onset().value()),
            local_tail_origin_clean: value_text(online.local_tail_origin_clean().value()),
            local_tail_origin_tail: value_text(online.local_tail_origin_tail().value()),
            local_tail_rate_given_prev_tail: value_text(
                online.local_tail_rate_given_prev_tail().value(),
            ),
            local_tail_rate_given_prev_not_tail: value_text(
                online.local_tail_rate_given_prev_not_tail().value(),
            ),
            amplification_lift: value_text(online.amplification_lift().value()),
            carry_through: value_text(online.carry_through().value()),
        },
        &ScoreTexts {
            tail_onset: value_text(matrix.tail_onset().value()),
            local_tail_origin_clean: value_text(matrix.local_tail_origin_clean().value()),
            local_tail_origin_tail: value_text(matrix.local_tail_origin_tail().value()),
            local_tail_rate_given_prev_tail: value_text(
                matrix.local_tail_rate_given_prev_tail().value(),
            ),
            local_tail_rate_given_prev_not_tail: value_text(
                matrix.local_tail_rate_given_prev_not_tail().value(),
            ),
            amplification_lift: value_text(matrix.amplification_lift().value()),
            carry_through: value_text(matrix.carry_through().value()),
        },
        &PolicyTexts {
            onset: format!("{:.6}", f64::from_bits(config.onset_threshold)),
            amplification_lift: format!(
                "{:.6}",
                f64::from_bits(config.amplification_lift_threshold)
            ),
            carry_through: format!("{:.6}", f64::from_bits(config.carry_through_threshold)),
        },
    )
}

/// A frozen two-stage recorder with one incident request after the freeze, and
/// the snapshot from before that request.
fn incident(cookies: &mut u64) -> (Tracegrams, StageId, StageId, Snapshot) {
    let mut builder = Tracegrams::builder(cookies);
    let parse = builder.stage("parse").unwrap();
    let database = builder.stage("database").unwrap();
    builder.tail_quantile(0.99_f64.to_bits()).unwrap();
    let mut tracegrams = builder.build().unwrap();

    let mut warmup = tracegrams.start_manual();
    tracegrams.record_elapsed(&mut warmup, parse, MILLISECOND);
    tracegrams.finish_manual(warmup, database, 3 * MILLISECOND, Outcome::Success);
    tracegrams
        .try_freeze_calibration(FreezeCriteria::all_stages(1))
        .unwrap();

    let before = tracegrams.snapshot_relaxed();
    let mut request = tracegrams.start_manual();
    tracegrams.record_elapsed(&mut request, parse, MILLISECOND / 10);
    tracegrams.finish_manual(request, database, 30 * MILLISECOND, Outcome::Success);
    (tracegrams, parse, database, before)
}

#[test]
fn an_incident_window_is_diagnosed_as_onset() {
    let mut cookies: u64 = FIRST_REGISTRY_COOKIE;
    let (tracegrams, _, database, before) = incident(&mut cookies);
    let window = tracegrams.snapshot_relaxed().delta(&before).unwrap();
    let policy = DiagnoseConfig::experimental_defaults();
    let report = window.diagnose(database, &policy).unwrap();

    assert_eq!(report.stage(), database);
    assert_eq!(report.stage_name(), "database");
    assert_eq!(report.config(), policy);
    assert_eq!(report.classification(), Classification::Onset);
    let scores = report.calibrated_online();
    assert_eq!(scores.epoch(), 1);
    assert_eq!(scores.samples(), 1);
    assert_eq!(scores.first_samples(), 0);
    assert_eq!(scores.predecessor_samples(), 1);
    assert_eq!(scores.tail_onset().numerator(), 1);
    assert_eq!(scores.tail_onset().denominator(), 1);
}

#[test]
fn a_report_is_rendered_line_by_line() {
    let mut cookies: u64 = FIRST_REGISTRY_COOKIE;
    let (tracegrams, _, database, before) = incident(&mut cookies);
    let window = tracegrams.snapshot_relaxed().delta(&before).unwrap();
    let policy = DiagnoseConfig::experimental_defaults();
    let report = window.diagnose(database, &policy).unwrap();
    let thresholds = report.calibrated_online().thresholds();
    let buckets = report.matrix_derived().thresholds();

    let expected = format!(
        "tracegrams diagnosis: database\n\
         path: calibrated-online\n  \
         population: all-reached marks (first=0, predecessor=1)\n  \
         epoch: 1\n  \
         consistency: relaxed\n  \
         thresholds_ns: local={}, previous_cumulative={}, cumulative_after={}\n  \
         tail_onset: 1/1 = 1.000000\n  \
         local_tail_origin_clean: 1/1 = 1.000000\n  \
         local_tail_origin_tail: 0/1 = 0.000000\n  \
         local_tail_rate_given_prev_tail: 0/0 = n/a (zero denominator)\n  \
         local_tail_rate_given_prev_not_tail: 1/1 = 1.000000\n  \
         amplification_lift: 0/0 = n/a (zero denominator)\n  \
         carry_through: 0/0 = n/a (zero denominator)\n\
         path: matrix-derived (known drift)\n  \
         population: predecessor-only (cause=1, incoming=1)\n  \
         consistency: relaxed\n  \
         threshold_buckets: local={}, previous_cumulative={}, cumulative_after={}\n  \
         tail_onset: 0/1 = 0.000000\n  \
         local_tail_origin_clean: 0/1 = 0.000000\n  \
         local_tail_origin_tail: 1/1 = 1.000000\n  \
         local_tail_rate_given_prev_tail: 1/1 = 1.000000\n  \
         local_tail_rate_given_prev_not_tail: 0/0 = n/a (zero denominator)\n  \
         amplification_lift: 0/0 = n/a (zero denominator)\n  \
         carry_through: 0/1 = 0.000000\n\
         classification (calibrated-online): onset\n\
         classification (matrix-derived): inconclusive\n\
         classification thresholds: onset>=0.700000, amplification_lift>=10.000000, \
         carry_through>=0.800000 (experimental PoC values)",
        thresholds.local_ns(),
        thresholds.previous_cumulative_ns().unwrap(),
        thresholds.cumulative_after_ns(),
        buckets.local().unwrap().bucket(),
        buckets.previous_cumulative().unwrap().bucket(),
        buckets.cumulative_after().unwrap().bucket(),
    );
    assert_eq!(render(&report), expected);

    let named = DiagnoseConfig {
        onset_threshold: 0.5_f64.to_bits(),
        ..policy
    };
    let report = window.diagnose(database, &named).unwrap();
    assert!(render(&report).ends_with(
        "classification thresholds: onset>=0.500000, amplification_lift>=10.000000, \
         carry_through>=0.800000"
    ));
}

#[test]
fn missing_values_are_rendered_as_absent() {
    let mut cookies: u64 = FIRST_REGISTRY_COOKIE;
    let (tracegrams, parse, _, _) = incident(&mut cookies);
    let snapshot = tracegrams.snapshot_relaxed();
    let policy = DiagnoseConfig::experimental_defaults();
    let report = snapshot.diagnose(parse, &policy).unwrap();
    let text = render(&report);
    assert!(text.contains("previous_cumulative=n/a, cumulative_after="));
    assert!(text.contains(
        "  threshold_buckets: local=n/a, previous_cumulative=n/a, cumulative_after=n/a\n"
    ));
    assert!(text.contains("  carry_through: 0/0 = n/a (no predecessor population)\n"));
}

#[test]
fn labels_follow_their_precedence() {
    let mut cookies: u64 = FIRST_REGISTRY_COOKIE;
    let (tracegrams, parse, database, _) = incident(&mut cookies);
    let snapshot = tracegrams.snapshot_relaxed();
    let scores = snapshot.calibrated_online_scores(database).unwrap();
    let all = DiagnoseConfig {
        onset_threshold: 0.0_f64.to_bits(),
        amplification_lift_threshold: 0.0_f64.to_bits(),
        carry_through_threshold: 0.0_f64.to_bits(),
    };
    let no_onset = DiagnoseConfig {
        onset_threshold: f64::INFINITY.to_bits(),
        ..all
    };
    let only_carry = DiagnoseConfig {
        amplification_lift_threshold: f64::NAN.to_bits(),
        ..no_onset
    };
    assert_eq!(scores.classification(&all), Classification::Onset);
    assert_eq!(
        scores.classification(&no_onset),
        Classification::Inconclusive
    );

    let mut scores = snapshot.matrix_scores(database).unwrap();
    assert_eq!(scores.classification(&all), Classification::Onset);
    scores.amplification_lift.value = Some(Ratio {
        numerator: 20,
        denominator: 1,
    });
    assert_eq!(scores.classification(&no_onset), Classification::Amplifier);
    assert_eq!(
        scores.classification(&only_carry),
        Classification::CarryThrough
    );

    let absent = snapshot.matrix_scores(parse).unwrap();
    assert_eq!(absent.classification(&all), Classification::Inconclusive);
}

#[test]
fn diagnosis_needs_a_calibrated_stage_and_one_epoch() {
    let mut cookies: u64 = FIRST_REGISTRY_COOKIE;
    let policy = DiagnoseConfig::experimental_defaults();
    let mut builder = Tracegrams::builder(&mut cookies);
    let stage = builder.stage("stage").unwrap();
    let excluded = builder.stage("excluded").unwrap();
    let mut tracegrams = builder.build().unwrap();
    let collecting = tracegrams.snapshot_relaxed();
    assert_eq!(
        collecting.diagnose(stage, &policy).err(),
        Some(DiagnoseError::NotCalibrated { stage })
    );

    let mut context = tracegrams.start_manual();
    tracegrams.record_elapsed(&mut context, stage, 200);
    tracegrams
        .try_freeze_calibration(FreezeCriteria::for_stages(&[stage], 1))
        .unwrap();
    let frozen = tracegrams.snapshot_relaxed();
    assert!(frozen.diagnose(stage, &policy).is_ok());
    assert_eq!(
        frozen.calibrated_online_scores(excluded),
        Err(DiagnoseError::NotCalibrated { stage: excluded })
    );

    let window = frozen.delta(&collecting).unwrap();
    assert_eq!(
        window.diagnose(stage, &policy).err(),
        Some(DiagnoseError::EpochMismatch {
            earlier: 0,
            later: 1
        })
    );
}

#[test]
fn error_texts_name_what_went_wrong() {
    let mut cookies: u64 = FIRST_REGISTRY_COOKIE;
    let mut builder = Tracegrams::builder(&mut cookies);
    builder.stage("first").unwrap();
    let stage = builder.stage("second").unwrap();
    let report = tracegrams::FreezeReport {
        epoch: None,
        consistency: tracegrams::CalibrationConsistency::Relaxed,
        stages: Vec::new(),
    };
    let readiness = builder.build().unwrap().calibration_readiness(1);

    assert_eq!(
        InitError::EmptyStageName.message(""),
        "stage name must not be empty"
    );
    assert_eq!(
        InitError::DuplicateStageName {
            name: "db".to_owned()
        }
        .message("\"db\""),
        "stage name \"db\" is already registered"
    );
    assert_eq!(
        InitError::NoStages.message(""),
        "at least one stage must be registered"
    );
    assert_eq!(
        InitError::TooManyStages { maximum: 64 }.message(""),
        "at most 64 stages may be registered"
    );
    assert_eq!(
        InitError::InvalidTailQuantile {
            value: 1.5_f64.to_bits()
        }
        .message("1.5"),
        "tail quantile 1.5 is outside (0, 1]"
    );
    assert_eq!(
        InitError::RegistryCookieExhausted.message(""),
        "registry-cookie space is exhausted"
    );
    assert_eq!(
        InitError::SizeOverflow.message(""),
        "recorder size calculation overflowed"
    );
    assert_eq!(
        InitError::MemoryBudgetExceeded {
            required: 1_024,
            budget: 7
        }
        .message(""),
        "recorder requires 1024 bytes, exceeding the 7-byte budget"
    );

    assert_eq!(
        FreezeError::NoStagesSelected.message(),
        "freeze criteria selected no stages"
    );
    assert_eq!(
        FreezeError::InvalidStageSelection { stage }.message(),
        "freeze criteria contains foreign StageId(1)"
    );
    assert_eq!(
        FreezeError::DuplicateStageSelection { stage }.message(),
        "freeze criteria repeats StageId(1)"
    );
    assert_eq!(
        FreezeError::NotReady { readiness }.message(),
        "selected calibration populations are not ready"
    );
    assert_eq!(
        FreezeError::AlreadyFreezing.message(),
        "calibration is already freezing"
    );
    assert_eq!(
        FreezeError::AlreadyFrozen { epoch: 1 }.message(),
        "calibration is already frozen at epoch 1"
    );
    assert_eq!(
        FreezeError::CalibrationRangeInsufficient {
            stage,
            population: CalibrationPopulation::CumulativeAfter,
            terminal: CalibrationTerminal::Upper,
            report,
        }
        .message(),
        "calibration range is insufficient for StageId(1) CumulativeAfter: Upper"
    );
    assert_eq!(
        FreezeError::CalibrationArithmeticOverflow {
            stage,
            population: CalibrationPopulation::Local,
        }
        .message(),
        "calibration counter total overflowed for StageId(1) Local"
    );

    assert_eq!(
        DeltaError::RegistryMismatch.message(),
        "snapshots belong to different registries"
    );
    assert_eq!(
        DeltaError::CounterUnderflow {
            earlier: 12,
            later: 3
        }
        .message(),
        "later counter value 3 is below earlier value 12"
    );
    assert_eq!(
        DiagnoseError::NotCalibrated { stage }.message(),
        "StageId(1) is not calibrated"
    );
    assert_eq!(
        DiagnoseError::EpochMismatch {
            earlier: 0,
            later: 1
        }
        .message(),
        "online diagnosis cannot span calibration epochs 0 and 1"
    );
}

#[test]
fn numbers_and_statuses_have_their_usual_texts() {
    for number in [0, 7, 10, 99, 100, 1_234_567_890, u128::MAX] {
        let mut text = String::from("n=");
        push_decimal(&mut text, number);
        assert_eq!(text, format!("n={number}"));
    }
    assert_eq!(score_status_name(ScoreStatus::Available), "available");
    assert_eq!(
        score_status_name(ScoreStatus::InconsistentSnapshot),
        "inconsistent relaxed snapshot"
    );
    assert_eq!(
        score_status_name(ScoreStatus::ArithmeticOverflow),
        "arithmetic overflow"
    );
    assert_eq!(Classification::Onset.name(), "onset");
    assert_eq!(Classification::Amplifier.name(), "amplifier");
    assert_eq!(Classification::CarryThrough.name(), "carry-through");
    assert_eq!(Classification::Inconclusive.name(), "inconclusive");
}

#[test]
fn policies_are_given_by_their_patterns() {
    let policy = DiagnoseConfig::experimental_defaults();
    assert_eq!(f64::from_bits(policy.onset_threshold), 0.70);
    assert_eq!(f64::from_bits(policy.amplification_lift_threshold), 10.0);
    assert_eq!(f64::from_bits(policy.carry_through_threshold), 0.80);
    assert!(policy.is_experimental_defaults());
    assert!(!DiagnoseConfig {
        onset_threshold: policy.onset_threshold + 1,
        ..policy
    }
    .is_experimental_defaults());
}
