//! Debug output, and equality of values that hold binary64 patterns.

use tracegrams::init::FIRST_REGISTRY_COOKIE;
use tracegrams::{DiagnoseConfig, FreezeCriteria, InitError, Tracegrams};

#[test]
fn stage_identifiers_show_their_position_only() {
    let mut cookies: u64 = FIRST_REGISTRY_COOKIE + 40;
    let mut builder = Tracegrams::builder(&mut cookies);
    builder.stage("first").unwrap();
    let stage = builder.stage("second").unwrap();
    assert_eq!(format!("{stage:?}"), "StageId(1)");
    assert_eq!(format!("{stage:#?}"), "StageId(\n    1,\n)");
    assert_eq!(format!("{:?}", Some(stage)), "Some(StageId(1))");
}

#[test]
fn manual_contexts_show_their_progress_only() {
    let mut cookies: u64 = FIRST_REGISTRY_COOKIE;
    let mut builder = Tracegrams::builder(&mut cookies);
    builder.stage("first").unwrap();
    let stage = builder.stage("second").unwrap();
    let mut tracegrams = builder.build().unwrap();
    let mut context = tracegrams.start_manual();
    assert_eq!(
        format!("{context:?}"),
        "ManualCtx { cumulative_ns: 0, calibration_epoch: 0, previous_stage: None, .. }"
    );
    tracegrams.record_elapsed(&mut context, stage, 150);
    assert_eq!(
        format!("{context:?}"),
        "ManualCtx { cumulative_ns: 150, calibration_epoch: 0, previous_stage: Some(1), .. }"
    );
}

#[test]
fn recorders_show_their_configuration_only() {
    let mut cookies: u64 = FIRST_REGISTRY_COOKIE;
    let mut builder = Tracegrams::builder(&mut cookies);
    builder.stage("only").unwrap();
    builder.memory_budget_bytes(1_000_000);
    let estimate = builder.estimated_memory().unwrap();
    let tracegrams = builder.build().unwrap();
    assert_eq!(
        format!("{tracegrams:?}"),
        format!(
            "Tracegrams {{ stages: 1, tail_quantile: {}, memory_budget_bytes: 1000000, \
             memory_estimate: {estimate:?}, .. }}",
            0.99_f64.to_bits()
        )
    );
}

fn policy(onset: f64) -> DiagnoseConfig {
    DiagnoseConfig {
        onset_threshold: onset.to_bits(),
        ..DiagnoseConfig::experimental_defaults()
    }
}

#[test]
fn policies_are_equal_as_numbers_are() {
    assert_eq!(policy(0.7), DiagnoseConfig::experimental_defaults());
    assert_ne!(policy(0.5), policy(0.7));
    assert_eq!(policy(0.0), policy(-0.0));
    assert_ne!(policy(f64::NAN), policy(f64::NAN));
    assert_eq!(policy(f64::INFINITY), policy(f64::INFINITY));
    assert_ne!(policy(f64::INFINITY), policy(f64::NEG_INFINITY));
}

#[test]
fn reports_are_equal_as_their_policies_are() {
    let mut cookies: u64 = FIRST_REGISTRY_COOKIE;
    let mut builder = Tracegrams::builder(&mut cookies);
    let stage = builder.stage("only").unwrap();
    let mut tracegrams = builder.build().unwrap();
    let mut context = tracegrams.start_manual();
    tracegrams.record_elapsed(&mut context, stage, 150);
    tracegrams
        .try_freeze_calibration(FreezeCriteria::all_stages(1))
        .unwrap();
    let snapshot = tracegrams.snapshot_relaxed();
    let report = |onset: f64| snapshot.diagnose(stage, &policy(onset)).unwrap();
    assert_eq!(report(0.0), report(-0.0));
    assert_ne!(report(f64::NAN), report(f64::NAN));
}

#[test]
fn errors_are_equal_as_their_parts_are() {
    let rejected = |value: f64| InitError::InvalidTailQuantile {
        value: value.to_bits(),
    };
    assert_eq!(rejected(0.0), rejected(-0.0));
    assert_eq!(rejected(1.5), rejected(1.5));
    assert_ne!(rejected(1.5), rejected(2.5));
    assert_ne!(rejected(f64::NAN), rejected(f64::NAN));

    let duplicate = |name: &str| InitError::DuplicateStageName {
        name: name.to_string(),
    };
    assert_eq!(duplicate("db"), duplicate("db"));
    assert_ne!(duplicate("db"), duplicate("parse"));
    assert_ne!(duplicate("db"), InitError::NoStages);
    assert_eq!(InitError::NoStages, InitError::NoStages);
    assert_eq!(InitError::EmptyStageName, InitError::EmptyStageName);
    assert_eq!(InitError::SizeOverflow, InitError::SizeOverflow);
    assert_eq!(
        InitError::RegistryCookieExhausted,
        InitError::RegistryCookieExhausted
    );
    assert_ne!(InitError::SizeOverflow, InitError::EmptyStageName);
    assert_ne!(
        InitError::TooManyStages { maximum: 64 },
        InitError::TooManyStages { maximum: 63 }
    );
    let exceeded = |required: usize, budget: usize| InitError::MemoryBudgetExceeded {
        required,
        budget,
    };
    assert_eq!(exceeded(2, 1), exceeded(2, 1));
    assert_ne!(exceeded(2, 1), exceeded(3, 1));
    assert_ne!(exceeded(2, 1), exceeded(2, 0));
}
