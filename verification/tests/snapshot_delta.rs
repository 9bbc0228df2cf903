//! Relaxed snapshot and pure-delta contract tests.

use std::time::Duration;

use tracegrams::counts::sum;
use tracegrams::init::FIRST_REGISTRY_COOKIE;
use tracegrams::layout::DiagnosticCounter;
use tracegrams::{
    CalibrationPopulation, CalibrationState, Consistency, DeltaError, OnlineDeltaAvailability,
    Outcome, StageId, Tracegrams,
};

#[test]
fn quiesced_snapshot_owns_recorded_stage_data() {
    let mut cookies: u64 = FIRST_REGISTRY_COOKIE;
    let mut builder = Tracegrams::builder(&mut cookies);
    let parse = builder.stage("parse").unwrap();
    let db = builder.stage("db").unwrap();
    let mut tracegrams = builder.build().unwrap();

    let mut context = tracegrams.start_manual();
    tracegrams.record_elapsed(&mut context, parse, Duration::from_nanos(50).as_nanos());
    tracegrams.finish_manual(context, db, Duration::from_nanos(75).as_nanos(), Outcome::Success);
    let snapshot = tracegrams.snapshot_relaxed();
    let snapshot = snapshot.clone();
    drop(tracegrams);

    assert_eq!(snapshot.consistency(), Consistency::Relaxed);
    assert_eq!(snapshot.stages()[0].name(), "parse");
    assert_eq!(snapshot.stages()[1].name(), "db");
    assert_eq!(snapshot.local_counts(parse).unwrap()[0], 1);
    assert_eq!(snapshot.local_counts(db).unwrap()[0], 1);
    assert_eq!(snapshot.cause_counts(db).unwrap()[0], 1);
    assert_eq!(snapshot.incoming_counts(db).unwrap()[1], 1);
    assert_eq!(snapshot.completion_counts(db).unwrap().success(), 1);
    assert_eq!(snapshot.completion_counts(db).unwrap().error(), 0);
}

#[test]
fn snapshot_exposes_read_plane_metadata_counts_and_configuration() {
    let mut cookies: u64 = FIRST_REGISTRY_COOKIE;
    let mut builder = Tracegrams::builder(&mut cookies);
    let parse = builder.stage("parse").unwrap();
    let db = builder.stage("db").unwrap();
    builder.tail_quantile(0.95_f64.to_bits()).unwrap();
    let estimate = builder.estimated_memory().unwrap();
    let mut tracegrams = builder.build().unwrap();

    let mut context = tracegrams.start_manual();
    tracegrams.record_elapsed(&mut context, parse, Duration::from_nanos(50).as_nanos());
    tracegrams.finish_manual(context, db, Duration::from_nanos(75).as_nanos(), Outcome::Error);
    let snapshot = tracegrams.snapshot_relaxed();

    assert_eq!(snapshot.stage_name(parse), Some("parse"));
    assert_eq!(snapshot.stage_name(db), Some("db"));
    assert_eq!(snapshot.bucket_bounds().len(), 63);
    assert_eq!(snapshot.calibration_bucket_bounds().len(), 249);
    assert!((f64::from_bits(snapshot.tail_quantile()) - 0.95).abs() < f64::EPSILON);
    assert_eq!(snapshot.calibration_state(), CalibrationState::Collecting);
    assert_eq!(snapshot.calibration_epoch(), 0);
    assert_eq!(snapshot.memory_budget_bytes(), 8 * 1024 * 1024);
    assert_eq!(snapshot.memory_estimate(), estimate);

    let samples = snapshot.sample_counts(db).unwrap();
    assert_eq!(samples.local(), 1);
    assert_eq!(samples.cumulative_after(), 1);
    assert_eq!(samples.cause(), 1);
    assert_eq!(samples.incoming(), 1);
    assert_eq!(samples.calibration_local(), 1);
    assert_eq!(samples.calibration_cumulative_after(), 1);
    assert_eq!(samples.calibration_previous_cumulative(), 1);
    assert_eq!(samples.online(), 0);
    assert_eq!(
        snapshot
            .calibration_counts(db, CalibrationPopulation::PreviousCumulative)
            .unwrap()
            .iter()
            .sum::<u64>(),
        1
    );

    let availability = snapshot.score_availability(db).unwrap();
    assert!(availability.matrix_derived());
    assert!(!availability.calibrated_online());
    assert!(!snapshot.score_availability(parse).unwrap().matrix_derived());
    assert_eq!(snapshot.completion_counts(db).unwrap().error(), 1);
    assert_eq!(snapshot.diagnostics().total(), 0);
}

#[test]
fn delta_is_pure_checked_subtraction_for_an_incident_window() {
    let mut cookies: u64 = FIRST_REGISTRY_COOKIE;
    let mut builder = Tracegrams::builder(&mut cookies);
    let first = builder.stage("first").unwrap();
    let second = builder.stage("second").unwrap();
    let mut tracegrams = builder.build().unwrap();
    let before = tracegrams.snapshot_relaxed();

    let mut context = tracegrams.start_manual();
    tracegrams.record_elapsed(&mut context, first, Duration::from_nanos(50).as_nanos());
    tracegrams.finish_manual(context, second, Duration::from_nanos(75).as_nanos(), Outcome::Success);
    let after = tracegrams.snapshot_relaxed();
    let window = after.delta(&before).unwrap();

    assert_eq!(window.consistency(), Consistency::Relaxed);
    assert_eq!(
        window.online_delta_availability(),
        OnlineDeltaAvailability::SameEpoch { epoch: 0 }
    );
    assert_eq!(window.local_counts(first).unwrap()[0], 1);
    assert_eq!(window.local_counts(second).unwrap()[0], 1);
    assert_eq!(window.cause_counts(second).unwrap()[0], 1);
    assert_eq!(window.completion_counts(second).unwrap().success(), 1);
    assert_eq!(window.sample_counts(second).unwrap().cause(), 1);
    assert!(window.score_availability(second).unwrap().matrix_derived());

    let empty = after.delta(&after).unwrap();
    assert_eq!(empty.sample_counts(first).unwrap().local(), 0);
    assert_eq!(empty.sample_counts(second).unwrap().cause(), 0);
    assert_eq!(empty.completion_counts(second).unwrap().success(), 0);
    assert_eq!(empty.diagnostics().total(), 0);
}

#[test]
fn delta_rejects_foreign_registries_and_counter_underflow() {
    let mut cookies: u64 = FIRST_REGISTRY_COOKIE;
    let mut first_builder = Tracegrams::builder(&mut cookies);
    let stage = first_builder.stage("stage").unwrap();
    let mut first = first_builder.build().unwrap();
    let empty = first.snapshot_relaxed();
    first.finish_manual(
        first.start_manual(),
        stage,
        Duration::from_nanos(50).as_nanos(),
        Outcome::Success,
    );
    let populated = first.snapshot_relaxed();

    assert!(matches!(
        empty.delta(&populated),
        Err(DeltaError::CounterUnderflow {
            earlier: 1,
            later: 0
        })
    ));

    let mut second_builder = Tracegrams::builder(&mut cookies);
    second_builder.stage("stage").unwrap();
    let mut foreign = second_builder.build().unwrap().snapshot_relaxed();
    assert!(matches!(
        populated.delta(&foreign),
        Err(DeltaError::RegistryMismatch)
    ));
}

fn two_stage_recorder(cookies: &mut u64) -> (Tracegrams, StageId, StageId) {
    let mut builder = Tracegrams::builder(cookies);
    let first = builder.stage("first").unwrap();
    let second = builder.stage("second").unwrap();
    (builder.build().unwrap(), first, second)
}

#[test]
fn cross_epoch_delta_keeps_matrices_and_discards_online_counters() {
    let mut cookies: u64 = FIRST_REGISTRY_COOKIE;
    let (mut tracegrams, first, second) = two_stage_recorder(&mut cookies);
    let online = tracegrams.inner.layout.online(second.index(), 0).unwrap();
    tracegrams.inner.counters[online] = 5;
    let earlier = tracegrams.snapshot_relaxed();

    tracegrams.inner.counters[online] = 0;
    tracegrams.inner.calibration_epoch = 1;
    tracegrams.inner.calibration_state = CalibrationState::Frozen;
    let mut context = tracegrams.start_manual();
    tracegrams.record_elapsed(&mut context, first, Duration::from_nanos(50).as_nanos());
    tracegrams.finish_manual(context, second, Duration::from_nanos(75).as_nanos(), Outcome::Success);
    let later = tracegrams.snapshot_relaxed();

    let delta = later.delta(&earlier).unwrap();
    assert_eq!(
        delta.online_delta_availability(),
        OnlineDeltaAvailability::EpochMismatch {
            earlier: 0,
            later: 1,
        }
    );
    assert_eq!(sum(delta.cause_counts(second).unwrap()), 1);
    assert_eq!(delta.sample_counts(second).unwrap().online(), 0);
    assert!(
        !delta
            .score_availability(second)
            .unwrap()
            .calibrated_online()
    );
}

#[test]
fn every_diagnostic_counter_is_snapshot_visible() {
    let mut cookies: u64 = FIRST_REGISTRY_COOKIE;
    let (mut tracegrams, _, _) = two_stage_recorder(&mut cookies);
    let diagnostics = [
        DiagnosticCounter::InvalidStageMarks,
        DiagnosticCounter::InvalidContextMarks,
        DiagnosticCounter::NonMonotonicMarks,
        DiagnosticCounter::ClockRegressions,
        DiagnosticCounter::LatencyOverflows,
        DiagnosticCounter::CumulativeOverflows,
        DiagnosticCounter::CalibrationSamplesSkippedWhileFreezing,
        DiagnosticCounter::OnlineSamplesSkippedMissingPreviousThreshold,
    ];
    for (offset, diagnostic) in diagnostics.into_iter().enumerate() {
        let index = tracegrams.inner.layout.diagnostic(diagnostic);
        tracegrams.inner.counters[index] = u64::try_from(offset).unwrap() + 1;
    }

    let observed = tracegrams.snapshot_relaxed().diagnostics();
    assert_eq!(observed.invalid_stage_marks(), 1);
    assert_eq!(observed.invalid_context_marks(), 2);
    assert_eq!(observed.non_monotonic_marks(), 3);
    assert_eq!(observed.clock_regressions(), 4);
    assert_eq!(observed.latency_overflows(), 5);
    assert_eq!(observed.cumulative_overflows(), 6);
    assert_eq!(observed.calibration_samples_skipped_while_freezing(), 7);
    assert_eq!(
        observed.online_samples_skipped_missing_previous_threshold(),
        8
    );
    assert_eq!(observed.total(), 36);
}
