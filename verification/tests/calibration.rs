//! Calibration collection, readiness, and explicit-freeze contract tests.

use std::time::Duration;

use tracegrams::bucket::bucketize;
use tracegrams::freeze::readiness_from_scans;
use tracegrams::init::FIRST_REGISTRY_COOKIE;
use tracegrams::layout::{CalibrationDistribution, ONLINE_COUNTERS_PER_STAGE};
use tracegrams::{
    CalibrationConsistency, CalibrationPopulation, CalibrationState, CalibrationTerminal,
    CalibrationThresholdAvailability, FreezeCriteria, FreezeError, PopulationReadiness, Tracegrams,
};

#[test]
fn all_stage_freeze_publishes_one_complete_relaxed_bundle() {
    let mut cookies: u64 = FIRST_REGISTRY_COOKIE;
    let mut builder = Tracegrams::builder(&mut cookies);
    let entry = builder.stage("entry").unwrap();
    let db = builder.stage("db").unwrap();
    let mut tracegrams = builder.build().unwrap();

    for _ in 0..3 {
        let mut context = tracegrams.start_manual();
        tracegrams.record_elapsed(&mut context, entry, Duration::from_nanos(100).as_nanos());
        tracegrams.record_elapsed(&mut context, db, Duration::from_nanos(200).as_nanos());
    }

    let readiness = tracegrams.calibration_readiness(3);
    assert!(readiness.is_ready());
    assert!(matches!(
        readiness.stage(entry).unwrap().previous_cumulative(),
        PopulationReadiness::AbsentNoPredecessor
    ));
    assert!(matches!(
        readiness.stage(db).unwrap().previous_cumulative(),
        PopulationReadiness::Ready {
            samples: 3,
            minimum: 3
        }
    ));

    let report = tracegrams
        .try_freeze_calibration(FreezeCriteria::all_stages(3))
        .unwrap();
    assert_eq!(report.epoch(), Some(1));
    assert_eq!(report.consistency(), CalibrationConsistency::Relaxed);
    assert_eq!(report.stages().len(), 2);
    let entry_report = report.stage(entry).unwrap();
    assert_eq!(
        entry_report.local().population(),
        CalibrationPopulation::Local
    );
    assert_eq!(entry_report.local().samples(), 3);
    assert_eq!(
        entry_report.local().availability(),
        CalibrationThresholdAvailability::Available
    );
    let estimate = entry_report.local().estimate().unwrap();
    assert_eq!(estimate.rank(), 3);
    assert_eq!(estimate.samples(), 3);
    assert_eq!(estimate.lower_bound(), Some(100));
    assert_eq!(estimate.upper_bound(), Some(108));
    assert_eq!(estimate.value(), Some(104));
    assert_eq!(estimate.terminal(), CalibrationTerminal::Finite);
    assert_eq!(
        entry_report.previous_cumulative().availability(),
        CalibrationThresholdAvailability::AbsentNoPredecessor
    );
    assert_eq!(entry_report.previous_cumulative().samples(), 0);
    assert_eq!(entry_report.previous_cumulative().estimate(), None);

    let frozen = tracegrams.snapshot_relaxed();
    assert_eq!(frozen.calibration_state(), CalibrationState::Frozen);
    assert_eq!(frozen.calibration_epoch(), 1);
    assert_eq!(frozen.calibration_report(), Some(&report));

    let before = frozen.sample_counts(entry).unwrap().calibration_local();
    tracegrams.record_elapsed(
        &mut tracegrams.start_manual(),
        entry,
        Duration::from_nanos(300).as_nanos(),
    );
    let after = tracegrams.snapshot_relaxed();
    assert_eq!(
        after.sample_counts(entry).unwrap().calibration_local(),
        before
    );
    assert_eq!(
        after
            .diagnostics()
            .calibration_samples_skipped_while_freezing(),
        0
    );
}

#[test]
fn previous_population_readiness_distinguishes_absent_insufficient_and_ready() {
    let mut cookies: u64 = FIRST_REGISTRY_COOKIE;
    let mut builder = Tracegrams::builder(&mut cookies);
    let first = builder.stage("first").unwrap();
    let destination = builder.stage("destination").unwrap();
    let mut tracegrams = builder.build().unwrap();

    for _ in 0..3 {
        tracegrams.record_elapsed(
            &mut tracegrams.start_manual(),
            destination,
            Duration::from_nanos(200).as_nanos(),
        );
    }
    assert_eq!(
        tracegrams
            .calibration_readiness(3)
            .stage(destination)
            .unwrap()
            .previous_cumulative(),
        PopulationReadiness::AbsentNoPredecessor
    );

    let mut context = tracegrams.start_manual();
    tracegrams.record_elapsed(&mut context, first, Duration::from_nanos(100).as_nanos());
    tracegrams.record_elapsed(&mut context, destination, Duration::from_nanos(200).as_nanos());
    let one_previous = tracegrams.calibration_readiness(3);
    assert_eq!(
        one_previous
            .stage(destination)
            .unwrap()
            .previous_cumulative(),
        PopulationReadiness::Insufficient {
            samples: 1,
            minimum: 3,
        }
    );
    assert!(matches!(
        tracegrams.try_freeze_calibration(FreezeCriteria::all_stages(3)),
        Err(FreezeError::NotReady { .. })
    ));
    assert_eq!(
        tracegrams.snapshot_relaxed().calibration_state(),
        CalibrationState::Collecting
    );

    for _ in 0..2 {
        let mut context = tracegrams.start_manual();
        tracegrams.record_elapsed(&mut context, first, Duration::from_nanos(100).as_nanos());
        tracegrams.record_elapsed(&mut context, destination, Duration::from_nanos(200).as_nanos());
    }
    assert_eq!(
        tracegrams
            .calibration_readiness(3)
            .stage(destination)
            .unwrap()
            .previous_cumulative(),
        PopulationReadiness::Ready {
            samples: 3,
            minimum: 3,
        }
    );
}

#[test]
fn selected_stage_freeze_leaves_excluded_stages_uncalibrated() {
    let mut cookies: u64 = FIRST_REGISTRY_COOKIE;
    let mut builder = Tracegrams::builder(&mut cookies);
    let entry = builder.stage("entry").unwrap();
    let db = builder.stage("db").unwrap();
    let rare = builder.stage("rare").unwrap();
    let mut tracegrams = builder.build().unwrap();

    for _ in 0..2 {
        let mut context = tracegrams.start_manual();
        tracegrams.record_elapsed(&mut context, entry, Duration::from_nanos(100).as_nanos());
        tracegrams.record_elapsed(&mut context, db, Duration::from_nanos(200).as_nanos());
    }
    assert!(!tracegrams.calibration_readiness(2).is_ready());

    let report = tracegrams
        .try_freeze_calibration(FreezeCriteria::for_stages(&[entry, db], 2))
        .unwrap();
    assert!(report.stage(entry).is_some());
    assert_eq!(
        report
            .stage(entry)
            .unwrap()
            .previous_cumulative()
            .availability(),
        CalibrationThresholdAvailability::AbsentNoPredecessor
    );
    assert!(report.stage(db).is_some());
    assert!(report.stage(rare).is_none());
    assert_eq!(
        tracegrams.snapshot_relaxed().calibration_report().unwrap(),
        &report
    );
    assert_eq!(
        tracegrams.try_freeze_calibration(FreezeCriteria::all_stages(2)),
        Err(FreezeError::AlreadyFrozen { epoch: 1 })
    );
}

#[test]
fn lower_terminal_failure_retains_a_report_and_allows_finite_retry() {
    let mut cookies: u64 = FIRST_REGISTRY_COOKIE;
    let mut builder = Tracegrams::builder(&mut cookies);
    let stage = builder.stage("stage").unwrap();
    let mut tracegrams = builder.build().unwrap();
    tracegrams.record_elapsed(
        &mut tracegrams.start_manual(),
        stage,
        Duration::from_nanos(50).as_nanos(),
    );

    let error = tracegrams
        .try_freeze_calibration(FreezeCriteria::all_stages(1))
        .unwrap_err();
    let FreezeError::CalibrationRangeInsufficient {
        stage: failed_stage,
        population,
        terminal,
        report,
    } = error
    else {
        panic!("expected a typed lower-terminal failure");
    };
    assert_eq!(failed_stage, stage);
    assert_eq!(population, CalibrationPopulation::Local);
    assert_eq!(terminal, CalibrationTerminal::Lower);
    assert_eq!(report.epoch(), None);
    let estimate = report.stage(stage).unwrap().local().estimate().unwrap();
    assert_eq!(estimate.terminal(), CalibrationTerminal::Lower);
    assert_eq!(estimate.lower_bound(), None);
    assert_eq!(estimate.upper_bound(), Some(100));
    assert_eq!(estimate.value(), None);
    assert_eq!(estimate.max_relative_error(), None);
    let failed_snapshot = tracegrams.snapshot_relaxed();
    assert_eq!(
        failed_snapshot.calibration_state(),
        CalibrationState::Collecting
    );
    assert_eq!(failed_snapshot.calibration_epoch(), 0);
    assert_eq!(failed_snapshot.calibration_report(), None);

    for _ in 0..100 {
        tracegrams.record_elapsed(
            &mut tracegrams.start_manual(),
            stage,
            Duration::from_nanos(100).as_nanos(),
        );
    }
    let retry = tracegrams
        .try_freeze_calibration(FreezeCriteria::all_stages(1))
        .unwrap();
    let estimate = retry.stage(stage).unwrap().local().estimate().unwrap();
    assert_eq!(estimate.terminal(), CalibrationTerminal::Finite);
    assert!(estimate.value().is_some());
    assert!(estimate.max_relative_error().is_some());
}

#[test]
fn upper_terminal_failure_can_retry_with_an_amended_selector() {
    let mut cookies: u64 = FIRST_REGISTRY_COOKIE;
    let mut builder = Tracegrams::builder(&mut cookies);
    let stable = builder.stage("stable").unwrap();
    let out_of_range = builder.stage("out-of-range").unwrap();
    let mut tracegrams = builder.build().unwrap();
    let mut context = tracegrams.start_manual();
    tracegrams.record_elapsed(&mut context, stable, Duration::from_nanos(100).as_nanos());
    tracegrams.record_elapsed(&mut context, out_of_range, Duration::from_secs(10).as_nanos());

    assert!(matches!(
        tracegrams.try_freeze_calibration(FreezeCriteria::all_stages(1)),
        Err(FreezeError::CalibrationRangeInsufficient {
            stage,
            terminal: CalibrationTerminal::Upper,
            ..
        }) if stage == out_of_range
    ));
    assert_eq!(
        tracegrams.snapshot_relaxed().calibration_state(),
        CalibrationState::Collecting
    );

    let report = tracegrams
        .try_freeze_calibration(FreezeCriteria::for_stages(&[stable], 1))
        .unwrap();
    assert!(report.stage(stable).is_some());
    assert!(report.stage(out_of_range).is_none());
}

#[test]
fn invalid_selected_stage_criteria_are_typed_and_do_not_change_state() {
    let mut cookies: u64 = FIRST_REGISTRY_COOKIE;
    let mut builder = Tracegrams::builder(&mut cookies);
    let stage = builder.stage("stage").unwrap();
    let mut tracegrams = builder.build().unwrap();
    let mut foreign_builder = Tracegrams::builder(&mut cookies);
    let mut foreign = foreign_builder.stage("foreign").unwrap();

    assert_eq!(
        tracegrams.try_freeze_calibration(FreezeCriteria::for_stages(&[], 1)),
        Err(FreezeError::NoStagesSelected)
    );
    assert_eq!(
        tracegrams.try_freeze_calibration(FreezeCriteria::for_stages(&[foreign], 1)),
        Err(FreezeError::InvalidStageSelection { stage: foreign })
    );
    assert_eq!(
        tracegrams.try_freeze_calibration(FreezeCriteria::for_stages(&[stage, stage], 1)),
        Err(FreezeError::DuplicateStageSelection { stage })
    );
    let snapshot = tracegrams.snapshot_relaxed();
    assert_eq!(snapshot.calibration_state(), CalibrationState::Collecting);
    assert_eq!(snapshot.calibration_epoch(), 0);
    assert_eq!(snapshot.calibration_report(), None);
    assert_eq!(snapshot.diagnostics().total(), 0);
}

#[test]
fn revalidation_rejects_an_absent_to_insufficient_previous_population_race() {
    let mut cookies: u64 = FIRST_REGISTRY_COOKIE;
    let mut builder = Tracegrams::builder(&mut cookies);
    let _first = builder.stage("first").unwrap();
    let destination = builder.stage("destination").unwrap();
    let mut tracegrams = builder.build().unwrap();
    for _ in 0..2 {
        tracegrams.record_elapsed(
            &mut tracegrams.start_manual(),
            destination,
            Duration::from_nanos(200).as_nanos(),
        );
    }
    let stages = [destination];
    let initial = readiness_from_scans(&tracegrams.scan_calibration(&stages), 2);
    assert!(initial.is_ready());
    assert_eq!(
        initial.stage(destination).unwrap().previous_cumulative(),
        PopulationReadiness::AbsentNoPredecessor
    );

    tracegrams.inner.calibration_state = CalibrationState::Freezing;
    let previous_bucket = bucketize(100, &tracegrams.inner.calibration_bounds);
    let previous = tracegrams
        .inner
        .layout
        .calibration(
            destination.index(),
            CalibrationDistribution::PreviousCumulative,
            previous_bucket,
        )
        .unwrap();
    tracegrams.inner.increment(previous);

    assert!(matches!(
        tracegrams.freeze_after_claim(&stages, 2),
        Err(FreezeError::NotReady { readiness })
            if readiness.stage(destination).unwrap().previous_cumulative()
                == PopulationReadiness::Insufficient { samples: 1, minimum: 2 }
    ));
    assert_eq!(
        tracegrams.inner.calibration_state,
        CalibrationState::Collecting
    );
    assert!(
        tracegrams
            .inner
            .frozen_calibration
            .iter()
            .all(|published| published.is_none())
    );
}

#[test]
fn successful_freeze_resets_every_online_counter_before_publication() {
    let mut cookies: u64 = FIRST_REGISTRY_COOKIE;
    let mut builder = Tracegrams::builder(&mut cookies);
    let stage = builder.stage("stage").unwrap();
    let mut tracegrams = builder.build().unwrap();
    tracegrams.record_elapsed(
        &mut tracegrams.start_manual(),
        stage,
        Duration::from_nanos(100).as_nanos(),
    );
    for counter in 0..ONLINE_COUNTERS_PER_STAGE {
        let index = tracegrams
            .inner
            .layout
            .online(stage.index(), counter)
            .unwrap();
        tracegrams.inner.counters[index] = u64::try_from(counter).unwrap() + 1;
    }
    assert!(
        tracegrams
            .snapshot_relaxed()
            .sample_counts(stage)
            .unwrap()
            .online()
            > 0
    );

    tracegrams
        .try_freeze_calibration(FreezeCriteria::all_stages(1))
        .unwrap();

    assert_eq!(
        tracegrams
            .snapshot_relaxed()
            .sample_counts(stage)
            .unwrap()
            .online(),
        0
    );
}
