//! Properties of the library as a whole, on concrete values.

use tracegrams::calibration::FreezeSelection;
use tracegrams::init::{FIRST_REGISTRY_COOKIE, MAX_REGISTRY_COOKIE};
use tracegrams::layout::CalibrationDistribution;
use tracegrams::recorder::increment_counter;
use tracegrams::scores::{
    score_lift, score_probability, threshold, BucketThreshold, MatrixScore, Threshold,
};
use tracegrams::{
    CalibrationPopulation, CalibrationState, FreezeCriteria, FreezeError, ManualCtx, Outcome,
    PopulationReadiness, Ratio, ScoreStatus, StageId, Tracegrams,
};

fn three_stage_recorder(cookies: &mut u64) -> (Tracegrams, [StageId; 3]) {
    let mut builder = Tracegrams::builder(cookies);
    let stages = [
        builder.stage("a").unwrap(),
        builder.stage("b").unwrap(),
        builder.stage("c").unwrap(),
    ];
    builder.tail_quantile(0.5_f64.to_bits()).unwrap();
    (builder.build().unwrap(), stages)
}

fn request(tracegrams: &mut Tracegrams, marks: &[(StageId, u128)]) -> ManualCtx {
    let mut context = tracegrams.start_manual();
    for (stage, elapsed_ns) in marks {
        tracegrams.record_elapsed(&mut context, *stage, *elapsed_ns);
    }
    context
}

#[test]
fn interleaved_requests_sum_into_the_same_counters() {
    let mut cookies: u64 = FIRST_REGISTRY_COOKIE;
    let (mut sequential, stages) = three_stage_recorder(&mut cookies);
    request(&mut sequential, &[(stages[0], 150), (stages[2], 900)]);
    request(&mut sequential, &[(stages[1], 70_000), (stages[2], 5)]);

    let (mut interleaved, stages) = three_stage_recorder(&mut cookies);
    let mut first = interleaved.start_manual();
    let mut second = interleaved.start_manual();
    interleaved.record_elapsed(&mut second, stages[1], 70_000);
    interleaved.record_elapsed(&mut first, stages[0], 150);
    interleaved.record_elapsed(&mut second, stages[2], 5);
    interleaved.record_elapsed(&mut first, stages[2], 900);

    assert_eq!(sequential.inner.counters, interleaved.inner.counters);
}

#[test]
fn counters_count_the_marks_that_touch_them() {
    let mut cookies: u64 = FIRST_REGISTRY_COOKIE;
    let (mut tracegrams, stages) = three_stage_recorder(&mut cookies);
    for _ in 0..7 {
        request(&mut tracegrams, &[(stages[0], 150), (stages[1], 150)]);
    }
    let snapshot = tracegrams.snapshot_relaxed();
    assert_eq!(snapshot.local_counts(stages[0]).unwrap()[2], 7);
    assert_eq!(snapshot.cumulative_counts(stages[0]).unwrap()[2], 7);
    assert_eq!(snapshot.cause_counts(stages[1]).unwrap()[2 * 64 + 2], 7);
    let samples = snapshot.sample_counts(stages[1]).unwrap();
    assert_eq!(samples.local(), samples.cumulative_after());
    assert_eq!(samples.cause(), samples.incoming());
    assert_eq!(samples.cause(), 7);
    assert_eq!(samples.calibration_previous_cumulative(), 7);
}

#[test]
fn windows_compose_and_add_back() {
    let mut cookies: u64 = FIRST_REGISTRY_COOKIE;
    let (mut tracegrams, stages) = three_stage_recorder(&mut cookies);
    let first = tracegrams.snapshot_relaxed();
    request(&mut tracegrams, &[(stages[0], 150)]);
    let second = tracegrams.snapshot_relaxed();
    request(&mut tracegrams, &[(stages[0], 150), (stages[1], 4_000)]);
    let third = tracegrams.snapshot_relaxed();

    let whole = third.delta(&first).unwrap().snapshot.counters;
    let head = second.delta(&first).unwrap().snapshot.counters;
    let tail = third.delta(&second).unwrap().snapshot.counters;
    for index in 0..whole.len() {
        assert_eq!(whole[index], head[index] + tail[index]);
        assert_eq!(
            second.counters[index] + tail[index],
            third.counters[index]
        );
    }
    assert!(third
        .delta(&third)
        .unwrap()
        .snapshot
        .counters
        .iter()
        .all(|count| *count == 0));
}

#[test]
fn a_scan_after_a_freeze_has_a_delta_to_one_before_it() {
    let mut cookies: u64 = FIRST_REGISTRY_COOKIE;
    let (mut tracegrams, stages) = three_stage_recorder(&mut cookies);
    request(&mut tracegrams, &[(stages[0], 150)]);
    let online = tracegrams.inner.layout.online(0, 3).unwrap();
    tracegrams.inner.counters[online] = 9;
    let before = tracegrams.snapshot_relaxed();
    tracegrams
        .try_freeze_calibration(FreezeCriteria::for_stages(&[stages[0]], 1))
        .unwrap();
    let after = tracegrams.snapshot_relaxed();
    assert_eq!(after.counters[online], 0);
    let window = after.delta(&before).unwrap();
    assert_eq!(window.sample_counts(stages[0]).unwrap().online(), 0);
}

#[test]
fn failed_freezes_leave_the_recorder_as_it_was() {
    let mut cookies: u64 = FIRST_REGISTRY_COOKIE;
    let (mut tracegrams, stages) = three_stage_recorder(&mut cookies);
    request(&mut tracegrams, &[(stages[0], 50)]);
    let counters = tracegrams.inner.counters.clone();

    for criteria in [
        FreezeCriteria::all_stages(1),
        FreezeCriteria::for_stages(&[], 1),
        FreezeCriteria::for_stages(&[stages[0], stages[0]], 1),
        FreezeCriteria::for_stages(&[stages[0]], 1),
        FreezeCriteria::for_stages(&[stages[0]], 2),
    ] {
        assert!(tracegrams.try_freeze_calibration(criteria).is_err());
        assert_eq!(tracegrams.inner.counters, counters);
        assert_eq!(
            tracegrams.inner.calibration_state,
            CalibrationState::Collecting
        );
        assert!(tracegrams
            .inner
            .frozen_calibration
            .iter()
            .all(|published| published.is_none()));
    }
}

#[test]
fn unrankable_totals_are_reported_with_their_population() {
    let mut cookies: u64 = FIRST_REGISTRY_COOKIE;
    let (mut tracegrams, stages) = three_stage_recorder(&mut cookies);
    request(&mut tracegrams, &[(stages[0], 150)]);
    for bucket in [5, 6] {
        let index = tracegrams
            .inner
            .layout
            .calibration(0, CalibrationDistribution::CumulativeAfter, bucket)
            .unwrap();
        tracegrams.inner.counters[index] = u64::MAX;
    }
    assert_eq!(
        tracegrams.try_freeze_calibration(FreezeCriteria::for_stages(&[stages[0]], 1)),
        Err(FreezeError::CalibrationArithmeticOverflow {
            stage: stages[0],
            population: CalibrationPopulation::CumulativeAfter,
        })
    );
    assert_eq!(
        tracegrams.inner.calibration_state,
        CalibrationState::Collecting
    );
}

#[test]
fn a_freeze_in_progress_refuses_another_and_skips_samples() {
    let mut cookies: u64 = FIRST_REGISTRY_COOKIE;
    let (mut tracegrams, stages) = three_stage_recorder(&mut cookies);
    tracegrams.inner.calibration_state = CalibrationState::Freezing;
    assert_eq!(
        tracegrams.try_freeze_calibration(FreezeCriteria::all_stages(1)),
        Err(FreezeError::AlreadyFreezing)
    );
    request(&mut tracegrams, &[(stages[0], 150), (stages[1], 150)]);
    let snapshot = tracegrams.snapshot_relaxed();
    assert_eq!(snapshot.calibration_state(), CalibrationState::Freezing);
    assert_eq!(snapshot.calibration_epoch(), 0);
    assert_eq!(snapshot.calibration_report(), None);
    assert_eq!(
        snapshot
            .diagnostics()
            .calibration_samples_skipped_while_freezing(),
        2
    );
    let samples = snapshot.sample_counts(stages[1]).unwrap();
    assert_eq!(samples.local(), 1);
    assert_eq!(samples.calibration_local(), 0);
}

#[test]
fn selections_are_reported_in_registration_order() {
    let mut cookies: u64 = FIRST_REGISTRY_COOKIE;
    let (mut tracegrams, stages) = three_stage_recorder(&mut cookies);
    request(
        &mut tracegrams,
        &[(stages[0], 150), (stages[1], 150), (stages[2], 150)],
    );
    let criteria = FreezeCriteria::for_stages(&[stages[2], stages[0]], 1);
    assert_eq!(criteria.minimum_samples(), 1);
    assert_eq!(
        criteria.selection,
        FreezeSelection::Selected(vec![stages[2], stages[0]])
    );
    assert_eq!(
        tracegrams.validate_selection(criteria.clone()),
        Ok(vec![stages[0], stages[2]])
    );
    let report = tracegrams.try_freeze_calibration(criteria).unwrap();
    let order: Vec<StageId> = report.stages().iter().map(|entry| entry.stage()).collect();
    assert_eq!(order, [stages[0], stages[2]]);
    assert_eq!(tracegrams.frozen_calibration_report(), Some(report));
}

#[test]
fn readiness_counts_each_population() {
    let mut cookies: u64 = FIRST_REGISTRY_COOKIE;
    let (mut tracegrams, stages) = three_stage_recorder(&mut cookies);
    request(&mut tracegrams, &[(stages[0], 150), (stages[1], 150)]);
    let readiness = tracegrams.calibration_readiness(1);
    assert_eq!(readiness.minimum_samples(), 1);
    assert_eq!(readiness.stages().len(), 3);
    assert!(readiness.stage(stages[0]).unwrap().is_ready());
    assert!(readiness.stage(stages[1]).unwrap().is_ready());
    let absent = readiness.stage(stages[2]).unwrap();
    assert_eq!(
        absent.local(),
        PopulationReadiness::Insufficient {
            samples: 0,
            minimum: 1
        }
    );
    assert_eq!(absent.local().samples(), 0);
    assert!(!absent.cumulative_after().permits_freeze());
    assert!(absent.previous_cumulative().permits_freeze());
    assert!(!readiness.is_ready());
    assert!(!tracegrams.calibration_readiness(0).is_ready());
}

#[test]
fn tail_predicates_include_their_threshold() {
    let mut cookies: u64 = FIRST_REGISTRY_COOKIE;
    let (mut tracegrams, stages) = three_stage_recorder(&mut cookies);
    request(&mut tracegrams, &[(stages[0], 1_000), (stages[1], 1_000)]);
    let report = tracegrams
        .try_freeze_calibration(FreezeCriteria::for_stages(&[stages[0], stages[1]], 1))
        .unwrap();
    let entry = report.stage(stages[1]).unwrap();
    let local = entry.local().estimate().unwrap().value().unwrap();
    let previous = entry
        .previous_cumulative()
        .estimate()
        .unwrap()
        .value()
        .unwrap();
    let after = entry.cumulative_after().estimate().unwrap().value().unwrap();

    request(
        &mut tracegrams,
        &[
            (stages[0], u128::from(previous)),
            (stages[1], u128::from(local)),
        ],
    );
    request(
        &mut tracegrams,
        &[
            (stages[0], u128::from(previous - 1)),
            (stages[1], u128::from(local - 1)),
        ],
    );
    let snapshot = tracegrams.snapshot_relaxed();
    let cells = snapshot.online_counts(stages[1]).unwrap();
    let reached = usize::from(previous + local >= after);
    let missed = usize::from(previous + local - 2 >= after);
    assert_eq!(cells[4 + 4 + 2 + reached], 1);
    assert_eq!(cells[4 + missed], 1);
    assert_eq!(cells.iter().sum::<u64>(), 2);
}

#[test]
fn contexts_from_before_a_freeze_are_not_classified() {
    let mut cookies: u64 = FIRST_REGISTRY_COOKIE;
    let (mut tracegrams, stages) = three_stage_recorder(&mut cookies);
    let mut stale = request(&mut tracegrams, &[(stages[0], 1_000)]);
    request(&mut tracegrams, &[(stages[1], 1_000)]);
    tracegrams
        .try_freeze_calibration(FreezeCriteria::for_stages(&[stages[0], stages[1]], 1))
        .unwrap();
    let before = tracegrams.snapshot_relaxed();
    tracegrams.record_elapsed(&mut stale, stages[1], 1_000);
    let window = tracegrams.snapshot_relaxed().delta(&before).unwrap();
    let samples = window.sample_counts(stages[1]).unwrap();
    assert_eq!(samples.local(), 1);
    assert_eq!(samples.online(), 0);
    assert_eq!(samples.calibration_local(), 0);
    assert_eq!(window.diagnostics().total(), 0);
}

#[test]
fn marks_of_stages_outside_a_layout_touch_no_stage_counter() {
    let mut cookies: u64 = FIRST_REGISTRY_COOKIE;
    let (mut tracegrams, stages) = three_stage_recorder(&mut cookies);
    let outside = StageId::new(stages[0].cookie(), 9);
    let mut context = tracegrams.start_manual();
    tracegrams.record_elapsed(&mut context, outside, 150);
    assert!(tracegrams.inner.counters.iter().all(|count| *count == 0));
    let snapshot = tracegrams.snapshot_relaxed();
    assert_eq!(snapshot.stage_name(outside), None);
    assert_eq!(snapshot.local_counts(outside), None);
    assert_eq!(snapshot.sample_counts(outside), None);
    assert_eq!(snapshot.matrix_scores(outside), None);
}

#[test]
fn exhausted_cookies_stay_exhausted() {
    let mut source: u64 = MAX_REGISTRY_COOKIE;
    let mut last = Tracegrams::builder(&mut source);
    let mut none = Tracegrams::builder(&mut source);
    assert!(last.stage("stage").is_ok());
    assert!(none.stage("stage").is_err());
    assert_eq!(source, MAX_REGISTRY_COOKIE + 1);
}

#[test]
fn counters_stay_at_their_largest_value() {
    let mut counter: u64 = u64::MAX - 1;
    increment_counter(&mut counter);
    assert_eq!(counter, u64::MAX);
    increment_counter(&mut counter);
    assert_eq!(counter, u64::MAX);
}

#[test]
fn scores_keep_exact_terms() {
    let half = score_probability(3, 6);
    assert_eq!(half.status, ScoreStatus::Available);
    assert_eq!(
        half.value,
        Some(Ratio {
            numerator: 3,
            denominator: 6
        })
    );
    assert_eq!(
        score_probability(0, 0).status,
        ScoreStatus::ZeroDenominator
    );
    assert_eq!(
        score_probability(7, 6).status,
        ScoreStatus::InconsistentSnapshot
    );
    let lift = score_lift(5, 10, 10, 90);
    assert_eq!((lift.numerator, lift.denominator), (450, 100));
    assert_eq!(score_lift(1, 0, 1, 1).status, ScoreStatus::ZeroDenominator);
    let overflow = MatrixScore::lift(u128::MAX, 1, 1, 2);
    assert_eq!(overflow.status(), ScoreStatus::ArithmeticOverflow);
    assert_eq!((overflow.numerator(), overflow.denominator()), (0, 0));
    assert_eq!(
        MatrixScore::lift(1, 2, u128::MAX, 1).status(),
        ScoreStatus::ArithmeticOverflow
    );
}

#[test]
fn matrix_thresholds_rank_rows_and_columns() {
    let mut counts = vec![0_u64; 64 * 64];
    counts[3 * 64 + 10] = 9;
    counts[40 * 64 + 20] = 1;
    let bits = 0.95_f64.to_bits();
    assert_eq!(
        threshold(&counts, true, bits),
        Threshold::Available(BucketThreshold {
            bucket: 40,
            rank: 10,
            samples: 10
        })
    );
    assert_eq!(
        threshold(&counts, false, 0.5_f64.to_bits()),
        Threshold::Available(BucketThreshold {
            bucket: 10,
            rank: 5,
            samples: 10
        })
    );
    counts[3 * 64 + 11] = u64::MAX;
    assert_eq!(threshold(&counts, true, bits), Threshold::ArithmeticOverflow);
    assert_eq!(
        threshold(&vec![0; 64 * 64], true, bits),
        Threshold::NoSamples
    );
}

#[test]
fn outcomes_are_counted_where_a_request_ends() {
    let mut cookies: u64 = FIRST_REGISTRY_COOKIE;
    let (mut tracegrams, stages) = three_stage_recorder(&mut cookies);
    let context = request(&mut tracegrams, &[(stages[0], 10)]);
    tracegrams.finish_manual(context, stages[1], 10, Outcome::Error);
    let context = tracegrams.start_manual();
    tracegrams.finish_manual(context, stages[1], 10, Outcome::Success);
    let snapshot = tracegrams.snapshot_relaxed();
    let ended = snapshot.completion_counts(stages[1]).unwrap();
    assert_eq!((ended.success(), ended.error()), (1, 1));
    let passed = snapshot.completion_counts(stages[0]).unwrap();
    assert_eq!((passed.success(), passed.error()), (0, 0));
}

#[test]
fn samples_count_the_accepted_marks_of_a_history() {
    let mut cookies: u64 = FIRST_REGISTRY_COOKIE;
    let (mut tracegrams, stages) = three_stage_recorder(&mut cookies);
    request(&mut tracegrams, &[(stages[0], 150), (stages[1], 900)]);
    request(&mut tracegrams, &[(stages[1], 150), (stages[0], 900)]);
    assert!(tracegrams
        .try_freeze_calibration(FreezeCriteria::all_stages(1))
        .is_err());
    request(&mut tracegrams, &[(stages[0], 150), (stages[2], 900)]);
    tracegrams
        .try_freeze_calibration(FreezeCriteria::all_stages(1))
        .unwrap();
    request(
        &mut tracegrams,
        &[(stages[0], 150), (stages[1], 150), (stages[2], 150)],
    );

    let snapshot = tracegrams.snapshot_relaxed();
    for (stage, reached, followed, collected, preceded) in [
        (stages[0], 3, 0, 2, 0),
        (stages[1], 3, 2, 2, 1),
        (stages[2], 2, 2, 1, 1),
    ] {
        let samples = snapshot.sample_counts(stage).unwrap();
        assert_eq!(samples.local(), reached);
        assert_eq!(samples.cumulative_after(), reached);
        assert_eq!(samples.cause(), followed);
        assert_eq!(samples.incoming(), followed);
        assert_eq!(samples.calibration_local(), collected);
        assert_eq!(samples.calibration_cumulative_after(), collected);
        assert_eq!(samples.calibration_previous_cumulative(), preceded);
    }
}
