//! Checkpoint recording on a two-stage recorder.

use std::time::Duration;

use tracegrams::bucket::{
    bucketize, calibration_bounds, default_bounds, BUCKETS, CALIBRATION_BUCKETS,
};
use tracegrams::checkpoint::PreviousMark;
use tracegrams::init::{RegistryCookie, FIRST_REGISTRY_COOKIE};
use tracegrams::layout::{CalibrationDistribution, DiagnosticCounter, FixedStorageLayout};
use tracegrams::{ManualCtx, Outcome, StageId, Tracegrams};

fn two_stage_recorder(cookies: &mut u64) -> (Tracegrams, StageId, StageId) {
    let mut builder = Tracegrams::builder(cookies);
    let first = builder.stage("first").unwrap();
    let second = builder.stage("second").unwrap();
    (builder.build().unwrap(), first, second)
}

fn count(tracegrams: &Tracegrams, index: usize) -> u64 {
    tracegrams.inner.counters[index]
}

fn total(tracegrams: &Tracegrams, indices: impl Iterator<Item = usize>) -> u64 {
    indices.map(|index| count(tracegrams, index)).sum()
}

fn raw_counters(tracegrams: &Tracegrams) -> Vec<u64> {
    tracegrams
        .inner
        .counters
        .iter()
        .copied()
        .collect()
}

fn context_state(context: &ManualCtx) -> (u64, RegistryCookie, u16, Option<PreviousMark>) {
    (
        context.state.cumulative_ns,
        context.state.cookie,
        context.state.calibration_epoch,
        context.state.previous,
    )
}

fn assert_only_diagnostic_changed(
    tracegrams: &Tracegrams,
    before: &[u64],
    diagnostic: DiagnosticCounter,
) {
    let mut expected = before.to_vec();
    expected[tracegrams.inner.layout.diagnostic(diagnostic)] += 1;
    assert_eq!(raw_counters(tracegrams), expected);
}

#[derive(Default)]
struct ReferenceContext {
    cumulative_ns: u64,
    previous_cumulative_bucket: Option<usize>,
}

fn record_reference(
    counters: &mut [u64],
    layout: FixedStorageLayout,
    context: &mut ReferenceContext,
    stage: usize,
    local_ns: u64,
    outcome: Option<Outcome>,
) {
    let cumulative_ns = context.cumulative_ns.checked_add(local_ns).unwrap();
    let local_bucket = bucketize(local_ns, default_bounds());
    let cumulative_bucket = bucketize(cumulative_ns, default_bounds());
    counters[layout.local(stage, local_bucket).unwrap()] += 1;
    counters[layout.cumulative(stage, cumulative_bucket).unwrap()] += 1;

    if let Some(previous_bucket) = context.previous_cumulative_bucket {
        counters[layout.cause(stage, previous_bucket, local_bucket).unwrap()] += 1;
        counters[layout
            .incoming(stage, previous_bucket, cumulative_bucket)
            .unwrap()] += 1;
    }

    let calibration_local = bucketize(local_ns, calibration_bounds());
    let calibration_after = bucketize(cumulative_ns, calibration_bounds());
    counters[layout
        .calibration(stage, CalibrationDistribution::Local, calibration_local)
        .unwrap()] += 1;
    counters[layout
        .calibration(
            stage,
            CalibrationDistribution::CumulativeAfter,
            calibration_after,
        )
        .unwrap()] += 1;
    if context.previous_cumulative_bucket.is_some() {
        let calibration_previous =
            bucketize(context.cumulative_ns, calibration_bounds());
        counters[layout
            .calibration(
                stage,
                CalibrationDistribution::PreviousCumulative,
                calibration_previous,
            )
            .unwrap()] += 1;
    }
    if let Some(outcome) = outcome {
        counters[layout
            .completion(stage, matches!(outcome, Outcome::Error))
            .unwrap()] += 1;
    }

    context.cumulative_ns = cumulative_ns;
    context.previous_cumulative_bucket = Some(cumulative_bucket);
}

#[test]
fn sequential_atomic_recording_matches_the_reference_recorder() {
    let mut cookies: u64 = FIRST_REGISTRY_COOKIE;
    let mut builder = Tracegrams::builder(&mut cookies);
    let stages = [
        builder.stage("parse").unwrap(),
        builder.stage("cache").unwrap(),
        builder.stage("db").unwrap(),
    ];
    let mut tracegrams = builder.build().unwrap();
    let layout = tracegrams.inner.layout;
    let mut expected = vec![0; layout.counter_count()];

    let mut actual = tracegrams.start_manual();
    let mut reference = ReferenceContext::default();
    for (stage, elapsed) in [(0, 100), (1, 200)] {
        tracegrams.record_elapsed(&mut actual, stages[stage], Duration::from_nanos(elapsed).as_nanos());
        record_reference(&mut expected, layout, &mut reference, stage, elapsed, None);
    }
    tracegrams.finish_manual(
        actual,
        stages[2],
        Duration::from_nanos(300).as_nanos(),
        Outcome::Success,
    );
    record_reference(
        &mut expected,
        layout,
        &mut reference,
        2,
        300,
        Some(Outcome::Success),
    );

    tracegrams.finish_manual(
        tracegrams.start_manual(),
        stages[0],
        Duration::from_secs(10).as_nanos(),
        Outcome::Error,
    );
    let mut reference = ReferenceContext::default();
    record_reference(
        &mut expected,
        layout,
        &mut reference,
        0,
        10_000_000_000,
        Some(Outcome::Error),
    );

    let mut actual = tracegrams.start_manual();
    tracegrams.record_elapsed(&mut actual, stages[0], Duration::from_nanos(50).as_nanos());
    let mut reference = ReferenceContext::default();
    record_reference(&mut expected, layout, &mut reference, 0, 50, None);
    tracegrams.finish_manual(
        actual,
        stages[2],
        Duration::from_nanos(75).as_nanos(),
        Outcome::Success,
    );
    record_reference(
        &mut expected,
        layout,
        &mut reference,
        2,
        75,
        Some(Outcome::Success),
    );

    let mut actual = tracegrams.start_manual();
    tracegrams.record_elapsed(&mut actual, stages[1], Duration::from_nanos(135).as_nanos());
    let mut reference = ReferenceContext::default();
    record_reference(&mut expected, layout, &mut reference, 1, 135, None);

    assert_eq!(raw_counters(&tracegrams), expected);
}

#[test]
fn finish_only_outcome_changes_only_completion_counters() {
    let mut cookies: u64 = FIRST_REGISTRY_COOKIE;
    let (mut successful, success_stage, _) = two_stage_recorder(&mut cookies);
    successful.finish_manual(
        successful.start_manual(),
        success_stage,
        Duration::from_nanos(100).as_nanos(),
        Outcome::Success,
    );
    let (mut failed, error_stage, _) = two_stage_recorder(&mut cookies);
    failed.finish_manual(
        failed.start_manual(),
        error_stage,
        Duration::from_nanos(100).as_nanos(),
        Outcome::Error,
    );

    let success_completion = successful
        .inner
        .layout
        .completion(success_stage.index(), false)
        .unwrap();
    let error_completion = successful
        .inner
        .layout
        .completion(success_stage.index(), true)
        .unwrap();
    let successful_counters = raw_counters(&successful);
    let failed_counters = raw_counters(&failed);
    for (index, (success, error)) in
        successful_counters.iter().zip(&failed_counters).enumerate()
    {
        let expected = if index == success_completion {
            (1, 0)
        } else if index == error_completion {
            (0, 1)
        } else {
            (*success, *success)
        };
        assert_eq!((*success, *error), expected, "counter {index}");
    }
}

#[test]
fn cumulative_overflow_saturates_into_the_last_bucket() {
    let mut cookies: u64 = FIRST_REGISTRY_COOKIE;
    let (mut tracegrams, first, second) = two_stage_recorder(&mut cookies);
    let mut context = tracegrams.start_manual();

    tracegrams.record_elapsed(&mut context, first, Duration::from_nanos(u64::MAX).as_nanos());
    tracegrams.record_elapsed(&mut context, second, Duration::from_nanos(1).as_nanos());

    assert_eq!(context.state.cumulative_ns, u64::MAX);
    assert_eq!(
        count(
            &tracegrams,
            tracegrams
                .inner
                .layout
                .cumulative(second.index(), BUCKETS - 1)
                .unwrap(),
        ),
        1
    );
    assert_eq!(
        count(
            &tracegrams,
            tracegrams
                .inner
                .layout
                .incoming(second.index(), BUCKETS - 1, BUCKETS - 1)
                .unwrap(),
        ),
        1
    );
    assert_eq!(
        count(
            &tracegrams,
            tracegrams
                .inner
                .layout
                .diagnostic(DiagnosticCounter::CumulativeOverflows),
        ),
        1
    );
    assert_eq!(
        count(
            &tracegrams,
            tracegrams
                .inner
                .layout
                .diagnostic(DiagnosticCounter::LatencyOverflows),
        ),
        0
    );
}

#[test]
fn duration_and_bucket_overflow_are_total() {
    let mut cookies: u64 = FIRST_REGISTRY_COOKIE;
    let (mut tracegrams, first, _) = two_stage_recorder(&mut cookies);
    let mut context = tracegrams.start_manual();

    tracegrams.record_elapsed(&mut context, first, Duration::new(u64::MAX, 999_999_999).as_nanos());

    assert_eq!(context.state.cumulative_ns, u64::MAX);
    assert_eq!(
        count(
            &tracegrams,
            tracegrams
                .inner
                .layout
                .local(first.index(), BUCKETS - 1)
                .unwrap(),
        ),
        1
    );
    assert_eq!(
        count(
            &tracegrams,
            tracegrams
                .inner
                .layout
                .calibration(
                    first.index(),
                    CalibrationDistribution::Local,
                    CALIBRATION_BUCKETS - 1,
                )
                .unwrap(),
        ),
        1
    );
    assert_eq!(
        count(
            &tracegrams,
            tracegrams
                .inner
                .layout
                .diagnostic(DiagnosticCounter::LatencyOverflows),
        ),
        1
    );
    assert_eq!(
        count(
            &tracegrams,
            tracegrams
                .inner
                .layout
                .diagnostic(DiagnosticCounter::CumulativeOverflows),
        ),
        0
    );

    let (mut bucket_only, first, _) = two_stage_recorder(&mut cookies);
    let mut context = bucket_only.start_manual();
    bucket_only.record_elapsed(&mut context, first, Duration::from_secs(10).as_nanos());
    assert_eq!(
        count(
            &bucket_only,
            bucket_only
                .inner
                .layout
                .local(first.index(), BUCKETS - 1)
                .unwrap(),
        ),
        1
    );
    assert_eq!(
        count(
            &bucket_only,
            bucket_only
                .inner
                .layout
                .diagnostic(DiagnosticCounter::LatencyOverflows),
        ),
        0
    );
}

#[test]
fn saturated_hot_cell_stays_at_its_largest_value() {
    let mut cookies: u64 = FIRST_REGISTRY_COOKIE;
    let (mut tracegrams, first, _) = two_stage_recorder(&mut cookies);
    let bucket = bucketize(100, &tracegrams.inner.default_bounds);
    let local = tracegrams
        .inner
        .layout
        .local(first.index(), bucket)
        .unwrap();
    tracegrams.inner.counters[local] = u64::MAX;
    let mut context = tracegrams.start_manual();

    tracegrams.record_elapsed(&mut context, first, Duration::from_nanos(100).as_nanos());

    assert_eq!(count(&tracegrams, local), u64::MAX);
    let cumulative = tracegrams
        .inner
        .layout
        .cumulative(first.index(), bucket)
        .unwrap();
    assert_eq!(count(&tracegrams, cumulative), 1);
}

#[test]
fn rejected_finish_does_not_record_completion() {
    let mut cookies: u64 = FIRST_REGISTRY_COOKIE;
    let (mut tracegrams, _, _) = two_stage_recorder(&mut cookies);
    let (_, foreign, _) = two_stage_recorder(&mut cookies);
    let before = raw_counters(&tracegrams);

    tracegrams.finish_manual(
        tracegrams.start_manual(),
        foreign,
        Duration::from_nanos(100).as_nanos(),
        Outcome::Success,
    );

    assert_only_diagnostic_changed(&tracegrams, &before, DiagnosticCounter::InvalidStageMarks);
}

#[test]
fn rejected_marks_change_only_their_diagnostic_counter() {
    let mut cookies: u64 = FIRST_REGISTRY_COOKIE;
    let (mut first_recorder, first, second) = two_stage_recorder(&mut cookies);
    let (mut foreign_recorder, foreign_first, _) = two_stage_recorder(&mut cookies);

    let mut foreign_context = foreign_recorder.start_manual();
    let before_context = context_state(&foreign_context);
    let before_counters = raw_counters(&first_recorder);
    first_recorder.record_elapsed(&mut foreign_context, first, Duration::from_nanos(100).as_nanos());
    assert_eq!(context_state(&foreign_context), before_context);
    assert_only_diagnostic_changed(
        &first_recorder,
        &before_counters,
        DiagnosticCounter::InvalidContextMarks,
    );

    let mut context = first_recorder.start_manual();
    let before_context = context_state(&context);
    let before_counters = raw_counters(&first_recorder);
    first_recorder.record_elapsed(&mut context, foreign_first, Duration::from_nanos(100).as_nanos());
    assert_eq!(context_state(&context), before_context);
    assert_only_diagnostic_changed(
        &first_recorder,
        &before_counters,
        DiagnosticCounter::InvalidStageMarks,
    );

    first_recorder.record_elapsed(&mut context, second, Duration::from_nanos(100).as_nanos());
    let before_context = context_state(&context);
    let before_counters = raw_counters(&first_recorder);
    first_recorder.record_elapsed(&mut context, second, Duration::from_nanos(100).as_nanos());
    assert_eq!(context_state(&context), before_context);
    assert_only_diagnostic_changed(
        &first_recorder,
        &before_counters,
        DiagnosticCounter::NonMonotonicMarks,
    );

    let before_counters = raw_counters(&first_recorder);
    first_recorder.record_elapsed(&mut context, first, Duration::from_nanos(100).as_nanos());
    assert_eq!(context_state(&context), before_context);
    assert_only_diagnostic_changed(
        &first_recorder,
        &before_counters,
        DiagnosticCounter::NonMonotonicMarks,
    );
}

#[test]
fn skipped_stages_update_the_destination_matrices() {
    let mut cookies: u64 = FIRST_REGISTRY_COOKIE;
    let mut builder = Tracegrams::builder(&mut cookies);
    let parse = builder.stage("parse").unwrap();
    let skipped = builder.stage("skipped").unwrap();
    let db = builder.stage("db").unwrap();
    let mut tracegrams = builder.build().unwrap();
    let mut context = tracegrams.start_manual();

    tracegrams.record_elapsed(&mut context, parse, Duration::from_nanos(100).as_nanos());
    tracegrams.finish_manual(context, db, Duration::from_nanos(200).as_nanos(), Outcome::Success);

    let previous_bucket = bucketize(100, &tracegrams.inner.default_bounds);
    let local_bucket = bucketize(200, &tracegrams.inner.default_bounds);
    let after_bucket = bucketize(300, &tracegrams.inner.default_bounds);
    assert_eq!(
        count(
            &tracegrams,
            tracegrams
                .inner
                .layout
                .cause(db.index(), previous_bucket, local_bucket)
                .unwrap(),
        ),
        1
    );
    assert_eq!(
        count(
            &tracegrams,
            tracegrams
                .inner
                .layout
                .incoming(db.index(), previous_bucket, after_bucket)
                .unwrap(),
        ),
        1
    );
    assert_eq!(
        count(
            &tracegrams,
            tracegrams
                .inner
                .layout
                .cause(skipped.index(), previous_bucket, local_bucket)
                .unwrap(),
        ),
        0
    );
    assert_eq!(
        count(
            &tracegrams,
            tracegrams
                .inner
                .layout
                .incoming(skipped.index(), previous_bucket, after_bucket)
                .unwrap(),
        ),
        0
    );
    assert_eq!(
        tracegrams
            .inner
            .counters
            .iter()
            .copied()
            .sum::<u64>(),
        12
    );
}

#[test]
fn first_mark_uses_a_clean_sentinel() {
    let mut cookies: u64 = FIRST_REGISTRY_COOKIE;
    let (mut tracegrams, first, _) = two_stage_recorder(&mut cookies);
    let mut context = tracegrams.start_manual();
    tracegrams.record_elapsed(&mut context, first, Duration::from_nanos(1_000).as_nanos());

    let ordinary_bucket = bucketize(1_000, &tracegrams.inner.default_bounds);
    let calibration_bucket = bucketize(1_000, &tracegrams.inner.calibration_bounds);
    assert_eq!(
        count(
            &tracegrams,
            tracegrams
                .inner
                .layout
                .local(first.index(), ordinary_bucket)
                .unwrap(),
        ),
        1
    );
    assert_eq!(
        count(
            &tracegrams,
            tracegrams
                .inner
                .layout
                .cumulative(first.index(), ordinary_bucket)
                .unwrap(),
        ),
        1
    );
    assert_eq!(
        total(
            &tracegrams,
            (0..BUCKETS).map(|bucket| {
                tracegrams
                    .inner
                    .layout
                    .cause(first.index(), ordinary_bucket, bucket)
                    .unwrap()
            }),
        ),
        0
    );
    assert_eq!(
        total(
            &tracegrams,
            (0..CALIBRATION_BUCKETS).map(|bucket| {
                tracegrams
                    .inner
                    .layout
                    .calibration(
                        first.index(),
                        CalibrationDistribution::PreviousCumulative,
                        bucket,
                    )
                    .unwrap()
            }),
        ),
        0
    );
    assert_eq!(
        count(
            &tracegrams,
            tracegrams
                .inner
                .layout
                .calibration(
                    first.index(),
                    CalibrationDistribution::Local,
                    calibration_bucket,
                )
                .unwrap(),
        ),
        1
    );
    assert_eq!(
        tracegrams
            .inner
            .counters
            .iter()
            .copied()
            .sum::<u64>(),
        4
    );
}
