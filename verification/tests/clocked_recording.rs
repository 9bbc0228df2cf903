//! Clock-timed requests, with clock readings handed in.

use tracegrams::context::NO_BUCKET;
use tracegrams::init::FIRST_REGISTRY_COOKIE;
use tracegrams::{Ctx, Outcome, StageId, Tracegrams};

fn assert_send_sync<T: Send + Sync>(_: &T) {}

fn two_stage_recorder(cookies: &mut u64) -> (Tracegrams, StageId, StageId) {
    let mut builder = Tracegrams::builder(cookies);
    let first = builder.stage("first").unwrap();
    let second = builder.stage("second").unwrap();
    (builder.build().unwrap(), first, second)
}

#[test]
fn clocked_contexts_are_small_and_plain() {
    let mut cookies: u64 = FIRST_REGISTRY_COOKIE;
    let (tracegrams, _, _) = two_stage_recorder(&mut cookies);
    assert!(std::mem::size_of::<Ctx>() <= 24);
    assert!(!std::mem::needs_drop::<Ctx>());
    assert_send_sync(&tracegrams.start(0));
}

#[test]
fn clocked_marks_record_the_time_since_the_last_reading() {
    let mut cookies: u64 = FIRST_REGISTRY_COOKIE;
    let (mut clocked, first, second) = two_stage_recorder(&mut cookies);
    let mut context = clocked.start(1_000);
    assert_eq!(context.previous_bucket, NO_BUCKET);
    clocked.mark(&mut context, first, 1_100);
    assert_eq!(context.last_ns, 1_100);
    assert_eq!(context.cumulative_ns, 100);
    clocked.finish(context, second, 1_300, Outcome::Success);

    let (mut manual, first, second) = two_stage_recorder(&mut cookies);
    let mut context = manual.start_manual();
    manual.record_elapsed(&mut context, first, 100);
    manual.finish_manual(context, second, 200, Outcome::Success);

    assert_eq!(clocked.inner.counters, manual.inner.counters);
}

#[test]
fn a_clock_regression_rejects_the_mark_and_keeps_the_context() {
    let mut cookies: u64 = FIRST_REGISTRY_COOKIE;
    let (mut tracegrams, first, second) = two_stage_recorder(&mut cookies);
    let mut context = tracegrams.start(1_000);
    tracegrams.mark(&mut context, first, 1_100);
    let before = tracegrams.snapshot_relaxed();

    tracegrams.mark(&mut context, second, 1_099);

    assert_eq!(context.last_ns, 1_100);
    assert_eq!(context.cumulative_ns, 100);
    let window = tracegrams.snapshot_relaxed().delta(&before).unwrap();
    assert_eq!(window.diagnostics().clock_regressions(), 1);
    assert_eq!(window.diagnostics().total(), 1);
    assert_eq!(window.sample_counts(second).unwrap().local(), 0);

    tracegrams.mark(&mut context, second, 1_100);
    assert_eq!(
        tracegrams
            .snapshot_relaxed()
            .sample_counts(second)
            .unwrap()
            .local(),
        1
    );
}

#[test]
fn foreign_and_unordered_clocked_marks_are_rejected_before_the_clock_is_judged() {
    let mut cookies: u64 = FIRST_REGISTRY_COOKIE;
    let (mut tracegrams, first, second) = two_stage_recorder(&mut cookies);
    let (foreign, foreign_first, _) = two_stage_recorder(&mut cookies);
    let mut foreign_context = foreign.start(10);
    tracegrams.mark(&mut foreign_context, first, 0);
    let mut context = tracegrams.start(10);
    tracegrams.mark(&mut context, foreign_first, 0);
    tracegrams.mark(&mut context, second, 20);
    tracegrams.mark(&mut context, first, 0);

    let diagnostics = tracegrams.snapshot_relaxed().diagnostics();
    assert_eq!(diagnostics.invalid_context_marks(), 1);
    assert_eq!(diagnostics.invalid_stage_marks(), 1);
    assert_eq!(diagnostics.non_monotonic_marks(), 1);
    assert_eq!(diagnostics.clock_regressions(), 0);
}
