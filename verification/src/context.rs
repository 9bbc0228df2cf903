//! Per-request latency contexts and checkpoint recording.

use vstd::prelude::*;

use crate::calibration::{threshold_of, FrozenStageCalibration};
use crate::checkpoint::{
    Checkpoint, ContextState, MarkMode, Outcome, PreviousMark, Thresholds,
};
use crate::init::{RegistryCookie, StageId, Tracegrams};
use crate::layout::Cell;
use crate::recorder::bumped;
use crate::snapshot::CalibrationState;

verus! {

/// Caller-timed state for one linear request path.
///
/// A manual context is tied to the recorder that created it. It is neither
/// cloneable nor convertible to the clock-reading context.
pub struct ManualCtx {
    /// Request-local state.
    pub state: ContextState,
}

/// Bucket value of a clocked context without a recorded mark.
pub const NO_BUCKET: u8 = 255;

/// Clock-timed state for one linear request path.
///
/// The last mark is packed beside the brand and the epoch, which keeps a
/// context within three words.
#[derive(Debug)]
pub struct Ctx {
    /// Clock reading of the start or of the last recorded mark.
    pub last_ns: u64,
    /// Cumulative latency so far.
    pub cumulative_ns: u64,
    /// Brand of the recorder that the request was started with.
    pub cookie: RegistryCookie,
    /// Calibration epoch that the request was started in.
    pub calibration_epoch: u16,
    /// Position of the stage of the last recorded mark.
    pub previous_stage: u8,
    /// Ordinary cumulative bucket of the last recorded mark, or [`NO_BUCKET`].
    pub previous_bucket: u8,
}

impl Ctx {
    /// The request-local state of a clocked context.
    pub open spec fn state_of(self) -> ContextState {
        ContextState {
            cumulative_ns: self.cumulative_ns,
            cookie: self.cookie,
            calibration_epoch: self.calibration_epoch,
            previous: if self.previous_bucket == NO_BUCKET {
                None
            } else {
                Some(
                    PreviousMark {
                        stage: self.previous_stage,
                        cumulative_bucket: self.previous_bucket,
                    },
                )
            },
        }
    }

    /// Returns the request-local state.
    pub fn state(&self) -> (state: ContextState)
        ensures
            state == self.state_of(),
    {
        let previous = if self.previous_bucket == NO_BUCKET {
            None
        } else {
            Some(
                PreviousMark {
                    stage: self.previous_stage,
                    cumulative_bucket: self.previous_bucket,
                },
            )
        };
        ContextState {
            cumulative_ns: self.cumulative_ns,
            cookie: self.cookie,
            calibration_epoch: self.calibration_epoch,
            previous,
        }
    }

    /// Packs request-local state with the clock reading that it was reached at.
    pub fn pack(last_ns: u64, state: ContextState) -> (context: Ctx)
        requires
            state.previous matches Some(previous) ==> previous.cumulative_bucket != NO_BUCKET,
        ensures
            context.last_ns == last_ns,
            context.state_of() == state,
    {
        let (previous_stage, previous_bucket): (u8, u8) = match state.previous {
            Some(previous) => (previous.stage, previous.cumulative_bucket),
            None => (0, NO_BUCKET),
        };
        Ctx {
            last_ns,
            cumulative_ns: state.cumulative_ns,
            cookie: state.cookie,
            calibration_epoch: state.calibration_epoch,
            previous_stage,
            previous_bucket,
        }
    }
}

/// The thresholds that a published stage calibration gives.
pub open spec fn thresholds_of(frozen: FrozenStageCalibration) -> Thresholds {
    Thresholds {
        local: threshold_of(frozen.report.local)->0,
        cumulative_after: threshold_of(frozen.report.cumulative_after)->0,
        previous_cumulative: threshold_of(frozen.report.previous_cumulative),
    }
}

/// How calibration treats the marks of a stage, from the lifecycle state, the
/// epoch and the published calibration of the stage.
pub open spec fn mode_of(
    state: CalibrationState,
    epoch: u16,
    frozen: Option<FrozenStageCalibration>,
) -> MarkMode {
    match state {
        CalibrationState::Collecting => MarkMode::Collecting,
        CalibrationState::Freezing => MarkMode::Freezing,
        CalibrationState::Frozen => MarkMode::Frozen {
            epoch,
            thresholds: match frozen {
                Some(frozen) => Some(thresholds_of(frozen)),
                None => None,
            },
        },
    }
}

/// Returns how calibration treats the marks of a stage.
pub fn mark_mode(state: CalibrationState, epoch: u16, frozen: Option<FrozenStageCalibration>) -> (mode:
    MarkMode)
    requires
        frozen matches Some(frozen) ==> frozen.wf(),
    ensures
        mode == mode_of(state, epoch, frozen),
{
    match state {
        CalibrationState::Collecting => MarkMode::Collecting,
        CalibrationState::Freezing => MarkMode::Freezing,
        CalibrationState::Frozen => {
            let thresholds = match frozen {
                Some(frozen) => Some(
                    Thresholds {
                        local: frozen.local_threshold(),
                        cumulative_after: frozen.cumulative_after_threshold(),
                        previous_cumulative: frozen.previous_cumulative_threshold(),
                    },
                ),
                None => None,
            };
            MarkMode::Frozen { epoch, thresholds }
        },
    }
}

impl Tracegrams {
    /// The epoch of published thresholds; zero before a successful freeze.
    pub open spec fn current_epoch(self) -> u16 {
        if self.inner.calibration_state == CalibrationState::Frozen {
            self.inner.calibration_epoch
        } else {
            0
        }
    }

    /// The published calibration of a stage.
    pub open spec fn published(self, stage: int) -> Option<FrozenStageCalibration> {
        if 0 <= stage < self.inner.frozen_calibration@.len() {
            self.inner.frozen_calibration@[stage]
        } else {
            None
        }
    }

    /// The checkpoint that a mark makes at this recorder.
    pub open spec fn checkpoint(
        self,
        context: ContextState,
        stage: StageId,
        regressed: bool,
        elapsed_ns: u128,
        outcome: Option<Outcome>,
    ) -> Checkpoint {
        Checkpoint {
            cookie: self.inner.cookie,
            mode: mode_of(
                self.inner.calibration_state,
                self.inner.calibration_epoch,
                self.published(stage.index as int),
            ),
            context,
            stage,
            regressed,
            elapsed_ns,
            outcome,
        }
    }

    /// This recorder follows `before` by one checkpoint: exactly the counters
    /// that the checkpoint touches were incremented, and nothing else changed.
    pub open spec fn follows(self, before: Tracegrams, checkpoint: Checkpoint) -> bool {
        &&& self.wf()
        &&& self.inner.same_but_counters(before.inner)
        &&& bumped(
            before.inner.layout,
            before.inner.counters@,
            self.inner.counters@,
            |cell: Cell| checkpoint.touches(cell),
        )
    }

    /// Starts a caller-timed request.
    pub fn start_manual(&self) -> (context: ManualCtx)
        ensures
            context.state == (ContextState {
                cumulative_ns: 0,
                cookie: self.inner.cookie,
                calibration_epoch: self.current_epoch(),
                previous: None,
            }),
    {
        ManualCtx { state: self.start_state() }
    }

    /// Records one caller-supplied elapsed interval at `stage`.
    pub fn record_elapsed(&mut self, context: &mut ManualCtx, stage: StageId, elapsed_ns: u128)
        requires
            old(self).wf(),
        ensures
            final(self).follows(
                *old(self),
                old(self).checkpoint(old(context).state, stage, false, elapsed_ns, None),
            ),
            final(context).state == old(self).checkpoint(
                old(context).state,
                stage,
                false,
                elapsed_ns,
                None,
            ).advanced(),
    {
        context.state = self.record_manual_mark(context.state, stage, false, elapsed_ns, None);
    }

    /// Records the final interval and completion outcome, consuming the context.
    pub fn finish_manual(
        &mut self,
        context: ManualCtx,
        stage: StageId,
        elapsed_ns: u128,
        outcome: Outcome,
    )
        requires
            old(self).wf(),
        ensures
            final(self).follows(
                *old(self),
                old(self).checkpoint(context.state, stage, false, elapsed_ns, Some(outcome)),
            ),
    {
        let _ = self.record_manual_mark(context.state, stage, false, elapsed_ns, Some(outcome));
    }

    /// Starts a clock-timed request at a clock reading.
    pub fn start(&self, now_ns: u64) -> (context: Ctx)
        ensures
            context.last_ns == now_ns,
            context.state_of() == (ContextState {
                cumulative_ns: 0,
                cookie: self.inner.cookie,
                calibration_epoch: self.current_epoch(),
                previous: None,
            }),
    {
        Ctx::pack(now_ns, self.start_state())
    }

    /// The checkpoint that a clocked mark makes: the elapsed interval is the
    /// time since the last reading, and an earlier reading is a regression.
    pub open spec fn clocked_checkpoint(
        self,
        context: Ctx,
        stage: StageId,
        now_ns: u64,
        outcome: Option<Outcome>,
    ) -> Checkpoint {
        let regressed = now_ns < context.last_ns;
        let elapsed_ns = if regressed {
            0
        } else {
            now_ns - context.last_ns
        };
        self.checkpoint(context.state_of(), stage, regressed, elapsed_ns as u128, outcome)
    }

    /// Records the interval since the last clock reading at `stage`.
    ///
    /// A rejected mark leaves the context at its last reading.
    pub fn mark(&mut self, context: &mut Ctx, stage: StageId, now_ns: u64)
        requires
            old(self).wf(),
        ensures
            ({
                let checkpoint = old(self).clocked_checkpoint(*old(context), stage, now_ns, None);
                &&& final(self).follows(*old(self), checkpoint)
                &&& final(context).state_of() == checkpoint.advanced()
                &&& final(context).last_ns == (if checkpoint.rejection() is Some {
                    old(context).last_ns
                } else {
                    now_ns
                })
            }),
    {
        let (state, accepted) = self.record_clocked(context, stage, now_ns, None);
        if accepted {
            *context = Ctx::pack(now_ns, state);
        }
    }

    /// Records the final clocked interval and completion outcome, consuming the
    /// context.
    pub fn finish(&mut self, context: Ctx, stage: StageId, now_ns: u64, outcome: Outcome)
        requires
            old(self).wf(),
        ensures
            final(self).follows(
                *old(self),
                old(self).clocked_checkpoint(context, stage, now_ns, Some(outcome)),
            ),
    {
        let _ = self.record_clocked(&context, stage, now_ns, Some(outcome));
    }

    /// Returns the epoch of published thresholds; zero before a successful freeze.
    pub fn current_calibration_epoch(&self) -> (epoch: u16)
        ensures
            epoch == self.current_epoch(),
    {
        match self.inner.calibration_state {
            CalibrationState::Frozen => self.inner.calibration_epoch,
            _ => 0,
        }
    }

    fn start_state(&self) -> (state: ContextState)
        ensures
            state == (ContextState {
                cumulative_ns: 0,
                cookie: self.inner.cookie,
                calibration_epoch: self.current_epoch(),
                previous: None,
            }),
    {
        ContextState {
            cumulative_ns: 0,
            cookie: self.inner.cookie,
            calibration_epoch: self.current_calibration_epoch(),
            previous: None,
        }
    }

    fn record_clocked(
        &mut self,
        context: &Ctx,
        stage: StageId,
        now_ns: u64,
        outcome: Option<Outcome>,
    ) -> (result: (ContextState, bool))
        requires
            old(self).wf(),
        ensures
            ({
                let checkpoint = old(self).clocked_checkpoint(*context, stage, now_ns, outcome);
                &&& final(self).follows(*old(self), checkpoint)
                &&& result.0 == checkpoint.advanced()
                &&& result.1 == (checkpoint.rejection() is None)
                &&& result.1 ==> (result.0.previous matches Some(previous)
                    && previous.cumulative_bucket != NO_BUCKET)
            }),
    {
        let regressed: bool = now_ns < context.last_ns;
        let elapsed_ns: u128 = if regressed {
            0
        } else {
            (now_ns - context.last_ns) as u128
        };
        let checkpoint = self.make_checkpoint(
            context.state(),
            stage,
            regressed,
            elapsed_ns,
            outcome,
        );
        let plan = checkpoint.plan();
        self.inner.apply(&plan);
        proof {
            lemma_same_touched(*old(self), *self, checkpoint, plan);
            checkpoint.lemma_advanced_bucket();
        }
        (plan.context, checkpoint.judge().is_none())
    }

    fn record_manual_mark(
        &mut self,
        context: ContextState,
        stage: StageId,
        regressed: bool,
        elapsed_ns: u128,
        outcome: Option<Outcome>,
    ) -> (state: ContextState)
        requires
            old(self).wf(),
        ensures
            ({
                let checkpoint = old(self).checkpoint(
                    context,
                    stage,
                    regressed,
                    elapsed_ns,
                    outcome,
                );
                &&& final(self).follows(*old(self), checkpoint)
                &&& state == checkpoint.advanced()
            }),
    {
        let checkpoint = self.make_checkpoint(context, stage, regressed, elapsed_ns, outcome);
        let plan = checkpoint.plan();
        self.inner.apply(&plan);
        proof {
            lemma_same_touched(*old(self), *self, checkpoint, plan);
        }
        plan.context
    }

    fn make_checkpoint(
        &self,
        context: ContextState,
        stage: StageId,
        regressed: bool,
        elapsed_ns: u128,
        outcome: Option<Outcome>,
    ) -> (checkpoint: Checkpoint)
        requires
            self.wf(),
        ensures
            checkpoint == self.checkpoint(context, stage, regressed, elapsed_ns, outcome),
    {
        let index: usize = stage.index();
        let frozen = if index < self.inner.frozen_calibration.len() {
            self.inner.frozen_calibration[index]
        } else {
            None
        };
        Checkpoint {
            cookie: self.inner.cookie,
            mode: mark_mode(self.inner.calibration_state, self.inner.calibration_epoch, frozen),
            context,
            stage,
            regressed,
            elapsed_ns,
            outcome,
        }
    }
}

/// Following the plan of a checkpoint touches what the checkpoint touches.
proof fn lemma_same_touched(
    before: Tracegrams,
    after: Tracegrams,
    checkpoint: Checkpoint,
    plan: crate::checkpoint::MarkPlan,
)
    requires
        after.wf(),
        after.inner.same_but_counters(before.inner),
        bumped(
            before.inner.layout,
            before.inner.counters@,
            after.inner.counters@,
            |cell: Cell| plan.lists(cell),
        ),
        forall|cell: Cell| plan.lists(cell) <==> #[trigger] checkpoint.touches(cell),
    ensures
        after.follows(before, checkpoint),
{
    let layout = before.inner.layout;
    assert forall|cell: Cell| layout.holds(cell) implies
        #[trigger] after.inner.counters@[layout.offset(cell)] == crate::recorder::stepped(
        before.inner.counters@[layout.offset(cell)],
        checkpoint.touches(cell),
    ) by {
        assert(plan.lists(cell) <==> checkpoint.touches(cell));
    }
}

} // verus!
