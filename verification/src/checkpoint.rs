//! What one checkpoint does to the counters.
//!
//! A checkpoint is judged and planned from plain values alone, so that every
//! way of storing counters can follow the same plan.

use vstd::prelude::*;

use crate::bucket::{
    bucket_of, calibration_bucketize, calibration_grid, default_bucketize, default_grid,
    law_grids_increase, lemma_bucket_of, BUCKETS,
};
use crate::init::{RegistryCookie, StageId};
use crate::layout::{
    first_cell, first_online_counter, predecessor_cell, predecessor_online_counter,
    CalibrationDistribution, Cell, DiagnosticCounter,
};
use crate::matrix::MatrixCell;

verus! {

/// The terminal outcome of a recorded request.
#[derive(Clone, Copy, Debug, PartialEq, Eq, Structural)]
#[non_exhaustive]
pub enum Outcome {
    /// The request completed successfully.
    Success,
    /// The request completed with an error.
    Error,
}

/// The last recorded mark of a request.
#[derive(Clone, Copy, Debug, PartialEq, Eq, Structural)]
pub struct PreviousMark {
    /// Position of its stage.
    pub stage: u8,
    /// Ordinary bucket of the cumulative latency after it.
    pub cumulative_bucket: u8,
}

/// Request-local state that a checkpoint reads and advances.
#[derive(Clone, Copy, Debug, PartialEq, Eq, Structural)]
pub struct ContextState {
    /// Cumulative latency so far.
    pub cumulative_ns: u64,
    /// Brand of the recorder that the request was started with.
    pub cookie: RegistryCookie,
    /// Calibration epoch that the request was started in.
    pub calibration_epoch: u16,
    /// Last recorded mark.
    pub previous: Option<PreviousMark>,
}

impl ContextState {
    /// The last recorded mark has an ordinary bucket.
    pub open spec fn wf(self) -> bool {
        self.previous matches Some(previous) ==> previous.cumulative_bucket < BUCKETS
    }
}

/// Frozen thresholds of one stage.
#[derive(Clone, Copy, Debug, PartialEq, Eq, Structural)]
pub struct Thresholds {
    /// Local latency from which a mark is in the tail.
    pub local: u64,
    /// Cumulative latency after the stage from which a mark is in the tail.
    pub cumulative_after: u64,
    /// Cumulative latency before the stage from which a mark is in the tail.
    pub previous_cumulative: Option<u64>,
}

/// How calibration treats the marks of a stage.
#[derive(Clone, Copy, Debug, PartialEq, Eq, Structural)]
pub enum MarkMode {
    /// Marks feed the calibration distributions.
    Collecting,
    /// Thresholds are being derived; marks feed nothing.
    Freezing,
    /// Marks are classified against the thresholds of their stage.
    Frozen {
        /// Epoch of the thresholds.
        epoch: u16,
        /// Thresholds of the stage, unless it was left uncalibrated.
        thresholds: Option<Thresholds>,
    },
}

/// One checkpoint with all that decides its effect.
#[derive(Clone, Copy, Debug, PartialEq, Eq, Structural)]
pub struct Checkpoint {
    /// Brand of the recorder.
    pub cookie: RegistryCookie,
    /// How calibration treats marks of the stage.
    pub mode: MarkMode,
    /// State of the request.
    pub context: ContextState,
    /// The marked stage.
    pub stage: StageId,
    /// Whether the clock went back since the last mark.
    pub regressed: bool,
    /// Latency since the last mark.
    pub elapsed_ns: u128,
    /// Outcome, when this mark ends the request.
    pub outcome: Option<Outcome>,
}

/// Most counters that one checkpoint touches.
pub const MARK_CELLS: usize = 10;

/// The counters that one checkpoint increments, once each.
#[derive(Clone, Copy, Debug, PartialEq, Eq)]
pub struct MarkPlan {
    /// Each counter in a slot of its own.
    pub cells: [Option<Cell>; MARK_CELLS],
    /// State of the request after the checkpoint.
    pub context: ContextState,
}

impl MarkPlan {
    /// Whether a counter is in some slot.
    pub open spec fn lists(self, cell: Cell) -> bool {
        exists|i: int| 0 <= i < MARK_CELLS && #[trigger] self.cells@[i] == Some(cell)
    }

    /// No counter is in two slots.
    pub open spec fn distinct(self) -> bool {
        forall|i: int, j: int|
            0 <= i < j < MARK_CELLS && #[trigger] self.cells@[i] is Some ==> self.cells@[i]
                != #[trigger] self.cells@[j]
    }
}

/// Nanoseconds that a latency is recorded with: clamped to the largest count.
pub open spec fn clamped(elapsed_ns: u128) -> u64 {
    if elapsed_ns <= u64::MAX {
        elapsed_ns as u64
    } else {
        u64::MAX
    }
}

impl Checkpoint {
    /// Why the checkpoint is not recorded, if it is not.
    pub open spec fn rejection(self) -> Option<DiagnosticCounter> {
        if self.context.cookie != self.cookie {
            Some(DiagnosticCounter::InvalidContextMarks)
        } else if self.stage.cookie != self.cookie {
            Some(DiagnosticCounter::InvalidStageMarks)
        } else if self.context.previous matches Some(previous) && self.stage.index
            <= previous.stage {
            Some(DiagnosticCounter::NonMonotonicMarks)
        } else if self.regressed {
            Some(DiagnosticCounter::ClockRegressions)
        } else {
            None
        }
    }

    /// Recorded local latency.
    pub open spec fn local_ns(self) -> u64 {
        clamped(self.elapsed_ns)
    }

    /// Recorded cumulative latency after the mark.
    pub open spec fn cumulative_ns(self) -> u64 {
        clamped((self.context.cumulative_ns + self.local_ns()) as u128)
    }

    /// Ordinary bucket of the local latency.
    pub open spec fn local_bucket(self) -> nat {
        bucket_of(self.local_ns(), default_grid())
    }

    /// Ordinary bucket of the cumulative latency after the mark.
    pub open spec fn cumulative_bucket(self) -> nat {
        bucket_of(self.cumulative_ns(), default_grid())
    }

    /// The thresholds that an accepted mark is classified against: those of its
    /// stage, when the request started in their epoch.
    pub open spec fn applicable_thresholds(self) -> Option<Thresholds> {
        match self.mode {
            MarkMode::Frozen { epoch, thresholds } if epoch == self.context.calibration_epoch => thresholds,
            _ => None,
        }
    }

    /// The online cell of an accepted mark, if it has one.
    pub open spec fn online_cell(self) -> Option<int> {
        match self.applicable_thresholds() {
            None => None,
            Some(thresholds) => {
                let local_tail = self.local_ns() >= thresholds.local;
                let after_tail = self.cumulative_ns() >= thresholds.cumulative_after;
                if self.context.previous is None {
                    Some(first_cell(local_tail, after_tail))
                } else {
                    match thresholds.previous_cumulative {
                        None => None,
                        Some(threshold) => Some(
                            predecessor_cell(
                                self.context.cumulative_ns >= threshold,
                                local_tail,
                                after_tail,
                            ),
                        ),
                    }
                }
            },
        }
    }

    /// Whether an accepted mark cannot be classified for want of a predecessor
    /// threshold.
    pub open spec fn misses_previous_threshold(self) -> bool {
        self.context.previous is Some && (self.applicable_thresholds() matches Some(thresholds)
            && thresholds.previous_cumulative is None)
    }

    /// Whether an accepted mark increments a distribution or matrix cell.
    pub open spec fn touches_matrix(self, cell: MatrixCell) -> bool {
        let stage = self.stage.index as int;
        match cell {
            MatrixCell::Local { stage: at, bucket } => at == stage && bucket
                == self.local_bucket(),
            MatrixCell::Cumulative { stage: at, bucket } => at == stage && bucket
                == self.cumulative_bucket(),
            MatrixCell::Cause { destination, previous, local } => self.context.previous matches Some(
                mark,
            ) && destination == stage && previous == mark.cumulative_bucket && local
                == self.local_bucket(),
            MatrixCell::Incoming { destination, previous, after } => self.context.previous matches Some(
                mark,
            ) && destination == stage && previous == mark.cumulative_bucket && after
                == self.cumulative_bucket(),
        }
    }

    /// Whether an accepted mark increments a calibration counter.
    pub open spec fn touches_calibration(
        self,
        stage: usize,
        distribution: CalibrationDistribution,
        bucket: usize,
    ) -> bool {
        self.mode is Collecting && stage == self.stage.index && match distribution {
            CalibrationDistribution::Local => bucket == bucket_of(
                self.local_ns(),
                calibration_grid(),
            ),
            CalibrationDistribution::CumulativeAfter => bucket == bucket_of(
                self.cumulative_ns(),
                calibration_grid(),
            ),
            CalibrationDistribution::PreviousCumulative => self.context.previous is Some && bucket
                == bucket_of(self.context.cumulative_ns, calibration_grid()),
        }
    }

    /// Whether an accepted mark increments a diagnostic.
    pub open spec fn touches_diagnostic(self, diagnostic: DiagnosticCounter) -> bool {
        match diagnostic {
            DiagnosticCounter::LatencyOverflows => self.elapsed_ns > u64::MAX,
            DiagnosticCounter::CumulativeOverflows => self.context.cumulative_ns + self.local_ns()
                > u64::MAX,
            DiagnosticCounter::CalibrationSamplesSkippedWhileFreezing => self.mode is Freezing,
            DiagnosticCounter::OnlineSamplesSkippedMissingPreviousThreshold => {
                self.misses_previous_threshold()
            },
            _ => false,
        }
    }

    /// Whether the checkpoint increments a counter: a rejected one increments
    /// its diagnostic alone.
    pub open spec fn touches(self, cell: Cell) -> bool {
        match self.rejection() {
            Some(diagnostic) => cell == Cell::Diagnostic(diagnostic),
            None => match cell {
                Cell::Matrix(inner) => self.touches_matrix(inner),
                Cell::Calibration { stage, distribution, bucket } => self.touches_calibration(
                    stage,
                    distribution,
                    bucket,
                ),
                Cell::Online { stage, counter } => stage == self.stage.index && (
                self.online_cell() matches Some(online) && counter == online),
                Cell::Completion { stage, error } => stage == self.stage.index && (
                self.outcome matches Some(outcome) && error == (outcome is Error)),
                Cell::Diagnostic(diagnostic) => self.touches_diagnostic(diagnostic),
            },
        }
    }

    /// State of the request after the checkpoint: unchanged when it is rejected.
    pub open spec fn advanced(self) -> ContextState {
        if self.rejection() is Some {
            self.context
        } else {
            ContextState {
                cumulative_ns: self.cumulative_ns(),
                cookie: self.context.cookie,
                calibration_epoch: self.context.calibration_epoch,
                previous: Some(
                    PreviousMark {
                        stage: self.stage.index,
                        cumulative_bucket: self.cumulative_bucket() as u8,
                    },
                ),
            }
        }
    }

    /// An accepted mark leaves an ordinary bucket in the state.
    pub proof fn lemma_advanced_bucket(self)
        ensures
            self.rejection() is None ==> (self.advanced().previous matches Some(previous)
                && previous.cumulative_bucket == self.cumulative_bucket()
                && previous.cumulative_bucket < BUCKETS),
    {
        law_grids_increase();
        lemma_bucket_of(self.cumulative_ns(), default_grid());
    }

    /// Returns why the checkpoint is not recorded, if it is not.
    pub fn judge(self) -> (rejection: Option<DiagnosticCounter>)
        ensures
            rejection == self.rejection(),
    {
        if self.context.cookie != self.cookie {
            return Some(DiagnosticCounter::InvalidContextMarks);
        }
        if self.stage.cookie != self.cookie {
            return Some(DiagnosticCounter::InvalidStageMarks);
        }
        if let Some(previous) = self.context.previous {
            if self.stage.index <= previous.stage {
                return Some(DiagnosticCounter::NonMonotonicMarks);
            }
        }
        if self.regressed {
            return Some(DiagnosticCounter::ClockRegressions);
        }
        None
    }

    /// Plans the counters to increment and the state to continue with.
    pub fn plan(self) -> (plan: MarkPlan)
        ensures
            plan.distinct(),
            forall|cell: Cell| plan.lists(cell) <==> #[trigger] self.touches(cell),
            plan.context == self.advanced(),
    {
        let mut cells: [Option<Cell>; MARK_CELLS] = [None; MARK_CELLS];
        if let Some(diagnostic) = self.judge() {
            cells[0] = Some(Cell::Diagnostic(diagnostic));
            let plan = MarkPlan { cells, context: self.context };
            proof {
                assert(plan.cells@[0] == Some(Cell::Diagnostic(diagnostic)));
            }
            return plan;
        }
        let stage: usize = self.stage.index();
        let local_ns: u64 = if self.elapsed_ns <= u64::MAX as u128 {
            self.elapsed_ns as u64
        } else {
            cells[0] = Some(Cell::Diagnostic(DiagnosticCounter::LatencyOverflows));
            u64::MAX
        };
        let cumulative_ns: u64 = match self.context.cumulative_ns.checked_add(local_ns) {
            Some(value) => value,
            None => {
                cells[1] = Some(Cell::Diagnostic(DiagnosticCounter::CumulativeOverflows));
                u64::MAX
            },
        };
        let local_bucket: usize = default_bucketize(local_ns);
        let cumulative_bucket: usize = default_bucketize(cumulative_ns);
        cells[2] = Some(Cell::Matrix(MatrixCell::Local { stage, bucket: local_bucket }));
        cells[3] = Some(Cell::Matrix(MatrixCell::Cumulative { stage, bucket: cumulative_bucket }));
        if let Some(mark) = self.context.previous {
            let previous: usize = mark.cumulative_bucket as usize;
            cells[4] = Some(
                Cell::Matrix(
                    MatrixCell::Cause { destination: stage, previous, local: local_bucket },
                ),
            );
            cells[5] = Some(
                Cell::Matrix(
                    MatrixCell::Incoming { destination: stage, previous, after: cumulative_bucket },
                ),
            );
        }
        match self.mode {
            MarkMode::Collecting => {
                cells[6] = Some(
                    Cell::Calibration {
                        stage,
                        distribution: CalibrationDistribution::Local,
                        bucket: calibration_bucketize(local_ns, local_bucket),
                    },
                );
                cells[7] = Some(
                    Cell::Calibration {
                        stage,
                        distribution: CalibrationDistribution::CumulativeAfter,
                        bucket: calibration_bucketize(cumulative_ns, cumulative_bucket),
                    },
                );
                if self.context.previous.is_some() {
                    let before: u64 = self.context.cumulative_ns;
                    cells[8] = Some(
                        Cell::Calibration {
                            stage,
                            distribution: CalibrationDistribution::PreviousCumulative,
                            bucket: calibration_bucketize(before, default_bucketize(before)),
                        },
                    );
                }
            },
            MarkMode::Freezing => {
                cells[6] = Some(
                    Cell::Diagnostic(DiagnosticCounter::CalibrationSamplesSkippedWhileFreezing),
                );
            },
            MarkMode::Frozen { epoch, thresholds } => {
                if epoch == self.context.calibration_epoch {
                    if let Some(thresholds) = thresholds {
                        cells[6] = Some(self.classify(local_ns, cumulative_ns, thresholds));
                    }
                }
            },
        }
        if let Some(outcome) = self.outcome {
            let error: bool = match outcome {
                Outcome::Success => false,
                Outcome::Error => true,
            };
            cells[9] = Some(Cell::Completion { stage, error });
        }
        let context = ContextState {
            cumulative_ns,
            cookie: self.context.cookie,
            calibration_epoch: self.context.calibration_epoch,
            previous: Some(
                PreviousMark {
                    stage: self.stage.index,
                    cumulative_bucket: cumulative_bucket as u8,
                },
            ),
        };
        let plan = MarkPlan { cells, context };
        proof {
            self.lemma_plan_is_complete(plan);
        }
        plan
    }

    /// Returns the cell that classifies an accepted mark of a calibrated stage:
    /// its online cell, or the diagnostic for a missing predecessor threshold.
    fn classify(self, local_ns: u64, cumulative_ns: u64, thresholds: Thresholds) -> (cell: Cell)
        requires
            local_ns == self.local_ns(),
            cumulative_ns == self.cumulative_ns(),
            self.applicable_thresholds() == Some(thresholds),
        ensures
            match self.online_cell() {
                Some(online) => cell == (Cell::Online {
                    stage: self.stage.index as usize,
                    counter: online as usize,
                }) && 0 <= online <= usize::MAX,
                None => self.misses_previous_threshold() && cell == Cell::Diagnostic(
                    DiagnosticCounter::OnlineSamplesSkippedMissingPreviousThreshold,
                ),
            },
            self.online_cell() is Some ==> !self.misses_previous_threshold(),
    {
        let stage: usize = self.stage.index();
        let local_tail: bool = local_ns >= thresholds.local;
        let after_tail: bool = cumulative_ns >= thresholds.cumulative_after;
        if self.context.previous.is_none() {
            return Cell::Online { stage, counter: first_online_counter(local_tail, after_tail) };
        }
        match thresholds.previous_cumulative {
            Some(threshold) => Cell::Online {
                stage,
                counter: predecessor_online_counter(
                    self.context.cumulative_ns >= threshold,
                    local_tail,
                    after_tail,
                ),
            },
            None => Cell::Diagnostic(
                DiagnosticCounter::OnlineSamplesSkippedMissingPreviousThreshold,
            ),
        }
    }

    /// The counter in a slot of the plan of an accepted mark.
    spec fn slot(self, at: int) -> Option<Cell> {
        let stage = self.stage.index as usize;
        let local = self.local_bucket() as usize;
        let after = self.cumulative_bucket() as usize;
        if at == 0 {
            if self.elapsed_ns > u64::MAX {
                Some(Cell::Diagnostic(DiagnosticCounter::LatencyOverflows))
            } else {
                None
            }
        } else if at == 1 {
            if self.context.cumulative_ns + self.local_ns() > u64::MAX {
                Some(Cell::Diagnostic(DiagnosticCounter::CumulativeOverflows))
            } else {
                None
            }
        } else if at == 2 {
            Some(Cell::Matrix(MatrixCell::Local { stage, bucket: local }))
        } else if at == 3 {
            Some(Cell::Matrix(MatrixCell::Cumulative { stage, bucket: after }))
        } else if at == 4 || at == 5 {
            match self.context.previous {
                None => None,
                Some(mark) => {
                    let previous = mark.cumulative_bucket as usize;
                    if at == 4 {
                        Some(
                            Cell::Matrix(MatrixCell::Cause { destination: stage, previous, local }),
                        )
                    } else {
                        Some(
                            Cell::Matrix(
                                MatrixCell::Incoming { destination: stage, previous, after },
                            ),
                        )
                    }
                },
            }
        } else if at == 9 {
            match self.outcome {
                None => None,
                Some(outcome) => Some(Cell::Completion { stage, error: outcome is Error }),
            }
        } else {
            self.calibration_slot(at)
        }
    }

    /// The counter in a calibration slot of the plan of an accepted mark.
    spec fn calibration_slot(self, at: int) -> Option<Cell> {
        let stage = self.stage.index as usize;
        match self.mode {
            MarkMode::Collecting => if at == 6 {
                Some(
                    Cell::Calibration {
                        stage,
                        distribution: CalibrationDistribution::Local,
                        bucket: bucket_of(self.local_ns(), calibration_grid()) as usize,
                    },
                )
            } else if at == 7 {
                Some(
                    Cell::Calibration {
                        stage,
                        distribution: CalibrationDistribution::CumulativeAfter,
                        bucket: bucket_of(self.cumulative_ns(), calibration_grid()) as usize,
                    },
                )
            } else if self.context.previous is Some {
                Some(
                    Cell::Calibration {
                        stage,
                        distribution: CalibrationDistribution::PreviousCumulative,
                        bucket: bucket_of(self.context.cumulative_ns, calibration_grid()) as usize,
                    },
                )
            } else {
                None
            },
            MarkMode::Freezing => if at == 6 {
                Some(Cell::Diagnostic(DiagnosticCounter::CalibrationSamplesSkippedWhileFreezing))
            } else {
                None
            },
            MarkMode::Frozen { .. } => if at != 6 {
                None
            } else if self.misses_previous_threshold() {
                Some(
                    Cell::Diagnostic(
                        DiagnosticCounter::OnlineSamplesSkippedMissingPreviousThreshold,
                    ),
                )
            } else {
                match self.online_cell() {
                    Some(online) => Some(Cell::Online { stage, counter: online as usize }),
                    None => None,
                }
            },
        }
    }

    /// Slots filled in this way list exactly the touched counters.
    proof fn lemma_plan_is_complete(self, plan: MarkPlan)
        requires
            self.rejection() is None,
            forall|i: int| 0 <= i < MARK_CELLS ==> #[trigger] plan.cells@[i] == self.slot(i),
        ensures
            plan.distinct(),
            forall|cell: Cell| plan.lists(cell) <==> #[trigger] self.touches(cell),
    {
        law_grids_increase();
        lemma_bucket_of(self.local_ns(), default_grid());
        lemma_bucket_of(self.cumulative_ns(), default_grid());
        lemma_bucket_of(self.local_ns(), calibration_grid());
        lemma_bucket_of(self.cumulative_ns(), calibration_grid());
        lemma_bucket_of(self.context.cumulative_ns, calibration_grid());
        assert forall|cell: Cell| #[trigger] self.touches(cell) implies plan.lists(cell) by {
            let at = match cell {
                Cell::Matrix(MatrixCell::Local { .. }) => 2int,
                Cell::Matrix(MatrixCell::Cumulative { .. }) => 3int,
                Cell::Matrix(MatrixCell::Cause { .. }) => 4int,
                Cell::Matrix(MatrixCell::Incoming { .. }) => 5int,
                Cell::Calibration { distribution, .. } => 6 + distribution.position(),
                Cell::Online { .. } => 6int,
                Cell::Completion { .. } => 9int,
                Cell::Diagnostic(DiagnosticCounter::LatencyOverflows) => 0int,
                Cell::Diagnostic(DiagnosticCounter::CumulativeOverflows) => 1int,
                Cell::Diagnostic(_) => 6int,
            };
            assert(plan.cells@[at] == Some(cell));
        }
        assert forall|cell: Cell| plan.lists(cell) implies #[trigger] self.touches(cell) by {
            let at = choose|i: int|
                0 <= i < MARK_CELLS && #[trigger] plan.cells@[i] == Some(cell);
            assert(self.slot(at) == Some(cell));
        }
    }
}

} // verus!
