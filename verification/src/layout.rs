//! The fixed counter storage of a recorder.
//!
//! After the distributions and joint matrices follow the calibration
//! distributions, the online truth cells, the completion counters and the
//! diagnostics.

use vstd::prelude::*;

use crate::bucket::{BUCKETS, CALIBRATION_BUCKETS};
use crate::matrix::{matrix_cell_count, MatrixCell, StorageLayout, MATRIX_CELLS};

verus! {

/// Calibration distributions of one stage.
pub const CALIBRATION_DISTRIBUTIONS_PER_STAGE: usize = 3;

/// Online cells of marks without a predecessor: two tail predicates.
pub const ONLINE_FIRST_COUNTERS: usize = 4;

/// Online cells of one stage: the four of first marks, then the eight of
/// predecessor-bearing marks, which classify three tail predicates.
pub const ONLINE_COUNTERS_PER_STAGE: usize = 12;

/// Completion counters of one stage.
pub const COMPLETION_COUNTERS_PER_STAGE: usize = 2;

/// Diagnostic counters of a recorder.
pub const DIAGNOSTIC_COUNTERS: usize = 8;

/// One for `true`, zero for `false`.
pub open spec fn bit(flag: bool) -> int {
    if flag {
        1
    } else {
        0
    }
}

/// The online cell of a first mark.
pub open spec fn first_cell(local_tail: bool, cumulative_after_tail: bool) -> int {
    bit(local_tail) * 2 + bit(cumulative_after_tail)
}

/// The online cell of a predecessor-bearing mark.
pub open spec fn predecessor_cell(
    previous_tail: bool,
    local_tail: bool,
    cumulative_after_tail: bool,
) -> int {
    ONLINE_FIRST_COUNTERS + bit(previous_tail) * 4 + bit(local_tail) * 2 + bit(
        cumulative_after_tail,
    )
}

/// The online cells are disjoint and complete: each of the twelve belongs to
/// exactly one combination of tail predicates.
pub proof fn law_online_cells_are_disjoint_and_complete(counter: int)
    requires
        0 <= counter < ONLINE_COUNTERS_PER_STAGE,
    ensures
        forall|l1: bool, a1: bool, l2: bool, a2: bool| #[trigger]
            first_cell(l1, a1) == #[trigger] first_cell(l2, a2) ==> l1 == l2 && a1 == a2,
        forall|p1: bool, l1: bool, a1: bool, p2: bool, l2: bool, a2: bool| #[trigger]
            predecessor_cell(p1, l1, a1) == #[trigger] predecessor_cell(p2, l2, a2) ==> p1 == p2
                && l1 == l2 && a1 == a2,
        forall|l1: bool, a1: bool, p2: bool, l2: bool, a2: bool| #[trigger]
            first_cell(l1, a1) != #[trigger] predecessor_cell(p2, l2, a2),
        ({
            ||| exists|local: bool, after: bool| #[trigger] first_cell(local, after) == counter
            ||| exists|previous: bool, local: bool, after: bool| #[trigger]
                predecessor_cell(previous, local, after) == counter
        }),
{
    let after = counter % 2 == 1;
    let local = (counter / 2) % 2 == 1;
    if counter < ONLINE_FIRST_COUNTERS {
        assert(first_cell(local, after) == counter);
    } else {
        assert(predecessor_cell(counter >= 8, local, after) == counter);
    }
}

/// Returns the online cell of a first mark.
pub fn first_online_counter(local_tail: bool, cumulative_after_tail: bool) -> (counter: usize)
    ensures
        counter == first_cell(local_tail, cumulative_after_tail),
        counter < ONLINE_FIRST_COUNTERS,
{
    let high: usize = if local_tail {
        2
    } else {
        0
    };
    let low: usize = if cumulative_after_tail {
        1
    } else {
        0
    };
    high + low
}

/// Returns the online cell of a predecessor-bearing mark.
pub fn predecessor_online_counter(
    previous_tail: bool,
    local_tail: bool,
    cumulative_after_tail: bool,
) -> (counter: usize)
    ensures
        counter == predecessor_cell(previous_tail, local_tail, cumulative_after_tail),
        ONLINE_FIRST_COUNTERS <= counter < ONLINE_COUNTERS_PER_STAGE,
{
    let high: usize = if previous_tail {
        4
    } else {
        0
    };
    ONLINE_FIRST_COUNTERS + high + first_online_counter(local_tail, cumulative_after_tail)
}

/// Which latency a calibration distribution counts.
#[derive(Clone, Copy, Debug, PartialEq, Eq, Structural)]
pub enum CalibrationDistribution {
    /// Local latency of the stage.
    Local,
    /// Cumulative latency after the stage.
    CumulativeAfter,
    /// Cumulative latency before the stage.
    PreviousCumulative,
}

impl CalibrationDistribution {
    /// The place among a stage's distributions.
    pub open spec fn position(self) -> int {
        match self {
            CalibrationDistribution::Local => 0,
            CalibrationDistribution::CumulativeAfter => 1,
            CalibrationDistribution::PreviousCumulative => 2,
        }
    }

    /// Returns the place among a stage's distributions.
    pub fn offset(self) -> (offset: usize)
        ensures
            offset == self.position(),
    {
        match self {
            CalibrationDistribution::Local => 0,
            CalibrationDistribution::CumulativeAfter => 1,
            CalibrationDistribution::PreviousCumulative => 2,
        }
    }
}

/// A counted reason for not recording, or for clamping, a mark.
#[derive(Clone, Copy, Debug, PartialEq, Eq, Structural)]
pub enum DiagnosticCounter {
    /// The stage belongs to another recorder.
    InvalidStageMarks,
    /// The context belongs to another recorder.
    InvalidContextMarks,
    /// The stage does not follow the last recorded one.
    NonMonotonicMarks,
    /// The clock went back.
    ClockRegressions,
    /// A local latency was clamped.
    LatencyOverflows,
    /// A cumulative latency was clamped.
    CumulativeOverflows,
    /// Calibration was being frozen.
    CalibrationSamplesSkippedWhileFreezing,
    /// The predecessor threshold is missing.
    OnlineSamplesSkippedMissingPreviousThreshold,
}

impl DiagnosticCounter {
    /// The place among the diagnostics.
    pub open spec fn position(self) -> int {
        match self {
            DiagnosticCounter::InvalidStageMarks => 0,
            DiagnosticCounter::InvalidContextMarks => 1,
            DiagnosticCounter::NonMonotonicMarks => 2,
            DiagnosticCounter::ClockRegressions => 3,
            DiagnosticCounter::LatencyOverflows => 4,
            DiagnosticCounter::CumulativeOverflows => 5,
            DiagnosticCounter::CalibrationSamplesSkippedWhileFreezing => 6,
            DiagnosticCounter::OnlineSamplesSkippedMissingPreviousThreshold => 7,
        }
    }

    /// Returns the place among the diagnostics.
    pub fn offset(self) -> (offset: usize)
        ensures
            offset == self.position(),
            offset < DIAGNOSTIC_COUNTERS,
    {
        match self {
            DiagnosticCounter::InvalidStageMarks => 0,
            DiagnosticCounter::InvalidContextMarks => 1,
            DiagnosticCounter::NonMonotonicMarks => 2,
            DiagnosticCounter::ClockRegressions => 3,
            DiagnosticCounter::LatencyOverflows => 4,
            DiagnosticCounter::CumulativeOverflows => 5,
            DiagnosticCounter::CalibrationSamplesSkippedWhileFreezing => 6,
            DiagnosticCounter::OnlineSamplesSkippedMissingPreviousThreshold => 7,
        }
    }
}

/// One counter of a recorder.
#[derive(Clone, Copy, Debug, PartialEq, Eq, Structural)]
pub enum Cell {
    /// A distribution or joint matrix cell.
    Matrix(MatrixCell),
    /// A calibration distribution bucket.
    Calibration { stage: usize, distribution: CalibrationDistribution, bucket: usize },
    /// An online truth cell.
    Online { stage: usize, counter: usize },
    /// A completion counter.
    Completion { stage: usize, error: bool },
    /// A diagnostic.
    Diagnostic(DiagnosticCounter),
}

/// Places of all counters of a recorder.
#[derive(Clone, Copy, Debug, PartialEq, Eq, Structural)]
pub struct FixedStorageLayout {
    /// Registered stages.
    pub stage_count: usize,
    /// Distributions and joint matrices.
    pub matrix: StorageLayout,
    /// First calibration counter.
    pub calibration_start: usize,
    /// Calibration counters.
    pub calibration_count: usize,
    /// First online cell.
    pub online_start: usize,
    /// Online cells.
    pub online_count: usize,
    /// First completion counter.
    pub completion_start: usize,
    /// Completion counters.
    pub completion_count: usize,
    /// First diagnostic.
    pub diagnostic_start: usize,
    /// All counters.
    pub counter_count: usize,
}

/// Calibration counters of one stage.
pub const CALIBRATION_COUNTERS_PER_STAGE: usize = 750;

/// Counters that a number of stages takes.
pub open spec fn cell_count(stage_count: int) -> int {
    matrix_cell_count(stage_count) + stage_count * CALIBRATION_COUNTERS_PER_STAGE + stage_count
        * ONLINE_COUNTERS_PER_STAGE + stage_count * COMPLETION_COUNTERS_PER_STAGE
        + DIAGNOSTIC_COUNTERS
}

/// The layout of a number of stages.
pub open spec fn layout_for(stage_count: int) -> FixedStorageLayout {
    let matrix = StorageLayout {
        stage_count: stage_count as usize,
        distribution_cells: (stage_count * BUCKETS) as usize,
        cause_start: (2 * (stage_count * BUCKETS)) as usize,
        incoming_start: (2 * (stage_count * BUCKETS) + stage_count * MATRIX_CELLS) as usize,
        counter_count: matrix_cell_count(stage_count) as usize,
    };
    let online_start = matrix_cell_count(stage_count) + stage_count
        * CALIBRATION_COUNTERS_PER_STAGE;
    let completion_start = online_start + stage_count * ONLINE_COUNTERS_PER_STAGE;
    let diagnostic_start = completion_start + stage_count * COMPLETION_COUNTERS_PER_STAGE;
    FixedStorageLayout {
        stage_count: stage_count as usize,
        matrix,
        calibration_start: matrix_cell_count(stage_count) as usize,
        calibration_count: (stage_count * CALIBRATION_COUNTERS_PER_STAGE) as usize,
        online_start: online_start as usize,
        online_count: (stage_count * ONLINE_COUNTERS_PER_STAGE) as usize,
        completion_start: completion_start as usize,
        completion_count: (stage_count * COMPLETION_COUNTERS_PER_STAGE) as usize,
        diagnostic_start: diagnostic_start as usize,
        counter_count: cell_count(stage_count) as usize,
    }
}

impl FixedStorageLayout {
    /// The segments follow each other without gaps.
    pub open spec fn wf(self) -> bool {
        &&& self.matrix.wf()
        &&& self.matrix.stage_count == self.stage_count
        &&& self.calibration_start == self.matrix.counter_count
        &&& self.calibration_count == self.stage_count * CALIBRATION_COUNTERS_PER_STAGE
        &&& self.online_start == self.calibration_start + self.calibration_count
        &&& self.online_count == self.stage_count * ONLINE_COUNTERS_PER_STAGE
        &&& self.completion_start == self.online_start + self.online_count
        &&& self.completion_count == self.stage_count * COMPLETION_COUNTERS_PER_STAGE
        &&& self.diagnostic_start == self.completion_start + self.completion_count
        &&& self.counter_count == self.diagnostic_start + DIAGNOSTIC_COUNTERS
    }

    /// The counters of a layout: every index within its dimension.
    pub open spec fn holds(self, cell: Cell) -> bool {
        match cell {
            Cell::Matrix(inner) => self.matrix.holds(inner),
            Cell::Calibration { stage, bucket, .. } => stage < self.stage_count && bucket
                < CALIBRATION_BUCKETS,
            Cell::Online { stage, counter } => stage < self.stage_count && counter
                < ONLINE_COUNTERS_PER_STAGE,
            Cell::Completion { stage, .. } => stage < self.stage_count,
            Cell::Diagnostic(_) => true,
        }
    }

    /// The place of a counter.
    pub open spec fn offset(self, cell: Cell) -> int {
        match cell {
            Cell::Matrix(inner) => self.matrix.offset(inner),
            Cell::Calibration { stage, distribution, bucket } => self.calibration_start + stage
                * CALIBRATION_COUNTERS_PER_STAGE + distribution.position() * CALIBRATION_BUCKETS
                + bucket,
            Cell::Online { stage, counter } => self.online_start + stage
                * ONLINE_COUNTERS_PER_STAGE + counter,
            Cell::Completion { stage, error } => self.completion_start + stage
                * COMPLETION_COUNTERS_PER_STAGE + bit(error),
            Cell::Diagnostic(diagnostic) => self.diagnostic_start + diagnostic.position(),
        }
    }

    /// The checked place of a counter.
    pub open spec fn place(self, cell: Cell) -> Option<usize> {
        if self.holds(cell) {
            Some(self.offset(cell) as usize)
        } else {
            None
        }
    }

    /// Lays out the counters of `stage_count` stages, where they can be addressed.
    pub fn new(stage_count: usize) -> (layout: Option<Self>)
        ensures
            layout is Some <==> stage_count > 0 && cell_count(stage_count as int) <= usize::MAX,
            layout matches Some(layout) ==> layout.wf() && layout.stage_count == stage_count
                && layout == layout_for(stage_count as int),
    {
        let matrix = StorageLayout::new(stage_count)?;
        let calibration_count: usize = stage_count.checked_mul(
            CALIBRATION_DISTRIBUTIONS_PER_STAGE,
        )?.checked_mul(CALIBRATION_BUCKETS)?;
        let calibration_start: usize = matrix.counter_count();
        let online_count: usize = stage_count.checked_mul(ONLINE_COUNTERS_PER_STAGE)?;
        let online_start: usize = calibration_start.checked_add(calibration_count)?;
        let completion_count: usize = stage_count.checked_mul(COMPLETION_COUNTERS_PER_STAGE)?;
        let completion_start: usize = online_start.checked_add(online_count)?;
        let diagnostic_start: usize = completion_start.checked_add(completion_count)?;
        let counter_count: usize = diagnostic_start.checked_add(DIAGNOSTIC_COUNTERS)?;
        Some(
            FixedStorageLayout {
                stage_count,
                matrix,
                calibration_start,
                calibration_count,
                online_start,
                online_count,
                completion_start,
                completion_count,
                diagnostic_start,
                counter_count,
            },
        )
    }

    /// Returns the number of registered stages.
    pub fn stage_count(self) -> (count: usize)
        ensures
            count == self.stage_count,
    {
        self.stage_count
    }

    /// Returns the number of distribution and joint matrix cells.
    pub fn matrix_counter_count(self) -> (count: usize)
        ensures
            count == self.matrix.counter_count,
    {
        self.matrix.counter_count()
    }

    /// Returns the bytes of the distributions and joint matrices.
    pub fn matrix_counter_bytes(self) -> (bytes: Option<usize>)
        ensures
            bytes == (if self.matrix.counter_count * crate::matrix::COUNTER_BYTES <= usize::MAX {
                Some((self.matrix.counter_count * crate::matrix::COUNTER_BYTES) as usize)
            } else {
                None
            }),
    {
        self.matrix.counter_bytes()
    }

    /// Returns the number of calibration counters.
    pub fn calibration_counter_count(self) -> (count: usize)
        ensures
            count == self.calibration_count,
    {
        self.calibration_count
    }

    /// Returns the number of online cells.
    pub fn online_counter_count(self) -> (count: usize)
        ensures
            count == self.online_count,
    {
        self.online_count
    }

    /// Returns the place of the first online cell.
    pub fn online_start(self) -> (start: usize)
        ensures
            start == self.online_start,
    {
        self.online_start
    }

    /// Returns the number of completion counters.
    pub fn completion_counter_count(self) -> (count: usize)
        ensures
            count == self.completion_count,
    {
        self.completion_count
    }

    /// Returns the number of diagnostics.
    pub fn diagnostic_counter_count() -> (count: usize)
        ensures
            count == DIAGNOSTIC_COUNTERS,
    {
        DIAGNOSTIC_COUNTERS
    }

    /// Returns the number of all counters.
    pub fn counter_count(self) -> (count: usize)
        ensures
            count == self.counter_count,
    {
        self.counter_count
    }

    /// Returns the place of a local cell.
    pub fn local(self, stage: usize, bucket: usize) -> (offset: Option<usize>)
        requires
            self.wf(),
        ensures
            offset == self.place(Cell::Matrix(MatrixCell::Local { stage, bucket })),
    {
        self.matrix.local(stage, bucket)
    }

    /// Returns the place of a cumulative cell.
    pub fn cumulative(self, stage: usize, bucket: usize) -> (offset: Option<usize>)
        requires
            self.wf(),
        ensures
            offset == self.place(Cell::Matrix(MatrixCell::Cumulative { stage, bucket })),
    {
        self.matrix.cumulative(stage, bucket)
    }

    /// Returns the place of a cause cell.
    pub fn cause(self, destination: usize, previous_cumulative: usize, local: usize) -> (offset:
        Option<usize>)
        requires
            self.wf(),
        ensures
            offset == self.place(
                Cell::Matrix(
                    MatrixCell::Cause { destination, previous: previous_cumulative, local },
                ),
            ),
    {
        self.matrix.cause(destination, previous_cumulative, local)
    }

    /// Returns the place of an incoming cell.
    pub fn incoming(
        self,
        destination: usize,
        previous_cumulative: usize,
        cumulative_after: usize,
    ) -> (offset: Option<usize>)
        requires
            self.wf(),
        ensures
            offset == self.place(
                Cell::Matrix(
                    MatrixCell::Incoming {
                        destination,
                        previous: previous_cumulative,
                        after: cumulative_after,
                    },
                ),
            ),
    {
        self.matrix.incoming(destination, previous_cumulative, cumulative_after)
    }

    /// Returns the place of a calibration counter.
    pub fn calibration(
        self,
        stage: usize,
        distribution: CalibrationDistribution,
        bucket: usize,
    ) -> (offset: Option<usize>)
        requires
            self.wf(),
        ensures
            offset == self.place(Cell::Calibration { stage, distribution, bucket }),
    {
        if stage >= self.stage_count || bucket >= CALIBRATION_BUCKETS {
            return None;
        }
        Some(self.calibration_index(stage, distribution, bucket))
    }

    /// Returns the place of a calibration counter that the layout holds.
    pub fn calibration_index(
        self,
        stage: usize,
        distribution: CalibrationDistribution,
        bucket: usize,
    ) -> (offset: usize)
        requires
            self.wf(),
            self.holds(Cell::Calibration { stage, distribution, bucket }),
        ensures
            offset == self.offset(Cell::Calibration { stage, distribution, bucket }),
    {
        self.calibration_start + (stage * CALIBRATION_DISTRIBUTIONS_PER_STAGE
            + distribution.offset()) * CALIBRATION_BUCKETS + bucket
    }

    /// Returns the place of an online cell.
    pub fn online(self, stage: usize, counter: usize) -> (offset: Option<usize>)
        requires
            self.wf(),
        ensures
            offset == self.place(Cell::Online { stage, counter }),
    {
        if stage >= self.stage_count || counter >= ONLINE_COUNTERS_PER_STAGE {
            return None;
        }
        Some(self.online_index(stage, counter))
    }

    /// Returns the place of an online cell that the layout holds.
    pub fn online_index(self, stage: usize, counter: usize) -> (offset: usize)
        requires
            self.wf(),
            self.holds(Cell::Online { stage, counter }),
        ensures
            offset == self.offset(Cell::Online { stage, counter }),
    {
        self.online_start + stage * ONLINE_COUNTERS_PER_STAGE + counter
    }

    /// Returns the place of a completion counter.
    pub fn completion(self, stage: usize, error: bool) -> (offset: Option<usize>)
        requires
            self.wf(),
        ensures
            offset == self.place(Cell::Completion { stage, error }),
    {
        if stage >= self.stage_count {
            return None;
        }
        Some(self.completion_index(stage, error))
    }

    /// Returns the place of a completion counter that the layout holds.
    pub fn completion_index(self, stage: usize, error: bool) -> (offset: usize)
        requires
            self.wf(),
            self.holds(Cell::Completion { stage, error }),
        ensures
            offset == self.offset(Cell::Completion { stage, error }),
    {
        let outcome: usize = if error {
            1
        } else {
            0
        };
        self.completion_start + stage * COMPLETION_COUNTERS_PER_STAGE + outcome
    }

    /// Returns the place of a diagnostic.
    pub fn diagnostic(self, diagnostic: DiagnosticCounter) -> (offset: usize)
        requires
            self.wf(),
        ensures
            offset == self.offset(Cell::Diagnostic(diagnostic)),
    {
        self.diagnostic_start + diagnostic.offset()
    }

    /// Returns the place of any counter.
    pub fn find(self, cell: Cell) -> (offset: Option<usize>)
        requires
            self.wf(),
        ensures
            offset == self.place(cell),
    {
        match cell {
            Cell::Matrix(MatrixCell::Local { stage, bucket }) => self.local(stage, bucket),
            Cell::Matrix(MatrixCell::Cumulative { stage, bucket }) => self.cumulative(
                stage,
                bucket,
            ),
            Cell::Matrix(MatrixCell::Cause { destination, previous, local }) => self.cause(
                destination,
                previous,
                local,
            ),
            Cell::Matrix(MatrixCell::Incoming { destination, previous, after }) => self.incoming(
                destination,
                previous,
                after,
            ),
            Cell::Calibration { stage, distribution, bucket } => self.calibration(
                stage,
                distribution,
                bucket,
            ),
            Cell::Online { stage, counter } => self.online(stage, counter),
            Cell::Completion { stage, error } => self.completion(stage, error),
            Cell::Diagnostic(diagnostic) => Some(self.diagnostic(diagnostic)),
        }
    }

    /// Every counter of a layout lies within its storage.
    pub proof fn lemma_offset_bounded(self, cell: Cell)
        requires
            self.wf(),
            self.holds(cell),
        ensures
            0 <= self.offset(cell) < self.counter_count,
            cell is Matrix ==> self.offset(cell) < self.calibration_start,
            cell is Calibration ==> self.calibration_start <= self.offset(cell)
                < self.online_start,
            cell is Online ==> self.online_start <= self.offset(cell) < self.completion_start,
            cell is Completion ==> self.completion_start <= self.offset(cell)
                < self.diagnostic_start,
            cell is Diagnostic ==> self.diagnostic_start <= self.offset(cell),
    {
    }

    /// Different counters have different places.
    pub proof fn lemma_offsets_are_disjoint(self, first: Cell, second: Cell)
        requires
            self.wf(),
            self.holds(first),
            self.holds(second),
            self.offset(first) == self.offset(second),
        ensures
            first == second,
    {
        self.lemma_offset_bounded(first);
        self.lemma_offset_bounded(second);
        match first {
            Cell::Matrix(inner) => {
                self.matrix.lemma_cell_found_at_its_offset(inner);
                self.matrix.lemma_cell_found_at_its_offset(second->Matrix_0);
            },
            Cell::Calibration { .. } => {},
            Cell::Online { .. } => {},
            Cell::Completion { .. } => {},
            Cell::Diagnostic(_) => {},
        }
    }

    /// Every place holds a counter.
    pub proof fn lemma_place_has_a_cell(self, offset: int) -> (cell: Cell)
        requires
            self.wf(),
            0 <= offset < self.counter_count,
        ensures
            self.holds(cell),
            self.offset(cell) == offset,
    {
        if offset < self.calibration_start {
            self.matrix.lemma_place_has_a_cell(offset);
            Cell::Matrix(self.matrix.cell_at(offset))
        } else if offset < self.online_start {
            let rest = offset - self.calibration_start;
            let inner = rest % CALIBRATION_COUNTERS_PER_STAGE as int;
            let distribution = if inner < CALIBRATION_BUCKETS {
                CalibrationDistribution::Local
            } else if inner < 2 * CALIBRATION_BUCKETS {
                CalibrationDistribution::CumulativeAfter
            } else {
                CalibrationDistribution::PreviousCumulative
            };
            Cell::Calibration {
                stage: (rest / CALIBRATION_COUNTERS_PER_STAGE as int) as usize,
                distribution,
                bucket: (inner - distribution.position() * CALIBRATION_BUCKETS) as usize,
            }
        } else if offset < self.completion_start {
            let rest = offset - self.online_start;
            Cell::Online {
                stage: (rest / ONLINE_COUNTERS_PER_STAGE as int) as usize,
                counter: (rest % ONLINE_COUNTERS_PER_STAGE as int) as usize,
            }
        } else if offset < self.diagnostic_start {
            let rest = offset - self.completion_start;
            Cell::Completion {
                stage: (rest / COMPLETION_COUNTERS_PER_STAGE as int) as usize,
                error: rest % COMPLETION_COUNTERS_PER_STAGE as int == 1,
            }
        } else {
            let rest = offset - self.diagnostic_start;
            Cell::Diagnostic(
                if rest == 0 {
                    DiagnosticCounter::InvalidStageMarks
                } else if rest == 1 {
                    DiagnosticCounter::InvalidContextMarks
                } else if rest == 2 {
                    DiagnosticCounter::NonMonotonicMarks
                } else if rest == 3 {
                    DiagnosticCounter::ClockRegressions
                } else if rest == 4 {
                    DiagnosticCounter::LatencyOverflows
                } else if rest == 5 {
                    DiagnosticCounter::CumulativeOverflows
                } else if rest == 6 {
                    DiagnosticCounter::CalibrationSamplesSkippedWhileFreezing
                } else {
                    DiagnosticCounter::OnlineSamplesSkippedMissingPreviousThreshold
                },
            )
        }
    }

    /// The counters are disjoint and cover the storage exactly once: every
    /// counter has a place of its own, and the place `offset` has a counter.
    pub proof fn law_counters_are_disjoint_and_cover_the_storage(self, offset: int)
        requires
            self.wf(),
            0 <= offset < self.counter_count,
        ensures
            forall|cell: Cell| #[trigger]
                self.holds(cell) ==> 0 <= self.offset(cell) < self.counter_count,
            forall|first: Cell, second: Cell|
                self.holds(first) && self.holds(second) && #[trigger] self.offset(first)
                    == #[trigger] self.offset(second) ==> first == second,
            exists|cell: Cell| #[trigger] self.holds(cell) && self.offset(cell) == offset,
    {
        assert forall|cell: Cell| #[trigger] self.holds(cell) implies 0 <= self.offset(cell)
            < self.counter_count by {
            self.lemma_offset_bounded(cell);
        }
        assert forall|first: Cell, second: Cell|
            self.holds(first) && self.holds(second) && #[trigger] self.offset(first)
                == #[trigger] self.offset(second) implies first == second by {
            self.lemma_offsets_are_disjoint(first, second);
        }
        let cell = self.lemma_place_has_a_cell(offset);
        assert(self.holds(cell));
    }
}

} // verus!
