//! Checked indexing for the distributions and joint matrices.
//!
//! The storage holds, in this order: a local distribution per stage, a
//! cumulative distribution per stage, a cause matrix per stage, and an incoming
//! matrix per stage except the first, which cannot have a predecessor.

use vstd::prelude::*;

use crate::bucket::BUCKETS;

verus! {

/// Cells of one joint matrix.
pub const MATRIX_CELLS: usize = 4096;

/// Bytes of one counter.
pub const COUNTER_BYTES: usize = 8;

/// One cell of the distributions and joint matrices.
#[derive(Clone, Copy, Debug, PartialEq, Eq, Structural)]
pub enum MatrixCell {
    /// Local latency of a stage.
    Local { stage: usize, bucket: usize },
    /// Cumulative latency at a stage.
    Cumulative { stage: usize, bucket: usize },
    /// Cumulative latency before a stage against its local latency.
    Cause { destination: usize, previous: usize, local: usize },
    /// Cumulative latency before a stage against the one after it.
    Incoming { destination: usize, previous: usize, after: usize },
}

/// Places of the distributions and joint matrices.
#[derive(Clone, Copy, Debug, PartialEq, Eq, Structural)]
pub struct StorageLayout {
    /// Registered stages.
    pub stage_count: usize,
    /// Cells of the local distributions, and of the cumulative ones.
    pub distribution_cells: usize,
    /// First cause cell.
    pub cause_start: usize,
    /// First incoming cell.
    pub incoming_start: usize,
    /// All cells.
    pub counter_count: usize,
}

/// Cells that a number of stages takes.
pub open spec fn matrix_cell_count(stage_count: int) -> int {
    2 * (stage_count * BUCKETS) + stage_count * MATRIX_CELLS + (stage_count - 1) * MATRIX_CELLS
}

proof fn lemma_split_pair(offset: int, stage: int, bucket: int)
    requires
        offset == stage * BUCKETS + bucket,
        0 <= stage,
        0 <= bucket < BUCKETS,
    ensures
        offset / BUCKETS as int == stage,
        offset % BUCKETS as int == bucket,
{
}

proof fn lemma_join_pair(offset: int)
    requires
        0 <= offset,
    ensures
        offset == (offset / BUCKETS as int) * BUCKETS + offset % BUCKETS as int,
        0 <= offset / BUCKETS as int <= offset,
        0 <= offset % (BUCKETS as int) < BUCKETS,
{
}

proof fn lemma_split_triple(offset: int, matrix: int, row: int, column: int)
    requires
        offset == matrix * MATRIX_CELLS + row * BUCKETS + column,
        0 <= matrix,
        0 <= row < BUCKETS,
        0 <= column < BUCKETS,
    ensures
        offset / MATRIX_CELLS as int == matrix,
        (offset % MATRIX_CELLS as int) / BUCKETS as int == row,
        offset % BUCKETS as int == column,
{
    let inner = row * BUCKETS + column;
    assert(0 <= inner < MATRIX_CELLS);
    assert(offset / MATRIX_CELLS as int == matrix);
    assert(offset % MATRIX_CELLS as int == inner);
    lemma_split_pair(inner, row, column);
    lemma_split_pair(offset, matrix * BUCKETS + row, column);
}

proof fn lemma_join_triple(offset: int)
    requires
        0 <= offset,
    ensures
        offset == (offset / MATRIX_CELLS as int) * MATRIX_CELLS + ((offset % MATRIX_CELLS as int)
            / BUCKETS as int) * BUCKETS + offset % BUCKETS as int,
        0 <= offset / MATRIX_CELLS as int <= offset,
        0 <= (offset % MATRIX_CELLS as int) / BUCKETS as int,
        (offset % MATRIX_CELLS as int) / (BUCKETS as int) < BUCKETS,
        0 <= offset % (BUCKETS as int) < BUCKETS,
{
    let matrix = offset / MATRIX_CELLS as int;
    let inner = offset % MATRIX_CELLS as int;
    lemma_join_pair(inner);
    lemma_split_pair(
        offset,
        matrix * BUCKETS + inner / BUCKETS as int,
        inner % BUCKETS as int,
    );
}

impl StorageLayout {
    /// The segments follow each other without gaps.
    pub open spec fn wf(self) -> bool {
        &&& self.stage_count > 0
        &&& self.distribution_cells == self.stage_count * BUCKETS
        &&& self.cause_start == 2 * (self.stage_count * BUCKETS)
        &&& self.incoming_start == self.cause_start + self.stage_count * MATRIX_CELLS
        &&& self.counter_count == matrix_cell_count(self.stage_count as int)
    }

    /// The cells of a layout: every index within its dimension.
    pub open spec fn holds(self, cell: MatrixCell) -> bool {
        match cell {
            MatrixCell::Local { stage, bucket } => stage < self.stage_count && bucket < BUCKETS,
            MatrixCell::Cumulative { stage, bucket } => stage < self.stage_count && bucket
                < BUCKETS,
            MatrixCell::Cause { destination, previous, local } => destination < self.stage_count
                && previous < BUCKETS && local < BUCKETS,
            MatrixCell::Incoming { destination, previous, after } => 0 < destination
                < self.stage_count && previous < BUCKETS && after < BUCKETS,
        }
    }

    /// The place of a cell.
    pub open spec fn offset(self, cell: MatrixCell) -> int {
        match cell {
            MatrixCell::Local { stage, bucket } => stage * BUCKETS + bucket,
            MatrixCell::Cumulative { stage, bucket } => self.distribution_cells + stage * BUCKETS
                + bucket,
            MatrixCell::Cause { destination, previous, local } => self.cause_start + destination
                * MATRIX_CELLS + previous * BUCKETS + local,
            MatrixCell::Incoming { destination, previous, after } => self.incoming_start + (
            destination - 1) * MATRIX_CELLS + previous * BUCKETS + after,
        }
    }

    /// The checked place of a cell.
    pub open spec fn place(self, cell: MatrixCell) -> Option<usize> {
        if self.holds(cell) {
            Some(self.offset(cell) as usize)
        } else {
            None
        }
    }

    /// Lays out the storage of `stage_count` stages, where it can be addressed.
    pub fn new(stage_count: usize) -> (layout: Option<Self>)
        ensures
            layout is Some <==> stage_count > 0 && matrix_cell_count(stage_count as int)
                <= usize::MAX,
            layout matches Some(layout) ==> layout.wf() && layout.stage_count == stage_count,
    {
        if stage_count == 0 {
            return None;
        }
        let distribution_cells: usize = stage_count.checked_mul(BUCKETS)?;
        let cause_cells: usize = stage_count.checked_mul(MATRIX_CELLS)?;
        let incoming_cells: usize = (stage_count - 1).checked_mul(MATRIX_CELLS)?;
        let cause_start: usize = distribution_cells.checked_mul(2)?;
        let incoming_start: usize = cause_start.checked_add(cause_cells)?;
        let counter_count: usize = incoming_start.checked_add(incoming_cells)?;
        Some(
            StorageLayout {
                stage_count,
                distribution_cells,
                cause_start,
                incoming_start,
                counter_count,
            },
        )
    }

    /// Returns the number of cells.
    pub fn counter_count(self) -> (count: usize)
        ensures
            count == self.counter_count,
    {
        self.counter_count
    }

    /// Returns the bytes of all cells, where they can be counted.
    pub fn counter_bytes(self) -> (bytes: Option<usize>)
        ensures
            bytes == (if self.counter_count * COUNTER_BYTES <= usize::MAX {
                Some((self.counter_count * COUNTER_BYTES) as usize)
            } else {
                None
            }),
    {
        self.counter_count.checked_mul(COUNTER_BYTES)
    }

    /// Returns the place of a local cell.
    pub fn local(self, stage: usize, bucket: usize) -> (offset: Option<usize>)
        requires
            self.wf(),
        ensures
            offset == self.place(MatrixCell::Local { stage, bucket }),
    {
        if stage >= self.stage_count || bucket >= BUCKETS {
            return None;
        }
        Some(self.local_index(stage, bucket))
    }

    /// Returns the place of a local cell that the layout holds.
    pub fn local_index(self, stage: usize, bucket: usize) -> (offset: usize)
        requires
            self.wf(),
            self.holds(MatrixCell::Local { stage, bucket }),
        ensures
            offset == self.offset(MatrixCell::Local { stage, bucket }),
    {
        self.distribution_index(0, stage, bucket)
    }

    /// Returns the place of a cumulative cell.
    pub fn cumulative(self, stage: usize, bucket: usize) -> (offset: Option<usize>)
        requires
            self.wf(),
        ensures
            offset == self.place(MatrixCell::Cumulative { stage, bucket }),
    {
        if stage >= self.stage_count || bucket >= BUCKETS {
            return None;
        }
        Some(self.cumulative_index(stage, bucket))
    }

    /// Returns the place of a cumulative cell that the layout holds.
    pub fn cumulative_index(self, stage: usize, bucket: usize) -> (offset: usize)
        requires
            self.wf(),
            self.holds(MatrixCell::Cumulative { stage, bucket }),
        ensures
            offset == self.offset(MatrixCell::Cumulative { stage, bucket }),
    {
        self.distribution_index(self.distribution_cells, stage, bucket)
    }

    /// Returns the place of a cause cell.
    pub fn cause(self, destination: usize, previous_cumulative: usize, local: usize) -> (offset:
        Option<usize>)
        requires
            self.wf(),
        ensures
            offset == self.place(
                MatrixCell::Cause { destination, previous: previous_cumulative, local },
            ),
    {
        if destination >= self.stage_count || previous_cumulative >= BUCKETS || local >= BUCKETS {
            return None;
        }
        Some(self.cause_index(destination, previous_cumulative, local))
    }

    /// Returns the place of a cause cell that the layout holds.
    pub fn cause_index(self, destination: usize, previous_cumulative: usize, local: usize) -> (offset:
        usize)
        requires
            self.wf(),
            self.holds(MatrixCell::Cause { destination, previous: previous_cumulative, local }),
        ensures
            offset == self.offset(
                MatrixCell::Cause { destination, previous: previous_cumulative, local },
            ),
    {
        self.matrix_index(self.cause_start, destination, previous_cumulative, local)
    }

    /// Returns the place of an incoming cell.
    ///
    /// The first registered stage cannot have a predecessor, so incoming
    /// storage omits its matrix.
    pub fn incoming(
        self,
        destination: usize,
        previous_cumulative: usize,
        cumulative_after: usize,
    ) -> (offset: Option<usize>)
        requires
            self.wf(),
        ensures
            offset == self.place(
                MatrixCell::Incoming {
                    destination,
                    previous: previous_cumulative,
                    after: cumulative_after,
                },
            ),
    {
        if destination == 0 || destination >= self.stage_count || previous_cumulative >= BUCKETS
            || cumulative_after >= BUCKETS {
            return None;
        }
        Some(self.incoming_index(destination, previous_cumulative, cumulative_after))
    }

    /// Returns the place of an incoming cell that the layout holds.
    pub fn incoming_index(
        self,
        destination: usize,
        previous_cumulative: usize,
        cumulative_after: usize,
    ) -> (offset: usize)
        requires
            self.wf(),
            self.holds(
                MatrixCell::Incoming {
                    destination,
                    previous: previous_cumulative,
                    after: cumulative_after,
                },
            ),
        ensures
            offset == self.offset(
                MatrixCell::Incoming {
                    destination,
                    previous: previous_cumulative,
                    after: cumulative_after,
                },
            ),
    {
        self.matrix_index(
            self.incoming_start,
            destination - 1,
            previous_cumulative,
            cumulative_after,
        )
    }

    fn distribution_index(self, start: usize, stage: usize, bucket: usize) -> (offset: usize)
        requires
            start + stage * BUCKETS + bucket <= usize::MAX,
        ensures
            offset == start + stage * BUCKETS + bucket,
    {
        start + stage * BUCKETS + bucket
    }

    fn matrix_index(self, start: usize, matrix: usize, row: usize, column: usize) -> (offset:
        usize)
        requires
            start + matrix * MATRIX_CELLS + row * BUCKETS + column <= usize::MAX,
        ensures
            offset == start + matrix * MATRIX_CELLS + row * BUCKETS + column,
    {
        start + matrix * MATRIX_CELLS + row * BUCKETS + column
    }

    /// Every cell of a layout lies within its storage.
    pub proof fn lemma_offset_bounded(self, cell: MatrixCell)
        requires
            self.wf(),
            self.holds(cell),
        ensures
            0 <= self.offset(cell) < self.counter_count,
    {
    }

    /// The cell at a place.
    pub open spec fn cell_at(self, offset: int) -> MatrixCell {
        if offset < self.distribution_cells {
            MatrixCell::Local {
                stage: (offset / BUCKETS as int) as usize,
                bucket: (offset % BUCKETS as int) as usize,
            }
        } else if offset < self.cause_start {
            let rest = offset - self.distribution_cells;
            MatrixCell::Cumulative {
                stage: (rest / BUCKETS as int) as usize,
                bucket: (rest % BUCKETS as int) as usize,
            }
        } else if offset < self.incoming_start {
            let rest = offset - self.cause_start;
            MatrixCell::Cause {
                destination: (rest / MATRIX_CELLS as int) as usize,
                previous: ((rest % MATRIX_CELLS as int) / BUCKETS as int) as usize,
                local: (rest % BUCKETS as int) as usize,
            }
        } else {
            let rest = offset - self.incoming_start;
            MatrixCell::Incoming {
                destination: (rest / MATRIX_CELLS as int + 1) as usize,
                previous: ((rest % MATRIX_CELLS as int) / BUCKETS as int) as usize,
                after: (rest % BUCKETS as int) as usize,
            }
        }
    }

    /// A cell is found again at its place.
    pub proof fn lemma_cell_found_at_its_offset(self, cell: MatrixCell)
        requires
            self.wf(),
            self.holds(cell),
        ensures
            self.cell_at(self.offset(cell)) == cell,
    {
        let offset = self.offset(cell);
        match cell {
            MatrixCell::Local { stage, bucket } => {
                lemma_split_pair(offset, stage as int, bucket as int);
            },
            MatrixCell::Cumulative { stage, bucket } => {
                lemma_split_pair(
                    offset - self.distribution_cells,
                    stage as int,
                    bucket as int,
                );
            },
            MatrixCell::Cause { destination, previous, local } => {
                lemma_split_triple(
                    offset - self.cause_start,
                    destination as int,
                    previous as int,
                    local as int,
                );
            },
            MatrixCell::Incoming { destination, previous, after } => {
                lemma_split_triple(
                    offset - self.incoming_start,
                    destination - 1,
                    previous as int,
                    after as int,
                );
            },
        }
    }

    /// Every place holds the cell that belongs there.
    pub proof fn lemma_place_has_a_cell(self, offset: int)
        requires
            self.wf(),
            0 <= offset < self.counter_count,
        ensures
            self.holds(self.cell_at(offset)),
            self.offset(self.cell_at(offset)) == offset,
    {
        if offset < self.distribution_cells {
            lemma_join_pair(offset);
        } else if offset < self.cause_start {
            lemma_join_pair(offset - self.distribution_cells);
        } else if offset < self.incoming_start {
            lemma_join_triple(offset - self.cause_start);
        } else {
            lemma_join_triple(offset - self.incoming_start);
        }
    }

    /// Offsets are disjoint and cover the storage exactly once: every cell has
    /// a place of its own, and every place has a cell.
    pub proof fn law_offsets_are_disjoint_and_cover_the_storage(self)
        requires
            self.wf(),
        ensures
            forall|cell: MatrixCell| #[trigger]
                self.holds(cell) ==> 0 <= self.offset(cell) < self.counter_count,
            forall|first: MatrixCell, second: MatrixCell|
                self.holds(first) && self.holds(second) && #[trigger] self.offset(first)
                    == #[trigger] self.offset(second) ==> first == second,
            forall|offset: int|
                0 <= offset < self.counter_count ==> self.holds(#[trigger] self.cell_at(offset))
                    && self.offset(self.cell_at(offset)) == offset,
    {
        assert forall|cell: MatrixCell| #[trigger] self.holds(cell) implies 0 <= self.offset(cell)
            < self.counter_count by {
            self.lemma_offset_bounded(cell);
        }
        assert forall|first: MatrixCell, second: MatrixCell|
            self.holds(first) && self.holds(second) && #[trigger] self.offset(first)
                == #[trigger] self.offset(second) implies first == second by {
            self.lemma_cell_found_at_its_offset(first);
            self.lemma_cell_found_at_its_offset(second);
        }
        assert forall|offset: int| 0 <= offset < self.counter_count implies self.holds(
            #[trigger] self.cell_at(offset),
        ) && self.offset(self.cell_at(offset)) == offset by {
            self.lemma_place_has_a_cell(offset);
        }
    }
}

} // verus!
