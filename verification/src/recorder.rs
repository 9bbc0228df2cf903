//! Recorder storage and counter primitives.

use vstd::prelude::*;

use crate::bucket::{
    calibration_bounds, calibration_grid, default_bounds, default_grid,
};
use crate::calibration::FrozenStageCalibration;
use crate::checkpoint::{MarkPlan, MARK_CELLS};
use crate::init::{valid_names, MemoryEstimate, RegistryCookie, StageId};
use crate::layout::{Cell, DiagnosticCounter, FixedStorageLayout};
use crate::quantile::valid_quantile;
use crate::snapshot::CalibrationState;

verus! {

/// Stored value of a collecting recorder's state.
pub const CALIBRATION_COLLECTING: u8 = 0;

/// Stored value of a freezing recorder's state.
pub const CALIBRATION_FREEZING: u8 = 1;

/// Stored value of a frozen recorder's state.
pub const CALIBRATION_FROZEN: u8 = 2;

/// Storage, registry and calibration of one recorder.
#[derive(Debug)]
pub struct Inner {
    /// Brand of the registry.
    pub cookie: RegistryCookie,
    /// Stage names in registration order.
    pub stage_names: Vec<Box<str>>,
    /// Binary64 pattern of the tail quantile.
    pub tail_quantile: u64,
    /// Configured byte budget.
    pub memory_budget_bytes: usize,
    /// Itemized memory estimate.
    pub memory_estimate: MemoryEstimate,
    /// Places of the counters.
    pub layout: FixedStorageLayout,
    /// All counters.
    pub counters: Vec<u64>,
    /// Ordinary bounds.
    pub default_bounds: Vec<u64>,
    /// Calibration bounds.
    pub calibration_bounds: Vec<u64>,
    /// Calibration lifecycle state.
    pub calibration_state: CalibrationState,
    /// Epoch of the published thresholds.
    pub calibration_epoch: u16,
    /// Published thresholds by stage.
    pub frozen_calibration: Vec<Option<FrozenStageCalibration>>,
}

/// A counter after one more event: counters stay at their largest value.
pub open spec fn incremented(count: u64) -> u64 {
    if count == u64::MAX {
        count
    } else {
        (count + 1) as u64
    }
}

/// What a counter is after it was, or was not, incremented.
pub open spec fn stepped(count: u64, step: bool) -> u64 {
    if step {
        incremented(count)
    } else {
        count
    }
}

/// Exactly the counters of `touched` were incremented, once each.
pub open spec fn bumped(
    layout: FixedStorageLayout,
    before: Seq<u64>,
    after: Seq<u64>,
    touched: spec_fn(Cell) -> bool,
) -> bool {
    &&& after.len() == before.len()
    &&& forall|cell: Cell|
        layout.holds(cell) ==> #[trigger] after[layout.offset(cell)] == stepped(
            before[layout.offset(cell)],
            touched(cell),
        )
}

/// Incrementing a set of counters has exactly one outcome.
pub proof fn law_bumped_is_deterministic(
    layout: FixedStorageLayout,
    before: Seq<u64>,
    first: Seq<u64>,
    second: Seq<u64>,
    touched: spec_fn(Cell) -> bool,
)
    requires
        layout.wf(),
        before.len() == layout.counter_count,
        bumped(layout, before, first, touched),
        bumped(layout, before, second, touched),
    ensures
        first == second,
{
    assert forall|i: int| 0 <= i < first.len() implies first[i] == second[i] by {
        let cell = layout.lemma_place_has_a_cell(i);
        assert(first[layout.offset(cell)] == second[layout.offset(cell)]);
    }
    assert(first =~= second);
}

/// Increments a counter, which stays at its largest value.
pub fn increment_counter(counter: &mut u64)
    ensures
        *final(counter) == incremented(*old(counter)),
{
    *counter = counter.saturating_add(1);
}

/// Copies counts or bounds into owned storage.
pub fn owned_counts(counts: &[u64]) -> (copy: Vec<u64>)
    ensures
        copy@ == counts@,
{
    let mut copy: Vec<u64> = Vec::with_capacity(counts.len());
    let mut at: usize = 0;
    while at < counts.len()
        invariant
            at <= counts@.len(),
            copy@ == counts@.take(at as int),
        decreases counts@.len() - at,
    {
        copy.push(counts[at]);
        at = at + 1;
        assert(copy@ =~= counts@.take(at as int));
    }
    assert(copy@ =~= counts@);
    copy
}

/// Returns a number of zeroed counters.
fn zeroed_counters(count: usize) -> (counters: Vec<u64>)
    ensures
        counters@.len() == count,
        forall|i: int| 0 <= i < count ==> counters@[i] == 0,
{
    let mut counters: Vec<u64> = Vec::with_capacity(count);
    let mut at: usize = 0;
    while at < count
        invariant
            at <= count,
            counters@.len() == at,
            forall|i: int| 0 <= i < at ==> counters@[i] == 0,
        decreases count - at,
    {
        counters.push(0);
        at = at + 1;
    }
    counters
}

/// Returns a number of stages without thresholds.
fn unpublished(count: usize) -> (frozen: Vec<Option<FrozenStageCalibration>>)
    ensures
        frozen@.len() == count,
        forall|i: int| 0 <= i < count ==> frozen@[i] is None,
{
    let mut frozen: Vec<Option<FrozenStageCalibration>> = Vec::with_capacity(count);
    let mut at: usize = 0;
    while at < count
        invariant
            at <= count,
            frozen@.len() == at,
            forall|i: int| 0 <= i < at ==> frozen@[i] is None,
        decreases count - at,
    {
        frozen.push(None);
        at = at + 1;
    }
    frozen
}

impl Inner {
    /// Storage and registry fit together, and published thresholds belong to
    /// the stages that they are published for.
    pub open spec fn wf(self) -> bool {
        &&& self.layout.wf()
        &&& valid_names(self.stage_names@)
        &&& self.layout.stage_count == self.stage_names@.len()
        &&& self.counters@.len() == self.layout.counter_count
        &&& self.default_bounds@ == default_grid()
        &&& self.calibration_bounds@ == calibration_grid()
        &&& valid_quantile(self.tail_quantile)
        &&& self.memory_estimate.wf()
        &&& self.frozen_calibration@.len() == self.layout.stage_count
        &&& forall|i: int|
            0 <= i < self.frozen_calibration@.len() ==> (
            #[trigger] self.frozen_calibration@[i] matches Some(frozen) ==> frozen.wf()
                && frozen.report.stage == (StageId { cookie: self.cookie, index: i as u8 }))
        &&& self.calibration_state != CalibrationState::Frozen ==> forall|i: int|
            0 <= i < self.frozen_calibration@.len() ==> self.frozen_calibration@[i] is None
    }

    /// Nothing was recorded and nothing frozen.
    pub open spec fn is_new(self) -> bool {
        &&& forall|i: int| 0 <= i < self.counters@.len() ==> self.counters@[i] == 0
        &&& self.calibration_state == CalibrationState::Collecting
        &&& self.calibration_epoch == 0
        &&& forall|i: int|
            0 <= i < self.frozen_calibration@.len() ==> self.frozen_calibration@[i] is None
    }

    /// Everything but the counters is the same.
    pub open spec fn same_but_counters(self, other: Inner) -> bool {
        self == (Inner { counters: self.counters, ..other })
    }

    /// Allocates the storage of a recorder.
    pub fn new(
        cookie: RegistryCookie,
        stage_names: Vec<Box<str>>,
        tail_quantile: u64,
        memory_budget_bytes: usize,
        memory_estimate: MemoryEstimate,
        layout: FixedStorageLayout,
    ) -> (inner: Self)
        requires
            layout.wf(),
            layout.stage_count == stage_names@.len(),
            valid_names(stage_names@),
            valid_quantile(tail_quantile),
            memory_estimate.wf(),
        ensures
            inner.wf(),
            inner.is_new(),
            inner.cookie == cookie,
            inner.stage_names@ == stage_names@,
            inner.tail_quantile == tail_quantile,
            inner.memory_budget_bytes == memory_budget_bytes,
            inner.memory_estimate == memory_estimate,
            inner.layout == layout,
    {
        Inner {
            cookie,
            stage_names,
            tail_quantile,
            memory_budget_bytes,
            memory_estimate,
            layout,
            counters: zeroed_counters(layout.counter_count()),
            default_bounds: owned_counts(default_bounds().as_slice()),
            calibration_bounds: owned_counts(calibration_bounds().as_slice()),
            calibration_state: CalibrationState::Collecting,
            calibration_epoch: 0,
            frozen_calibration: unpublished(layout.stage_count()),
        }
    }

    /// Increments one counter.
    pub fn increment(&mut self, index: usize)
        requires
            index < old(self).counters@.len(),
        ensures
            final(self).same_but_counters(*old(self)),
            final(self).counters@ == old(self).counters@.update(
                index as int,
                incremented(old(self).counters@[index as int]),
            ),
    {
        let mut counter: u64 = self.counters[index];
        increment_counter(&mut counter);
        self.counters.set(index, counter);
    }

    /// Increments a diagnostic and nothing else.
    pub fn increment_diagnostic(&mut self, diagnostic: DiagnosticCounter)
        requires
            old(self).wf(),
        ensures
            final(self).wf(),
            final(self).same_but_counters(*old(self)),
            bumped(
                old(self).layout,
                old(self).counters@,
                final(self).counters@,
                |cell: Cell| cell == Cell::Diagnostic(diagnostic),
            ),
    {
        let index: usize = self.layout.diagnostic(diagnostic);
        proof {
            self.layout.lemma_offset_bounded(Cell::Diagnostic(diagnostic));
            lemma_bump_one(self.layout, self.counters@, Cell::Diagnostic(diagnostic));
        }
        self.increment(index);
    }
}

impl Inner {
    /// Increments the counters of a plan, skipping those that the layout lacks.
    pub fn apply(&mut self, plan: &MarkPlan)
        requires
            old(self).wf(),
            plan.distinct(),
        ensures
            final(self).wf(),
            final(self).same_but_counters(*old(self)),
            bumped(
                old(self).layout,
                old(self).counters@,
                final(self).counters@,
                |cell: Cell| plan.lists(cell),
            ),
    {
        let mut at: usize = 0;
        while at < MARK_CELLS
            invariant
                at <= MARK_CELLS,
                old(self).wf(),
                self.wf(),
                plan.distinct(),
                self.same_but_counters(*old(self)),
                bumped(
                    old(self).layout,
                    old(self).counters@,
                    self.counters@,
                    |cell: Cell| lists_before(*plan, at as int, cell),
                ),
            decreases MARK_CELLS - at,
        {
            let ghost before = self.counters@;
            if let Some(cell) = plan.cells[at] {
                if let Some(index) = self.layout.find(cell) {
                    proof {
                        self.layout.lemma_offset_bounded(cell);
                        lemma_bump_one(self.layout, self.counters@, cell);
                    }
                    self.increment(index);
                }
            }
            proof {
                let layout = self.layout;
                assert forall|other: Cell| layout.holds(other) implies
                    #[trigger] self.counters@[layout.offset(other)] == stepped(
                    old(self).counters@[layout.offset(other)],
                    lists_before(*plan, at + 1, other),
                ) by {
                    assert(before[layout.offset(other)] == stepped(
                        old(self).counters@[layout.offset(other)],
                        lists_before(*plan, at as int, other),
                    ));
                    assert(lists_before(*plan, at + 1, other) <==> (lists_before(
                        *plan,
                        at as int,
                        other,
                    ) || plan.cells@[at as int] == Some(other)));
                }
            }
            at = at + 1;
        }
        assert forall|cell: Cell| lists_before(*plan, at as int, cell) == plan.lists(cell) by {}
    }
}

/// Whether a counter is in one of the first slots.
spec fn lists_before(plan: MarkPlan, end: int, cell: Cell) -> bool {
    exists|i: int| 0 <= i < end && #[trigger] plan.cells@[i] == Some(cell)
}

/// Incrementing the place of a counter increments that counter alone.
pub proof fn lemma_bump_one(layout: FixedStorageLayout, counters: Seq<u64>, cell: Cell)
    requires
        layout.wf(),
        layout.holds(cell),
        counters.len() == layout.counter_count,
    ensures
        bumped(
            layout,
            counters,
            counters.update(layout.offset(cell), incremented(counters[layout.offset(cell)])),
            |other: Cell| other == cell,
        ),
{
    layout.lemma_offset_bounded(cell);
    let after = counters.update(layout.offset(cell), incremented(counters[layout.offset(cell)]));
    assert forall|other: Cell| layout.holds(other) implies #[trigger] after[layout.offset(other)]
        == stepped(counters[layout.offset(other)], other == cell) by {
        layout.lemma_offset_bounded(other);
        if layout.offset(other) == layout.offset(cell) {
            layout.lemma_offsets_are_disjoint(other, cell);
        }
    }
}

} // verus!
