//! What a registry, its storage and a new recorder are.

use vstd::prelude::*;

use crate::bucket::BUCKETS;
use crate::init::{
    cookie_of, memory_estimate_of, name_lengths, registered, total_length, InitError,
    MemoryEstimate, RegistryCookie, StageId, Tracegrams, TracegramsBuilder,
};
use crate::layout::{
    cell_count, layout_for, Cell, FixedStorageLayout, CALIBRATION_COUNTERS_PER_STAGE,
    COMPLETION_COUNTERS_PER_STAGE, ONLINE_COUNTERS_PER_STAGE,
};
use crate::matrix::{matrix_cell_count, MATRIX_CELLS};
use crate::recorder::Inner;
use crate::snapshot::{CalibrationState, Snapshot};

verus! {

/// A source hands out its own number as a brand, and none once its numbers do not
/// fit in a brand any more.
pub proof fn law_brands_are_the_numbers_of_their_source(current: u64)
    ensures
        current <= u32::MAX ==> cookie_of(current) == Some(RegistryCookie(current as u32)),
        current > u32::MAX ==> cookie_of(current) is None,
{
}

/// A name is registered when it is among the names, letter by letter.
pub proof fn law_registered_names_are_among_the_names(names: Seq<Box<str>>, name: Seq<char>)
    ensures
        registered(names, name) <==> Seq::new(names.len(), |i: int| names[i]@).contains(name),
{
    let texts = Seq::new(names.len(), |i: int| names[i]@);
    if registered(names, name) {
        let at = choose|i: int| 0 <= i < names.len() && (#[trigger] names[i])@ == name;
        assert(texts[at] == name);
    }
    if texts.contains(name) {
        let at = choose|i: int| 0 <= i < texts.len() && texts[i] == name;
        assert(names[at]@ == name);
    }
}

/// A builder is estimated by its own stages and the bytes of their names.
pub proof fn law_builders_are_estimated_by_their_stages(builder: TracegramsBuilder)
    ensures
        match builder.layout_of() {
            Ok(layout) => builder.estimate_of() == memory_estimate_of(
                layout,
                name_lengths(builder.stage_names@),
            ),
            Err(error) => builder.estimate_of() == Err::<MemoryEstimate, InitError>(error),
        },
{
}

/// The storage of a number of stages: both ordinary distributions, the cause
/// matrix of every stage and the incoming matrix of every stage but the first,
/// three calibration distributions, the truth cells, two outcomes and eight
/// diagnostics.
pub proof fn law_storage_has_every_distribution(stages: usize)
    requires
        1 <= stages <= 64,
        cell_count(stages as int) <= usize::MAX,
    ensures
        ({
            let layout = layout_for(stages as int);
            let n = stages as int;
            &&& layout.stage_count == n
            &&& layout.matrix.counter_count == 64 * n + 64 * n + 4096 * n + 4096 * (n - 1)
            &&& layout.calibration_count == 3 * 250 * n
            &&& layout.online_count == 12 * n
            &&& layout.completion_count == 2 * n
            &&& layout.counter_count == layout.matrix.counter_count + 750 * n + 12 * n + 2 * n + 8
        }),
{
    let n = stages as int;
    assert(n * BUCKETS == 64 * n);
    assert(n * MATRIX_CELLS == 4096 * n);
    assert((n - 1) * MATRIX_CELLS == 4096 * (n - 1));
    assert(n * CALIBRATION_COUNTERS_PER_STAGE == 750 * n);
    assert(n * ONLINE_COUNTERS_PER_STAGE == 12 * n);
    assert(n * COMPLETION_COUNTERS_PER_STAGE == 2 * n);
    assert(matrix_cell_count(n) == 128 * n + 4096 * n + 4096 * (n - 1));
}

/// A memory estimate counts eight bytes for every counter and bound, a header
/// and the text of every name, and the recorder with two reference counts; its
/// total is the sum of its items.
pub proof fn law_memory_is_counted_item_by_item(
    layout: FixedStorageLayout,
    lengths: Seq<usize>,
    found: MemoryEstimate,
)
    requires
        memory_estimate_of(layout, lengths) == Ok::<MemoryEstimate, InitError>(found),
    ensures
        found.matrix == 8 * layout.matrix.counter_count,
        found.calibration == 8 * layout.calibration_count,
        found.online == 8 * layout.online_count,
        found.bounds == 8 * (63 + 249),
        found.completion == 8 * layout.completion_count,
        found.diagnostics == 64,
        found.stage_metadata == layout.stage_count * vstd::layout::size_of::<Box<str>>()
            + total_length(lengths),
        found.recorder_metadata == vstd::layout::size_of::<Inner>() + 2
            * vstd::layout::size_of::<usize>(),
        found.total == found.matrix + found.calibration + found.online + found.bounds
            + found.stage_metadata + found.completion + found.diagnostics
            + found.recorder_metadata,
{
    assert(0 <= layout.stage_count * vstd::layout::size_of::<Box<str>>()) by (nonlinear_arith);
}

/// An estimate is refused exactly when the items together exceed what can be
/// addressed.
pub proof fn law_memory_is_refused_when_it_cannot_be_addressed(
    layout: FixedStorageLayout,
    lengths: Seq<usize>,
)
    ensures
        ({
            let bytes = 8 * (layout.matrix.counter_count + layout.calibration_count
                + layout.online_count + layout.completion_count + 8 + 63 + 249)
                + layout.stage_count * vstd::layout::size_of::<Box<str>>()
                + total_length(lengths) + vstd::layout::size_of::<
                Inner,
            >() + 2 * vstd::layout::size_of::<usize>();
            match memory_estimate_of(layout, lengths) {
                Ok(_) => bytes <= usize::MAX,
                Err(error) => bytes > usize::MAX && error == InitError::SizeOverflow,
            }
        }),
{
}

/// Names have the length of their text in bytes, and all names the sum of them.
pub proof fn law_name_lengths_are_bytes(names: Seq<Box<str>>, at: int)
    requires
        0 <= at < names.len(),
        vstd::utf8::encode_utf8(names[at]@).len() <= usize::MAX,
    ensures
        name_lengths(names).len() == names.len(),
        name_lengths(names)[at] == vstd::utf8::encode_utf8(names[at]@).len(),
{
}

/// A registry is refused without stages, and when its counters cannot be counted;
/// else it has a place for every counter of its stages.
pub proof fn law_registries_need_stages(builder: TracegramsBuilder)
    requires
        builder.wf(),
    ensures
        match builder.layout_of() {
            Ok(layout) => builder.stage_names@.len() > 0 && layout.stage_count
                == builder.stage_names@.len() && layout.wf(),
            Err(InitError::NoStages) => builder.stage_names@.len() == 0,
            Err(error) => error == InitError::SizeOverflow && cell_count(
                builder.stage_names@.len() as int,
            ) > usize::MAX,
        },
{
    if let Ok(layout) = builder.layout_of() {
        law_storage_has_every_distribution(builder.stage_names@.len() as usize);
    }
}

/// A snapshot and a recorder have exactly the stages of their own registry that
/// were registered.
pub proof fn law_registries_have_their_own_stages(
    snapshot: Snapshot,
    recorder: Tracegrams,
    stage: StageId,
)
    requires
        recorder.wf(),
    ensures
        snapshot.owns(stage) <==> stage.cookie == snapshot.cookie && stage.index
            < snapshot.stages@.len(),
        recorder.inner.owns(stage) <==> stage.cookie == recorder.inner.cookie && stage.index
            < recorder.inner.stage_names@.len(),
{
}

/// A new recorder collects, with nothing counted and nothing published.
pub proof fn law_new_recorders_are_empty(recorder: Tracegrams, cell: Cell)
    requires
        recorder.wf(),
        recorder.inner.is_new(),
        recorder.inner.layout.holds(cell),
    ensures
        recorder.inner.counters@[recorder.inner.layout.offset(cell)] == 0,
        recorder.inner.calibration_state == CalibrationState::Collecting,
        recorder.current_epoch() == 0,
        forall|i: int|
            0 <= i < recorder.inner.frozen_calibration@.len()
                ==> #[trigger] recorder.inner.frozen_calibration@[i] is None,
{
    recorder.inner.layout.lemma_offset_bounded(cell);
}

/// A recorder has an epoch only once it is frozen.
pub proof fn law_epochs_begin_with_a_freeze(recorder: Tracegrams)
    ensures
        recorder.current_epoch() == (if recorder.inner.calibration_state
            == CalibrationState::Frozen {
            recorder.inner.calibration_epoch
        } else {
            0
        }),
{
}

/// Calibration states are stored as distinct numbers.
pub proof fn law_states_are_stored_apart(first: CalibrationState, second: CalibrationState)
    ensures
        first.stored() == second.stored() ==> first == second,
        first == CalibrationState::Collecting ==> first.stored() == 0,
        first == CalibrationState::Freezing ==> first.stored() == 1,
        first == CalibrationState::Frozen ==> first.stored() == 2,
{
}

/// The length of all names adds the length of every one.
pub proof fn law_lengths_add_every_name(lengths: Seq<usize>)
    ensures
        total_length(lengths) == lengths.fold_left(0int, |sum: int, length: usize| sum + length),
    decreases lengths.len(),
{
    if lengths.len() > 0 {
        law_lengths_add_every_name(lengths.drop_last());
    }
}

} // verus!
