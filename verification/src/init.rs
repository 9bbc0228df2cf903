//! Stage registration and bounded recorder construction.

use vstd::prelude::*;
use vstd::utf8::{encode_utf8, encode_utf8_decode_utf8};

use crate::binary64::{equal_numbers, same_number};
use crate::bucket::{calibration_bounds, default_bounds};
use crate::bucket::{CALIBRATION_BOUND_COUNT, DEFAULT_BOUND_COUNT};
use crate::layout::{cell_count, FixedStorageLayout, DIAGNOSTIC_COUNTERS};
use crate::matrix::COUNTER_BYTES;
use crate::quantile::{is_valid_quantile, valid_quantile};
use crate::recorder::Inner;

verus! {

/// Binary64 pattern of the default tail quantile, 0.99.
pub const DEFAULT_TAIL_QUANTILE: u64 = 0x3fef_ae14_7ae1_47ae;

/// Default recorder budget: eight mebibytes.
pub const DEFAULT_MEMORY_BUDGET_BYTES: usize = 8_388_608;

/// Most stages of one registry.
pub const MAX_STAGES: usize = 64;

/// First cookie handed out by a cookie source.
pub const FIRST_REGISTRY_COOKIE: u64 = 1;

/// Last cookie handed out by a cookie source.
pub const MAX_REGISTRY_COOKIE: u64 = 0xffff_ffff;

/// Brand of one registry.
#[derive(Clone, Copy, Debug, PartialEq, Eq, Hash, Structural)]
pub struct RegistryCookie(pub u32);

/// An opaque, registry-branded identifier for a stage.
///
/// Identifiers are dense and ordered by registration. An identifier is valid
/// only with the [`Tracegrams`] instance built by the same builder.
#[derive(Clone, Copy, PartialEq, Eq, Hash, Structural)]
pub struct StageId {
    /// Brand of the registry.
    pub cookie: RegistryCookie,
    /// Position in registration order.
    pub index: u8,
}

impl StageId {
    /// Returns the identifier at a position of a registry.
    pub fn new(cookie: RegistryCookie, index: u8) -> (stage: Self)
        ensures
            stage == (StageId { cookie, index }),
    {
        StageId { cookie, index }
    }

    /// Returns the brand of the registry.
    pub fn cookie(self) -> (cookie: RegistryCookie)
        ensures
            cookie == self.cookie,
    {
        self.cookie
    }

    /// Returns the position in registration order.
    pub fn index(self) -> (index: usize)
        ensures
            index == self.index,
    {
        self.index as usize
    }
}

/// Itemized recorder memory estimate, excluding allocator rounding.
#[derive(Clone, Copy, Debug, PartialEq, Eq, Structural)]
pub struct MemoryEstimate {
    /// Ordinary distributions and joint matrices.
    pub matrix: usize,
    /// Calibration distributions.
    pub calibration: usize,
    /// Online truth cells.
    pub online: usize,
    /// Pinned bounds.
    pub bounds: usize,
    /// Stage names.
    pub stage_metadata: usize,
    /// Completion counters.
    pub completion: usize,
    /// Diagnostics.
    pub diagnostics: usize,
    /// Fixed recorder metadata.
    pub recorder_metadata: usize,
    /// Everything together.
    pub total: usize,
}

impl MemoryEstimate {
    /// The total is the sum of the items.
    pub open spec fn wf(self) -> bool {
        self.total == self.matrix + self.calibration + self.online + self.bounds
            + self.stage_metadata + self.completion + self.diagnostics + self.recorder_metadata
    }

    /// Bytes used by ordinary distributions and transition matrices.
    pub fn matrix_bytes(self) -> (bytes: usize)
        ensures
            bytes == self.matrix,
    {
        self.matrix
    }

    /// Bytes used by calibration distributions.
    pub fn calibration_bytes(self) -> (bytes: usize)
        ensures
            bytes == self.calibration,
    {
        self.calibration
    }

    /// Bytes used by calibrated-online truth-table counters.
    pub fn online_bytes(self) -> (bytes: usize)
        ensures
            bytes == self.online,
    {
        self.online
    }

    /// Bytes used by the pinned ordinary and calibration bounds.
    pub fn bounds_bytes(self) -> (bytes: usize)
        ensures
            bytes == self.bounds,
    {
        self.bounds
    }

    /// Bytes used by stage-name metadata.
    pub fn stage_metadata_bytes(self) -> (bytes: usize)
        ensures
            bytes == self.stage_metadata,
    {
        self.stage_metadata
    }

    /// Bytes used by success and error completion counters.
    pub fn completion_bytes(self) -> (bytes: usize)
        ensures
            bytes == self.completion,
    {
        self.completion
    }

    /// Bytes used by hot-path diagnostic counters.
    pub fn diagnostics_bytes(self) -> (bytes: usize)
        ensures
            bytes == self.diagnostics,
    {
        self.diagnostics
    }

    /// Bytes used by fixed recorder and shared-handle metadata.
    pub fn recorder_metadata_bytes(self) -> (bytes: usize)
        ensures
            bytes == self.recorder_metadata,
    {
        self.recorder_metadata
    }

    /// Total bytes included in the estimate.
    pub fn total_bytes(self) -> (bytes: usize)
        ensures
            bytes == self.total,
    {
        self.total
    }
}

/// A structured failure while registering or building a recorder.
///
/// Rejected quantiles are equal as numbers are.
#[derive(Debug)]
#[non_exhaustive]
pub enum InitError {
    /// A stage name was empty.
    EmptyStageName,
    /// A stage name was already registered.
    DuplicateStageName {
        /// The duplicate name.
        name: String,
    },
    /// No stages were registered.
    NoStages,
    /// Registration exceeded the supported stage count.
    TooManyStages {
        /// Maximum supported stage count.
        maximum: usize,
    },
    /// The tail quantile was non-finite or outside `(0, 1]`.
    InvalidTailQuantile {
        /// Binary64 pattern of the rejected quantile.
        value: u64,
    },
    /// The registry-cookie space was exhausted.
    RegistryCookieExhausted,
    /// Checked storage-size arithmetic overflowed.
    SizeOverflow,
    /// The recorder estimate exceeded the configured budget.
    MemoryBudgetExceeded {
        /// Estimated bytes required.
        required: usize,
        /// Configured byte budget.
        budget: usize,
    },
}

impl PartialEq for InitError {
    fn eq(&self, other: &Self) -> (equal: bool) {
        match (self, other) {
            (InitError::EmptyStageName, InitError::EmptyStageName) => true,
            (
                InitError::DuplicateStageName { name: first },
                InitError::DuplicateStageName { name: second },
            ) => same_text(first, second),
            (InitError::NoStages, InitError::NoStages) => true,
            (
                InitError::TooManyStages { maximum: first },
                InitError::TooManyStages { maximum: second },
            ) => *first == *second,
            (
                InitError::InvalidTailQuantile { value: first },
                InitError::InvalidTailQuantile { value: second },
            ) => equal_numbers(*first, *second),
            (InitError::RegistryCookieExhausted, InitError::RegistryCookieExhausted) => true,
            (InitError::SizeOverflow, InitError::SizeOverflow) => true,
            (
                InitError::MemoryBudgetExceeded { required: first, budget: first_budget },
                InitError::MemoryBudgetExceeded { required: second, budget: second_budget },
            ) => *first == *second && *first_budget == *second_budget,
            _ => false,
        }
    }
}

impl vstd::std_specs::cmp::PartialEqSpecImpl for InitError {
    open spec fn obeys_eq_spec() -> bool {
        true
    }

    open spec fn eq_spec(&self, other: &Self) -> bool {
        match (*self, *other) {
            (
                InitError::DuplicateStageName { name: first },
                InitError::DuplicateStageName { name: second },
            ) => first@ == second@,
            (
                InitError::InvalidTailQuantile { value: first },
                InitError::InvalidTailQuantile { value: second },
            ) => same_number(first, second),
            (first, second) => first == second,
        }
    }
}

/// `String::into_boxed_str` of the standard library keeps the text and drops the
/// spare capacity; only that the text is the same is claimed of it.
pub assume_specification[ String::into_boxed_str ](text: String) -> (boxed: Box<str>)
    ensures
        boxed@ == text@,
;

/// Returns whether two texts are the same, byte by byte.
fn same_text(first: &str, second: &str) -> (same: bool)
    ensures
        same == (first@ == second@),
{
    let first_bytes = first.as_bytes();
    let second_bytes = second.as_bytes();
    if first_bytes.len() != second_bytes.len() {
        return false;
    }
    let mut at: usize = 0;
    while at < first_bytes.len()
        invariant
            at <= first_bytes@.len(),
            first_bytes@ == encode_utf8(first@),
            second_bytes@ == encode_utf8(second@),
            first_bytes@.len() == second_bytes@.len(),
            forall|i: int| 0 <= i < at ==> first_bytes@[i] == second_bytes@[i],
        decreases first_bytes@.len() - at,
    {
        if first_bytes[at] != second_bytes[at] {
            return false;
        }
        at = at + 1;
    }
    proof {
        assert(first_bytes@ =~= second_bytes@);
        encode_utf8_decode_utf8(first@);
        encode_utf8_decode_utf8(second@);
    }
    true
}

/// Bytes of the text of a name.
pub open spec fn name_length(name: Seq<char>) -> usize {
    encode_utf8(name).len() as usize
}

/// Bytes of the texts of all names.
pub open spec fn name_lengths(names: Seq<Box<str>>) -> Seq<usize> {
    Seq::new(names.len(), |i: int| name_length(names[i]@))
}

/// The sum of lengths.
pub open spec fn total_length(lengths: Seq<usize>) -> nat
    decreases lengths.len(),
{
    if lengths.len() == 0 {
        0
    } else {
        total_length(lengths.drop_last()) + lengths.last() as nat
    }
}

proof fn lemma_total_length_step(lengths: Seq<usize>, at: int)
    requires
        0 <= at < lengths.len(),
    ensures
        total_length(lengths.take(at + 1)) == total_length(lengths.take(at)) + lengths[at],
{
    assert(lengths.take(at + 1).drop_last() =~= lengths.take(at));
}

proof fn lemma_total_length_prefix(lengths: Seq<usize>, at: int)
    requires
        0 <= at <= lengths.len(),
    ensures
        total_length(lengths.take(at)) <= total_length(lengths),
    decreases lengths.len() - at,
{
    if at < lengths.len() {
        lemma_total_length_step(lengths, at);
        lemma_total_length_prefix(lengths, at + 1);
    } else {
        assert(lengths.take(at) =~= lengths);
    }
}

/// Bytes of both pinned grids.
pub open spec fn bounds_size() -> nat {
    ((DEFAULT_BOUND_COUNT + CALIBRATION_BOUND_COUNT) * COUNTER_BYTES) as nat
}

/// Bytes of the stage names with their headers.
pub open spec fn stage_metadata_size(stage_count: nat, lengths: Seq<usize>) -> nat {
    stage_count * vstd::layout::size_of::<Box<str>>() + total_length(lengths)
}

/// Bytes of the recorder with the two reference counts of its shared handle.
pub open spec fn recorder_metadata_size() -> nat {
    vstd::layout::size_of::<Inner>() + 2 * vstd::layout::size_of::<usize>()
}

/// Bytes that a recorder takes.
pub open spec fn memory_size(layout: FixedStorageLayout, lengths: Seq<usize>) -> nat {
    (layout.matrix.counter_count * COUNTER_BYTES + layout.calibration_count * COUNTER_BYTES
        + layout.online_count * COUNTER_BYTES + layout.completion_count * COUNTER_BYTES
        + DIAGNOSTIC_COUNTERS * COUNTER_BYTES) as nat + bounds_size() + stage_metadata_size(
        layout.stage_count as nat,
        lengths,
    ) + recorder_metadata_size()
}

/// The itemized estimate of a recorder.
pub open spec fn memory_estimate_of(layout: FixedStorageLayout, lengths: Seq<usize>) -> Result<
    MemoryEstimate,
    InitError,
> {
    if memory_size(layout, lengths) > usize::MAX {
        Err(InitError::SizeOverflow)
    } else {
        Ok(
            MemoryEstimate {
                matrix: (layout.matrix.counter_count * COUNTER_BYTES) as usize,
                calibration: (layout.calibration_count * COUNTER_BYTES) as usize,
                online: (layout.online_count * COUNTER_BYTES) as usize,
                bounds: bounds_size() as usize,
                stage_metadata: stage_metadata_size(
                    layout.stage_count as nat,
                    lengths,
                ) as usize,
                completion: (layout.completion_count * COUNTER_BYTES) as usize,
                diagnostics: (DIAGNOSTIC_COUNTERS * COUNTER_BYTES) as usize,
                recorder_metadata: recorder_metadata_size() as usize,
                total: memory_size(layout, lengths) as usize,
            },
        )
    }
}

fn checked_bytes(items: usize, item_bytes: usize) -> (bytes: Result<usize, InitError>)
    ensures
        bytes == (if items * item_bytes <= usize::MAX {
            Ok::<usize, InitError>((items * item_bytes) as usize)
        } else {
            Err(InitError::SizeOverflow)
        }),
{
    match items.checked_mul(item_bytes) {
        Some(bytes) => Ok(bytes),
        None => Err(InitError::SizeOverflow),
    }
}

fn checked_sum(first: usize, second: usize) -> (bytes: Result<usize, InitError>)
    ensures
        bytes == (if first + second <= usize::MAX {
            Ok::<usize, InitError>((first + second) as usize)
        } else {
            Err(InitError::SizeOverflow)
        }),
{
    match first.checked_add(second) {
        Some(bytes) => Ok(bytes),
        None => Err(InitError::SizeOverflow),
    }
}

fn checked_total_length(lengths: &[usize]) -> (bytes: Result<usize, InitError>)
    ensures
        bytes == (if total_length(lengths@) <= usize::MAX {
            Ok::<usize, InitError>(total_length(lengths@) as usize)
        } else {
            Err(InitError::SizeOverflow)
        }),
{
    let mut total: usize = 0;
    let mut at: usize = 0;
    assert(lengths@.take(0) =~= Seq::<usize>::empty());
    while at < lengths.len()
        invariant
            at <= lengths@.len(),
            total == total_length(lengths@.take(at as int)),
        decreases lengths@.len() - at,
    {
        proof {
            lemma_total_length_step(lengths@, at as int);
            lemma_total_length_prefix(lengths@, at + 1);
        }
        total = checked_sum(total, lengths[at])?;
        at = at + 1;
    }
    assert(lengths@.take(at as int) =~= lengths@);
    Ok(total)
}

/// Estimates the memory of a recorder from its layout and the lengths of its
/// stage names.
///
/// A shared handle keeps two reference counts alongside the recorder; allocator
/// rounding is outside this estimate.
pub fn estimate_memory(layout: FixedStorageLayout, stage_name_lengths: &[usize]) -> (result:
    Result<MemoryEstimate, InitError>)
    ensures
        result == memory_estimate_of(layout, stage_name_lengths@),
        result matches Ok(estimate) ==> estimate.wf(),
{
    let ghost size = memory_size(layout, stage_name_lengths@);
    let matrix: usize = checked_bytes(layout.matrix_counter_count(), COUNTER_BYTES)?;
    let calibration: usize = checked_bytes(layout.calibration_counter_count(), COUNTER_BYTES)?;
    let online: usize = checked_bytes(layout.online_counter_count(), COUNTER_BYTES)?;
    let completion: usize = checked_bytes(layout.completion_counter_count(), COUNTER_BYTES)?;
    let diagnostics: usize = checked_bytes(
        FixedStorageLayout::diagnostic_counter_count(),
        COUNTER_BYTES,
    )?;
    let bounds_count: usize = default_bounds().as_slice().len()
        + calibration_bounds().as_slice().len();
    let bounds: usize = checked_bytes(bounds_count, COUNTER_BYTES)?;
    let header_bytes: usize = core::mem::size_of::<Box<str>>();
    proof {
        assert(0 <= layout.stage_count * header_bytes) by (nonlinear_arith);
        assert(layout.stage_count * header_bytes == layout.stage_count as nat
            * vstd::layout::size_of::<Box<str>>());
    }
    let headers: usize = checked_bytes(layout.stage_count(), header_bytes)?;
    let names: usize = checked_total_length(stage_name_lengths)?;
    let stage_metadata: usize = checked_sum(headers, names)?;
    let word_bytes: usize = core::mem::size_of::<usize>();
    let word_counts: usize = checked_bytes(2, word_bytes)?;
    let recorder_metadata: usize = checked_sum(core::mem::size_of::<Inner>(), word_counts)?;
    let mut total: usize = checked_sum(matrix, calibration)?;
    total = checked_sum(total, online)?;
    total = checked_sum(total, bounds)?;
    total = checked_sum(total, stage_metadata)?;
    total = checked_sum(total, completion)?;
    total = checked_sum(total, diagnostics)?;
    total = checked_sum(total, recorder_metadata)?;
    Ok(
        MemoryEstimate {
            matrix,
            calibration,
            online,
            bounds,
            stage_metadata,
            completion,
            diagnostics,
            recorder_metadata,
            total,
        },
    )
}

/// The cookie that a source holding `current` hands out.
pub open spec fn cookie_of(current: u64) -> Option<RegistryCookie> {
    if current > MAX_REGISTRY_COOKIE {
        None
    } else {
        Some(RegistryCookie(current as u32))
    }
}

/// Returns the cookie that a source holding `current` hands out.
pub fn registry_cookie(current: u64) -> (cookie: Option<RegistryCookie>)
    ensures
        cookie == cookie_of(current),
        cookie is Some ==> current < u64::MAX,
{
    if current > MAX_REGISTRY_COOKIE {
        return None;
    }
    Some(RegistryCookie(current as u32))
}

/// Claims the next cookie of a source, which never hands out one twice.
pub fn claim_registry_cookie(source: &mut u64) -> (cookie: Option<RegistryCookie>)
    ensures
        cookie == cookie_of(*old(source)),
        *final(source) == *old(source) + (if cookie is Some {
            1int
        } else {
            0int
        }),
{
    let cookie = registry_cookie(*source);
    if cookie.is_some() {
        *source = *source + 1;
    }
    cookie
}

/// Different values of a source hand out different cookies; since claiming only
/// moves a source forward, no two registries share a brand.
pub proof fn law_cookies_are_unique(earlier: u64, later: u64)
    requires
        earlier != later,
        cookie_of(earlier) is Some,
        cookie_of(later) is Some,
    ensures
        cookie_of(earlier) != cookie_of(later),
{
}

/// Builder for a fixed-size [`Tracegrams`] recorder.
#[derive(Debug)]
pub struct TracegramsBuilder {
    /// Brand of the registry, unless the source was exhausted.
    pub cookie: Option<RegistryCookie>,
    /// Registered names.
    pub stage_names: Vec<Box<str>>,
    /// Binary64 pattern of the tail quantile.
    pub tail_quantile: u64,
    /// Most bytes that a recorder may take.
    pub memory_budget_bytes: usize,
}

/// Whether a name is registered.
pub open spec fn registered(names: Seq<Box<str>>, name: Seq<char>) -> bool {
    exists|i: int| 0 <= i < names.len() && (#[trigger] names[i])@ == name
}

/// Names are non-empty and unique, and at most as many as are supported.
pub open spec fn valid_names(names: Seq<Box<str>>) -> bool {
    &&& names.len() <= MAX_STAGES
    &&& forall|i: int| 0 <= i < names.len() ==> (#[trigger] names[i])@.len() > 0
    &&& forall|i: int, j: int|
        0 <= i < j < names.len() ==> (#[trigger] names[i])@ != (#[trigger] names[j])@
}

impl TracegramsBuilder {
    /// The invariant of a builder.
    pub open spec fn wf(self) -> bool {
        &&& valid_names(self.stage_names@)
        &&& valid_quantile(self.tail_quantile)
    }

    /// Starts an empty registry with a cookie of `source`.
    pub fn new(source: &mut u64) -> (builder: Self)
        ensures
            builder.wf(),
            builder.cookie == cookie_of(*old(source)),
            builder.stage_names@.len() == 0,
            builder.tail_quantile == DEFAULT_TAIL_QUANTILE,
            builder.memory_budget_bytes == DEFAULT_MEMORY_BUDGET_BYTES,
            *final(source) == *old(source) + (if builder.cookie is Some {
                1int
            } else {
                0int
            }),
    {
        TracegramsBuilder {
            cookie: claim_registry_cookie(source),
            stage_names: Vec::new(),
            tail_quantile: DEFAULT_TAIL_QUANTILE,
            memory_budget_bytes: DEFAULT_MEMORY_BUDGET_BYTES,
        }
    }

    /// Registers a stage and returns its dense, registry-branded identifier.
    pub fn stage(&mut self, name: &str) -> (result: Result<StageId, InitError>)
        requires
            old(self).wf(),
        ensures
            final(self).wf(),
            match result {
                Ok(stage) => {
                    &&& old(self).cookie == Some(stage.cookie)
                    &&& name@.len() > 0
                    &&& old(self).stage_names@.len() < MAX_STAGES
                    &&& !registered(old(self).stage_names@, name@)
                    &&& stage.index == old(self).stage_names@.len()
                    &&& final(self).stage_names@.len() == old(self).stage_names@.len() + 1
                    &&& final(self).stage_names@.last()@ == name@
                    &&& final(self).stage_names@.drop_last() == old(self).stage_names@
                },
                Err(error) => {
                    &&& final(self).stage_names@ == old(self).stage_names@
                    &&& match error {
                        InitError::RegistryCookieExhausted => old(self).cookie is None,
                        InitError::EmptyStageName => old(self).cookie is Some && name@.len() == 0,
                        InitError::TooManyStages { maximum } => old(self).cookie is Some
                            && name@.len() > 0 && old(self).stage_names@.len() == MAX_STAGES
                            && maximum == MAX_STAGES,
                        InitError::DuplicateStageName { name: duplicate } => old(self).cookie
                            is Some && old(self).stage_names@.len() < MAX_STAGES && registered(
                            old(self).stage_names@,
                            name@,
                        ) && duplicate@ == name@,
                        _ => false,
                    }
                },
            },
            final(self).cookie == old(self).cookie,
            final(self).tail_quantile == old(self).tail_quantile,
            final(self).memory_budget_bytes == old(self).memory_budget_bytes,
    {
        let cookie = match self.cookie {
            Some(cookie) => cookie,
            None => {
                return Err(InitError::RegistryCookieExhausted);
            },
        };
        if name.is_empty() {
            return Err(InitError::EmptyStageName);
        }
        if self.stage_names.len() == MAX_STAGES {
            return Err(InitError::TooManyStages { maximum: MAX_STAGES });
        }
        let mut at: usize = 0;
        while at < self.stage_names.len()
            invariant
                at <= self.stage_names@.len(),
                name@.len() > 0,
                *self == *old(self),
                self.wf(),
                self.cookie == Some(cookie),
                self.stage_names@.len() < MAX_STAGES,
                forall|i: int| 0 <= i < at ==> (#[trigger] self.stage_names@[i])@ != name@,
            decreases self.stage_names@.len() - at,
        {
            if same_text(&self.stage_names[at], name) {
                assert(registered(self.stage_names@, name@)) by {
                    assert(self.stage_names@[at as int]@ == name@);
                }
                return Err(InitError::DuplicateStageName { name: name.to_owned() });
            }
            at = at + 1;
        }
        let index: u8 = self.stage_names.len() as u8;
        self.stage_names.push(name.to_owned().into_boxed_str());
        assert(self.stage_names@.drop_last() =~= old(self).stage_names@);
        Ok(StageId::new(cookie, index))
    }

    /// Sets the nearest-rank tail quantile used for calibration, given by its
    /// binary64 pattern.
    pub fn tail_quantile(&mut self, bits: u64) -> (result: Result<&mut Self, InitError>)
        requires
            old(self).wf(),
        ensures
            match result {
                Ok(builder) => {
                    &&& valid_quantile(bits)
                    &&& *builder == (TracegramsBuilder { tail_quantile: bits, ..*old(self) })
                    &&& *final(self) == *final(builder)
                },
                Err(error) => {
                    &&& !valid_quantile(bits)
                    &&& error == (InitError::InvalidTailQuantile { value: bits })
                    &&& *final(self) == *old(self)
                },
            },
    {
        if !is_valid_quantile(bits) {
            return Err(InitError::InvalidTailQuantile { value: bits });
        }
        self.tail_quantile = bits;
        Ok(self)
    }

    /// Sets the maximum recorder estimate accepted by [`Self::build`].
    pub fn memory_budget_bytes(&mut self, budget: usize) -> (builder: &mut Self)
        ensures
            *builder == (TracegramsBuilder { memory_budget_bytes: budget, ..*old(self) }),
            *final(self) == *final(builder),
    {
        self.memory_budget_bytes = budget;
        self
    }

    /// The layout of the registered stages.
    pub open spec fn layout_of(self) -> Result<FixedStorageLayout, InitError> {
        if self.stage_names@.len() == 0 {
            Err(InitError::NoStages)
        } else if cell_count(self.stage_names@.len() as int) > usize::MAX {
            Err(InitError::SizeOverflow)
        } else {
            Ok(crate::layout::layout_for(self.stage_names@.len() as int))
        }
    }

    /// The estimate of the registered stages.
    pub open spec fn estimate_of(self) -> Result<MemoryEstimate, InitError> {
        match self.layout_of() {
            Err(error) => Err(error),
            Ok(layout) => memory_estimate_of(layout, name_lengths(self.stage_names@)),
        }
    }

    /// Estimates all fixed recorder-owned memory before building.
    pub fn estimated_memory(&self) -> (result: Result<MemoryEstimate, InitError>)
        ensures
            result == self.estimate_of(),
            result matches Ok(estimate) ==> estimate.wf(),
    {
        let layout = self.storage_layout()?;
        estimate_memory(layout, self.stage_name_lengths().as_slice())
    }

    /// Validates the configuration and allocates one fixed recorder.
    pub fn build(self) -> (result: Result<Tracegrams, InitError>)
        requires
            self.wf(),
        ensures
            match result {
                Ok(recorder) => {
                    &&& self.cookie == Some(recorder.inner.cookie)
                    &&& self.estimate_of() == Ok::<MemoryEstimate, InitError>(
                        recorder.inner.memory_estimate,
                    )
                    &&& recorder.inner.memory_estimate.total <= self.memory_budget_bytes
                    &&& self.layout_of() == Ok::<FixedStorageLayout, InitError>(
                        recorder.inner.layout,
                    )
                    &&& recorder.inner.stage_names@ == self.stage_names@
                    &&& recorder.inner.tail_quantile == self.tail_quantile
                    &&& recorder.inner.memory_budget_bytes == self.memory_budget_bytes
                    &&& recorder.inner.wf()
                    &&& recorder.inner.is_new()
                },
                Err(error) => if self.cookie is None {
                    error == InitError::RegistryCookieExhausted
                } else {
                    match self.estimate_of() {
                        Err(reason) => error == reason,
                        Ok(estimate) => estimate.total > self.memory_budget_bytes && error == (
                        InitError::MemoryBudgetExceeded {
                            required: estimate.total,
                            budget: self.memory_budget_bytes,
                        }),
                    }
                },
            },
    {
        let cookie = match self.cookie {
            Some(cookie) => cookie,
            None => {
                return Err(InitError::RegistryCookieExhausted);
            },
        };
        let layout = self.storage_layout()?;
        let estimate = estimate_memory(layout, self.stage_name_lengths().as_slice())?;
        if estimate.total > self.memory_budget_bytes {
            return Err(
                InitError::MemoryBudgetExceeded {
                    required: estimate.total,
                    budget: self.memory_budget_bytes,
                },
            );
        }
        Ok(
            Tracegrams {
                inner: Inner::new(
                    cookie,
                    self.stage_names,
                    self.tail_quantile,
                    self.memory_budget_bytes,
                    estimate,
                    layout,
                ),
            },
        )
    }

    fn storage_layout(&self) -> (result: Result<FixedStorageLayout, InitError>)
        ensures
            result == self.layout_of(),
            result matches Ok(layout) ==> layout.wf() && layout.stage_count
                == self.stage_names@.len(),
    {
        if self.stage_names.len() == 0 {
            return Err(InitError::NoStages);
        }
        match FixedStorageLayout::new(self.stage_names.len()) {
            Some(layout) => Ok(layout),
            None => Err(InitError::SizeOverflow),
        }
    }

    fn stage_name_lengths(&self) -> (lengths: Vec<usize>)
        ensures
            lengths@ == name_lengths(self.stage_names@),
    {
        let mut lengths: Vec<usize> = Vec::new();
        let mut at: usize = 0;
        while at < self.stage_names.len()
            invariant
                at <= self.stage_names@.len(),
                lengths@ == name_lengths(self.stage_names@).take(at as int),
            decreases self.stage_names@.len() - at,
        {
            let length: usize = (&*self.stage_names[at]).len();
            lengths.push(length);
            at = at + 1;
            assert(lengths@ =~= name_lengths(self.stage_names@).take(at as int));
        }
        assert(lengths@ =~= name_lengths(self.stage_names@));
        lengths
    }
}

/// One fixed-size recorder.
pub struct Tracegrams {
    /// The recorder's storage and registry.
    pub inner: Inner,
}

impl Tracegrams {
    /// The invariant of a recorder.
    pub open spec fn wf(self) -> bool {
        self.inner.wf()
    }

    /// Starts a runtime registry builder with a cookie of `source`.
    pub fn builder(source: &mut u64) -> (builder: TracegramsBuilder)
        ensures
            builder.wf(),
            builder.cookie == cookie_of(*old(source)),
            builder.stage_names@.len() == 0,
            builder.tail_quantile == DEFAULT_TAIL_QUANTILE,
            builder.memory_budget_bytes == DEFAULT_MEMORY_BUDGET_BYTES,
            *final(source) == *old(source) + (if builder.cookie is Some {
                1int
            } else {
                0int
            }),
    {
        TracegramsBuilder::new(source)
    }
}

} // verus!
