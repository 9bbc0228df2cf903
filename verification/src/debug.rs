//! Debug output of the types that do not show all of their fields.
//!
//! What reaches the writer behind a formatter is not visible to proofs, so the
//! `fmt` functions here state nothing of it. They hand each shown field to the
//! builders of the standard library, which honour the flags of the formatter.

use vstd::prelude::*;

use crate::context::ManualCtx;
use crate::init::{StageId, Tracegrams};

verus! {

/// `core::fmt::Formatter`, carried through to its builders.
#[verifier::external_type_specification]
#[verifier::external_body]
pub struct ExFormatter<'a>(core::fmt::Formatter<'a>);

/// `core::fmt::Error`, handed on to the caller.
#[verifier::external_type_specification]
#[verifier::external_body]
pub struct ExFormatError(core::fmt::Error);

/// `core::fmt::DebugTuple`, the builder for tuple structs.
#[verifier::external_type_specification]
#[verifier::external_body]
pub struct ExDebugTuple<'a, 'b: 'a>(core::fmt::DebugTuple<'a, 'b>);

/// `core::fmt::DebugStruct`, the builder for structs.
#[verifier::external_type_specification]
#[verifier::external_body]
pub struct ExDebugStruct<'a, 'b: 'a>(core::fmt::DebugStruct<'a, 'b>);

/// `Formatter::debug_tuple` starts the output of a tuple struct; nothing is
/// claimed of it.
pub assume_specification<'a, 'b>[ core::fmt::Formatter::<'a>::debug_tuple ](
    formatter: &'b mut core::fmt::Formatter<'a>,
    name: &str,
) -> core::fmt::DebugTuple<'b, 'a>
;

/// `DebugTuple::field` adds a field; nothing is claimed of it.
pub assume_specification<'a, 'b: 'a, 'c>[ core::fmt::DebugTuple::<'a, 'b>::field ](
    tuple: &'c mut core::fmt::DebugTuple<'a, 'b>,
    value: &dyn core::fmt::Debug,
) -> &'c mut core::fmt::DebugTuple<'a, 'b>
;

/// `DebugTuple::finish` ends the output; nothing is claimed of it.
pub assume_specification<'a, 'b: 'a>[ core::fmt::DebugTuple::<'a, 'b>::finish ](
    tuple: &mut core::fmt::DebugTuple<'a, 'b>,
) -> Result<(), core::fmt::Error>
;

/// `Formatter::debug_struct` starts the output of a struct; nothing is claimed of
/// it.
pub assume_specification<'a, 'b>[ core::fmt::Formatter::<'a>::debug_struct ](
    formatter: &'b mut core::fmt::Formatter<'a>,
    name: &str,
) -> core::fmt::DebugStruct<'b, 'a>
;

/// `DebugStruct::field` adds a named field; nothing is claimed of it.
pub assume_specification<'a, 'b: 'a, 'c>[ core::fmt::DebugStruct::<'a, 'b>::field ](
    fields: &'c mut core::fmt::DebugStruct<'a, 'b>,
    name: &str,
    value: &dyn core::fmt::Debug,
) -> &'c mut core::fmt::DebugStruct<'a, 'b>
;

/// `DebugStruct::finish_non_exhaustive` ends the output and marks that fields are
/// left out; nothing is claimed of it.
pub assume_specification<'a, 'b: 'a>[ core::fmt::DebugStruct::<'a, 'b>::finish_non_exhaustive ](
    fields: &mut core::fmt::DebugStruct<'a, 'b>,
) -> Result<(), core::fmt::Error>
;

impl core::fmt::Debug for StageId {
    /// Shows the position without the brand.
    fn fmt(&self, formatter: &mut core::fmt::Formatter<'_>) -> (result: Result<
        (),
        core::fmt::Error,
    >) {
        formatter.debug_tuple("StageId").field(&self.index).finish()
    }
}

impl core::fmt::Debug for ManualCtx {
    /// Shows the progress of the request without its brand.
    fn fmt(&self, formatter: &mut core::fmt::Formatter<'_>) -> (result: Result<
        (),
        core::fmt::Error,
    >) {
        let previous_stage: Option<u8> = match self.state.previous {
            Some(previous) => Some(previous.stage),
            None => None,
        };
        formatter.debug_struct("ManualCtx").field("cumulative_ns", &self.state.cumulative_ns).field(
            "calibration_epoch",
            &self.state.calibration_epoch,
        ).field("previous_stage", &previous_stage).finish_non_exhaustive()
    }
}

impl core::fmt::Debug for Tracegrams {
    /// Shows the configuration without the counters; the tail quantile is shown
    /// by its pattern.
    fn fmt(&self, formatter: &mut core::fmt::Formatter<'_>) -> (result: Result<
        (),
        core::fmt::Error,
    >) {
        let stages: usize = self.inner.stage_names.len();
        formatter.debug_struct("Tracegrams").field("stages", &stages).field(
            "tail_quantile",
            &self.inner.tail_quantile,
        ).field("memory_budget_bytes", &self.inner.memory_budget_bytes).field(
            "memory_estimate",
            &self.inner.memory_estimate,
        ).finish_non_exhaustive()
    }
}

} // verus!
