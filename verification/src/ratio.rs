//! Exact quotients of counters.

use vstd::prelude::*;

verus! {

/// An exact non-negative quotient, kept as its two integer parts.
#[derive(Clone, Copy, Debug, PartialEq, Eq, Structural)]
pub struct Ratio {
    /// What is divided.
    pub numerator: u128,
    /// What it is divided by.
    pub denominator: u128,
}

} // verus!
