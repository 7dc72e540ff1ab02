use vstd::prelude::*;

verus! {

/// Why a projection could not be computed.
#[derive(Debug, Clone, Copy, PartialEq, Eq, Structural)]
pub enum PlanError {
    /// The horizon is zero years.
    InvalidHorizon,
    /// The annual rate is zero: the annuity formula would divide by zero.
    InvalidRate,
    /// An amount grew past what a `u64` holds.
    Overflow,
}

} // verus!
