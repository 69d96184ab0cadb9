//! The ways in which an operation can be refused.

use vstd::prelude::*;

verus! {

/// Why an operation on a `BitLongVec` was refused.
#[derive(Debug, Clone, Copy, PartialEq, Eq, Structural)]
pub enum BitLongVecError {
    /// The requested width was 64 bits or more.
    InvalidWidth,
    /// The adopted buffer does not have the length that capacity and width call for.
    CapacityMismatch,
    /// The index was not below the capacity.
    IndexOutOfBounds,
    /// The value does not fit in the width.
    ValueOutOfRange,
}

} // verus!
