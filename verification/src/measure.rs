//! Exact decimal measures.
//!
//! Lengths are held in thousandths of a length unit and factors as fractions
//! of machine integers, so that every dimension of a design is an exact value
//! that can be compared and stated in a contract.

use vstd::prelude::*;

verus! {

/// Thousandths in one length unit.
pub const THOUSANDTHS_PER_UNIT: u64 = 1000;

/// A length, in thousandths of a length unit.
#[derive(Clone, Copy, Debug, PartialEq, Eq, Structural)]
pub struct Length {
    pub thousandths: u64,
}

/// A factor `numerator / denominator`.
#[derive(Clone, Copy, Debug, PartialEq, Eq, Structural)]
pub struct Ratio {
    pub numerator: usize,
    pub denominator: usize,
}

impl Length {
    /// The length of `thousandths` thousandths of a unit.
    pub fn from_thousandths(thousandths: u64) -> (length: Length)
        ensures
            length.thousandths == thousandths,
    {
        Length { thousandths }
    }
}

} // verus!
