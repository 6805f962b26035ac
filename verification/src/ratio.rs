//! Exact fractions handed out by the library.

use vstd::prelude::*;

verus! {

/// A non-negative fraction `numerator / denominator`.
#[derive(Clone, Copy, Debug, PartialEq, Eq, Structural)]
pub struct Ratio {
    pub numerator: u128,
    pub denominator: u128,
}

} // verus!
