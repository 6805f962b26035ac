//! Mapping of 8-bit channel values onto histogram bins.

use vstd::prelude::*;

verus! {

/// The bin that a channel value falls into when the value range is cut
/// into `bin_count` contiguous bins: `floor(value / 256 * bin_count)`.
pub open spec fn bin_of(value: u8, bin_count: nat) -> nat {
    (value as nat * bin_count) / 256
}

/// Every value lands in an existing bin as soon as there is at least one.
pub proof fn lemma_bin_of_in_range(value: u8, bin_count: nat)
    requires
        bin_count >= 1,
    ensures
        bin_of(value, bin_count) < bin_count,
{
    assert(value as nat * bin_count <= 255 * bin_count) by (nonlinear_arith)
        requires
            value <= 255,
    ;
}

/// Computes the bin of a channel value.
pub fn bin_index(value: u8, bin_count: usize) -> (bin: usize)
    ensures
        bin == bin_of(value, bin_count as nat),
        bin_count >= 1 ==> bin < bin_count,
        bin <= bin_count,
{
    proof {
        assert(value as nat * bin_count as nat <= 255 * bin_count as nat) by (nonlinear_arith)
            requires
                value <= 255,
        ;
    }
    let wide: u128 = value as u128 * bin_count as u128;
    let bin: u128 = wide / 256;
    bin as usize
}

} // verus!
