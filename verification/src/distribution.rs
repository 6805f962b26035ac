//! The mathematical model of a single-channel histogram.

use vstd::prelude::*;
use crate::wide::{lemma_square_facts, square};

verus! {

/// Sum of all weights.
pub open spec fn total(weights: Seq<nat>) -> nat
    decreases weights.len(),
{
    if weights.len() == 0 {
        0
    } else {
        total(weights.drop_last()) + weights.last()
    }
}

/// Largest weight; zero for an empty sequence.
pub open spec fn peak(weights: Seq<nat>) -> nat
    decreases weights.len(),
{
    if weights.len() == 0 {
        0
    } else if peak(weights.drop_last()) >= weights.last() {
        peak(weights.drop_last())
    } else {
        weights.last()
    }
}

/// Sum of every weight multiplied by its bin index.
pub open spec fn moment(weights: Seq<nat>) -> nat
    decreases weights.len(),
{
    if weights.len() == 0 {
        0
    } else {
        moment(weights.drop_last()) + (weights.len() - 1) as nat * weights.last()
    }
}

/// Sum over all bins of the squared difference between the two bin values,
/// each brought onto the common denominator `a_scale * b_scale`.
pub open spec fn cross_gap(a: Seq<nat>, a_scale: nat, b: Seq<nat>, b_scale: nat) -> nat
    recommends
        a.len() == b.len(),
    decreases a.len(),
{
    if a.len() == 0 || b.len() == 0 {
        0
    } else {
        cross_gap(a.drop_last(), a_scale, b.drop_last(), b_scale) + square(
            a.last() * b_scale - b.last() * a_scale,
        )
    }
}

/// An exact squared distance between two distributions, as the fraction
/// `numerator / denominator`.
pub struct Distance {
    pub numerator: nat,
    pub denominator: nat,
}

impl Distance {
    /// Holds when the distance is zero.
    pub open spec fn is_zero(self) -> bool {
        self.numerator == 0
    }
}

/// A frequency distribution over bins. Bin `i` holds the fraction
/// `weights[i] / scale`.
pub struct Distribution {
    pub weights: Seq<nat>,
    pub scale: nat,
}

impl Distribution {
    /// The distribution of `size` bins without any weight.
    pub open spec fn empty(size: nat) -> Distribution {
        Distribution { weights: Seq::new(size, |i: int| 0nat), scale: 1 }
    }

    /// Number of bins.
    pub open spec fn bins(self) -> nat {
        self.weights.len()
    }

    /// Sum of the weights of all bins.
    pub open spec fn total(self) -> nat {
        total(self.weights)
    }

    /// Largest weight of any bin.
    pub open spec fn peak(self) -> nat {
        peak(self.weights)
    }

    /// Numerator of the weighted mean bin index; zero without weight.
    pub open spec fn mean_numerator(self) -> nat {
        if self.total() == 0 {
            0
        } else {
            moment(self.weights)
        }
    }

    /// Denominator of the weighted mean bin index; one without weight.
    pub open spec fn mean_denominator(self) -> nat {
        if self.total() == 0 {
            1
        } else {
            self.total()
        }
    }

    /// The squared distance to `other`: the sum over all bins of
    /// `(self[i] - other[i])^2`, where `self[i]` and `other[i]` are the bin
    /// values.
    pub open spec fn squared_distance(self, other: Distribution) -> Distance
        recommends
            self.bins() == other.bins(),
    {
        Distance {
            numerator: cross_gap(self.weights, self.scale, other.weights, other.scale),
            denominator: square((self.scale * other.scale) as int),
        }
    }

    /// Holds when both distributions give every bin the same value.
    pub open spec fn same_values(self, other: Distribution) -> bool {
        &&& self.bins() == other.bins()
        &&& forall|i: int|
            0 <= i < self.bins() ==> #[trigger] self.weights[i] * other.scale == other.weights[i]
                * self.scale
    }

    /// Holds when no bin carries any weight.
    pub open spec fn is_degenerate(self) -> bool {
        self.total() == 0
    }

    /// Holds when the bin values add up to exactly one.
    pub open spec fn sums_to_one(self) -> bool {
        self.scale >= 1 && self.total() == self.scale
    }

    /// Holds when the largest bin value is exactly one.
    pub open spec fn peaks_at_one(self) -> bool {
        self.scale >= 1 && self.peak() == self.scale
    }

    /// Every bin divided by the sum of all bins. A distribution without
    /// weight is left as it is.
    pub open spec fn normalized(self) -> Distribution {
        if self.total() == 0 {
            self
        } else {
            Distribution { weights: self.weights, scale: self.total() }
        }
    }

    /// Every bin divided by the largest bin. A distribution without weight
    /// is left as it is.
    pub open spec fn maximized(self) -> Distribution {
        if self.peak() == 0 {
            self
        } else {
            Distribution { weights: self.weights, scale: self.peak() }
        }
    }

    /// The bin-by-bin sum with a distribution of the same scale.
    pub open spec fn merged(self, other: Distribution) -> Distribution
        recommends
            self.bins() == other.bins(),
            self.scale == other.scale,
    {
        Distribution {
            weights: Seq::new(self.bins(), |i: int| self.weights[i] + other.weights[i]),
            scale: self.scale,
        }
    }

    /// One more unit in bin `bin`.
    pub open spec fn incremented(self, bin: int) -> Distribution {
        Distribution { weights: self.weights.update(bin, self.weights[bin] + self.scale), scale: self.scale }
    }
}

/// Taking one more element into a prefix raises the peak to that element
/// where it is larger.
pub proof fn lemma_peak_step(weights: Seq<nat>, i: int)
    requires
        0 <= i < weights.len(),
    ensures
        peak(weights.take(i + 1)) == if peak(weights.take(i)) >= weights[i] {
            peak(weights.take(i))
        } else {
            weights[i]
        },
{
    assert(weights.take(i + 1).drop_last() =~= weights.take(i));
}

/// The peak is at least every weight, and some bin attains it.
pub proof fn lemma_peak_is_maximum(weights: Seq<nat>)
    ensures
        forall|i: int| 0 <= i < weights.len() ==> weights[i] <= peak(weights),
        weights.len() > 0 ==> exists|i: int| 0 <= i < weights.len() && weights[i] == peak(weights),
        weights.len() == 0 ==> peak(weights) == 0,
    decreases weights.len(),
{
    if weights.len() > 0 {
        let front = weights.drop_last();
        lemma_peak_is_maximum(front);
        assert forall|i: int| 0 <= i < weights.len() implies weights[i] <= peak(weights) by {
            if i < front.len() {
                assert(front[i] == weights[i]);
            }
        }
        if front.len() > 0 && peak(front) >= weights.last() {
            let k = choose|k: int| 0 <= k < front.len() && front[k] == peak(front);
            assert(weights[k] == peak(weights));
        } else {
            assert(weights[weights.len() - 1] == peak(weights));
        }
    }
}

/// The peak never exceeds the total, and both vanish together.
pub proof fn lemma_peak_and_total(weights: Seq<nat>)
    ensures
        peak(weights) <= total(weights),
        peak(weights) == 0 <==> total(weights) == 0,
    decreases weights.len(),
{
    if weights.len() > 0 {
        lemma_peak_and_total(weights.drop_last());
    }
}

/// Taking one more element into a prefix adds its index times its weight to
/// the moment.
pub proof fn lemma_moment_step(weights: Seq<nat>, i: int)
    requires
        0 <= i < weights.len(),
    ensures
        moment(weights.take(i + 1)) == moment(weights.take(i)) + i * weights[i],
{
    assert(weights.take(i + 1).drop_last() =~= weights.take(i));
}

/// The moment is bounded by the number of bins times the total weight.
pub proof fn lemma_moment_bound(weights: Seq<nat>)
    ensures
        moment(weights) <= weights.len() * total(weights),
    decreases weights.len(),
{
    if weights.len() > 0 {
        let front = weights.drop_last();
        lemma_moment_bound(front);
        let n = weights.len() as int;
        let last = weights.last() as int;
        let front_total = total(front) as int;
        assert((n - 1) * front_total + (n - 1) * last <= n * (front_total + last))
            by (nonlinear_arith)
            requires
                n >= 1,
                last >= 0,
                front_total >= 0,
        ;
    }
}

/// Taking one more bin into both prefixes adds the squared difference of
/// that bin.
pub proof fn lemma_cross_gap_step(a: Seq<nat>, a_scale: nat, b: Seq<nat>, b_scale: nat, i: int)
    requires
        a.len() == b.len(),
        0 <= i < a.len(),
    ensures
        cross_gap(a.take(i + 1), a_scale, b.take(i + 1), b_scale) == cross_gap(
            a.take(i),
            a_scale,
            b.take(i),
            b_scale,
        ) + square(a[i] * b_scale - b[i] * a_scale),
{
    assert(a.take(i + 1).drop_last() =~= a.take(i));
    assert(b.take(i + 1).drop_last() =~= b.take(i));
}

/// The squared distance vanishes exactly when every bin has the same value
/// on both sides.
pub proof fn lemma_cross_gap_zero(a: Seq<nat>, a_scale: nat, b: Seq<nat>, b_scale: nat)
    requires
        a.len() == b.len(),
    ensures
        cross_gap(a, a_scale, b, b_scale) == 0 <==> forall|i: int|
            0 <= i < a.len() ==> #[trigger] a[i] * b_scale == b[i] * a_scale,
    decreases a.len(),
{
    if a.len() > 0 {
        let front_a = a.drop_last();
        let front_b = b.drop_last();
        lemma_cross_gap_zero(front_a, a_scale, front_b, b_scale);
        lemma_square_facts(a.last() * b_scale - b.last() * a_scale);
        if cross_gap(a, a_scale, b, b_scale) == 0 {
            assert forall|i: int| 0 <= i < a.len() implies #[trigger] a[i] * b_scale == b[i]
                * a_scale by {
                if i < front_a.len() {
                    assert(front_a[i] == a[i] && front_b[i] == b[i]);
                }
            }
        }
        if forall|i: int| 0 <= i < a.len() ==> #[trigger] a[i] * b_scale == b[i] * a_scale {
            assert forall|i: int| 0 <= i < front_a.len() implies #[trigger] front_a[i] * b_scale
                == front_b[i] * a_scale by {
                assert(front_a[i] == a[i] && front_b[i] == b[i]);
            }
            assert(a[a.len() - 1] * b_scale == b[a.len() - 1] * a_scale);
        }
    }
}

/// Taking one more element into a prefix adds that element to the total.
pub proof fn lemma_total_step(weights: Seq<nat>, i: int)
    requires
        0 <= i < weights.len(),
    ensures
        total(weights.take(i + 1)) == total(weights.take(i)) + weights[i],
{
    assert(weights.take(i + 1).drop_last() =~= weights.take(i));
}

/// The total of a prefix never exceeds the total of the whole.
pub proof fn lemma_total_prefix(weights: Seq<nat>, i: int)
    requires
        0 <= i <= weights.len(),
    ensures
        total(weights.take(i)) <= total(weights),
    decreases weights.len() - i,
{
    if i == weights.len() {
        assert(weights.take(i) =~= weights);
    } else {
        lemma_total_step(weights, i);
        lemma_total_prefix(weights, i + 1);
    }
}

/// No single weight exceeds the total.
pub proof fn lemma_total_bounds_each(weights: Seq<nat>, i: int)
    requires
        0 <= i < weights.len(),
    ensures
        weights[i] <= total(weights),
{
    lemma_total_step(weights, i);
    lemma_total_prefix(weights, i + 1);
}

/// Changing one weight changes the total by the same amount.
pub proof fn lemma_total_update(weights: Seq<nat>, i: int, value: nat)
    requires
        0 <= i < weights.len(),
    ensures
        total(weights.update(i, value)) + weights[i] == total(weights) + value,
    decreases weights.len(),
{
    let updated = weights.update(i, value);
    if i == weights.len() - 1 {
        assert(updated.drop_last() =~= weights.drop_last());
    } else {
        assert(updated.drop_last() =~= weights.drop_last().update(i, value));
        lemma_total_update(weights.drop_last(), i, value);
    }
}

/// The total of a bin-by-bin sum is the sum of the totals.
pub proof fn lemma_total_sum(a: Seq<nat>, b: Seq<nat>)
    requires
        a.len() == b.len(),
    ensures
        total(Seq::new(a.len(), |i: int| a[i] + b[i])) == total(a) + total(b),
    decreases a.len(),
{
    let sum = Seq::new(a.len(), |i: int| a[i] + b[i]);
    if a.len() > 0 {
        let front_a = a.drop_last();
        let front_b = b.drop_last();
        assert(sum.drop_last() =~= Seq::new(front_a.len(), |i: int| front_a[i] + front_b[i]));
        lemma_total_sum(front_a, front_b);
    }
}

/// A sequence of zeros has no weight.
pub proof fn lemma_total_zeros(weights: Seq<nat>)
    requires
        forall|i: int| 0 <= i < weights.len() ==> weights[i] == 0,
    ensures
        total(weights) == 0,
    decreases weights.len(),
{
    if weights.len() > 0 {
        lemma_total_zeros(weights.drop_last());
    }
}

} // verus!
