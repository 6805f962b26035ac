//! Single-channel histograms.

use vstd::prelude::*;
use crate::distribution::{
    cross_gap, lemma_cross_gap_step, lemma_cross_gap_zero, lemma_moment_bound, lemma_moment_step,
    lemma_peak_and_total, lemma_peak_step, lemma_total_bounds_each, lemma_total_prefix,
    lemma_total_step, lemma_total_sum, lemma_total_update, lemma_total_zeros, moment, peak, total,
    Distribution,
};
use crate::ratio::Ratio;
use crate::similarity::Similarity;
use crate::wide::{lemma_square_facts, square_u128, Wide};

verus! {

/// A frequency distribution of one colour channel over a fixed number of
/// bins.
///
/// Bin `i` holds the exact fraction `weights[i] / scale`. A fresh histogram
/// has scale one, so its weights are plain counts; normalising or maximising
/// only replaces the common denominator.
#[derive(Debug)]
pub struct ChannelHistogram {
    data: Vec<u64>,
    scale: u64,
}

/// The stored numerators as natural numbers.
spec fn weights_of(data: Seq<u64>) -> Seq<nat> {
    Seq::new(data.len(), |i: int| data[i] as nat)
}

impl View for ChannelHistogram {
    type V = Distribution;

    closed spec fn view(&self) -> Distribution {
        Distribution { weights: weights_of(self.data@), scale: self.scale as nat }
    }
}

impl Clone for ChannelHistogram {
    fn clone(&self) -> (copy: Self)
        ensures
            copy@ == self@,
    {
        proof {
            use_type_invariant(self);
        }
        let data: Vec<u64> = self.data.clone();
        proof {
            assert(weights_of(data@) =~= weights_of(self.data@));
        }
        ChannelHistogram { data, scale: self.scale }
    }
}

impl ChannelHistogram {
    /// The scale is positive and the total weight fits a machine word.
    #[verifier::type_invariant]
    pub open spec fn wf(self) -> bool {
        &&& self@.scale >= 1
        &&& self@.total() <= u64::MAX
    }

    /// A histogram of `size` empty bins.
    pub fn new(size: usize) -> (hist: Self)
        ensures
            hist@ == Distribution::empty(size as nat),
    {
        let mut data: Vec<u64> = Vec::new();
        let mut i: usize = 0;
        while i < size
            invariant
                i <= size,
                data@.len() == i,
                forall|j: int| 0 <= j < i ==> data@[j] == 0,
            decreases size - i,
        {
            data.push(0);
            i += 1;
        }
        proof {
            lemma_total_zeros(weights_of(data@));
            assert(weights_of(data@) =~= Distribution::empty(size as nat).weights);
        }
        ChannelHistogram { data, scale: 1 }
    }

    /// Number of bins.
    pub fn size(&self) -> (size: usize)
        ensures
            size == self@.bins(),
    {
        self.data.len()
    }

    /// The common denominator of all bins.
    pub fn scale(&self) -> (scale: u64)
        ensures
            scale == self@.scale,
            scale >= 1,
    {
        proof {
            use_type_invariant(self);
        }
        self.scale
    }

    /// The numerator of bin `bin`.
    pub fn weight(&self, bin: usize) -> (weight: u64)
        requires
            bin < self@.bins(),
        ensures
            weight == self@.weights[bin as int],
    {
        self.data[bin]
    }

    /// Sum of the weights of all bins.
    pub fn total(&self) -> (total: u64)
        ensures
            total == self@.total(),
    {
        proof {
            use_type_invariant(self);
        }
        let ghost weights = self@.weights;
        let mut sum: u64 = 0;
        let mut i: usize = 0;
        while i < self.data.len()
            invariant
                i <= self.data@.len(),
                weights == self@.weights,
                weights.len() == self.data@.len(),
                total(weights) <= u64::MAX,
                sum == total(weights.take(i as int)),
            decreases self.data@.len() - i,
        {
            proof {
                lemma_total_step(weights, i as int);
                lemma_total_prefix(weights, i + 1);
            }
            sum = sum + self.data[i];
            i += 1;
        }
        proof {
            assert(weights.take(i as int) =~= weights);
        }
        sum
    }

    /// Largest weight of any bin.
    pub fn peak(&self) -> (peak: u64)
        ensures
            peak == self@.peak(),
    {
        let ghost weights = self@.weights;
        let mut best: u64 = 0;
        let mut i: usize = 0;
        while i < self.data.len()
            invariant
                i <= self.data@.len(),
                weights == self@.weights,
                weights.len() == self.data@.len(),
                best == peak(weights.take(i as int)),
            decreases self.data@.len() - i,
        {
            proof {
                lemma_peak_step(weights, i as int);
            }
            if self.data[i] > best {
                best = self.data[i];
            }
            i += 1;
        }
        proof {
            assert(weights.take(i as int) =~= weights);
        }
        best
    }

    /// The value of bin `bin` as an exact fraction.
    pub fn value(&self, bin: usize) -> (value: Ratio)
        requires
            bin < self@.bins(),
        ensures
            value.numerator == self@.weights[bin as int],
            value.denominator == self@.scale,
            value.denominator >= 1,
    {
        proof {
            use_type_invariant(self);
        }
        Ratio { numerator: self.data[bin] as u128, denominator: self.scale as u128 }
    }

    /// The weighted mean bin index as an exact fraction. A histogram without
    /// weight has mean zero.
    pub fn average(&self) -> (mean: Ratio)
        ensures
            mean.numerator == self@.mean_numerator(),
            mean.denominator == self@.mean_denominator(),
            mean.denominator >= 1,
    {
        proof {
            use_type_invariant(self);
        }
        let weight: u64 = self.total();
        if weight == 0 {
            return Ratio { numerator: 0, denominator: 1 };
        }
        let ghost weights = self@.weights;
        let mut sum: u128 = 0;
        let mut i: usize = 0;
        while i < self.data.len()
            invariant
                i <= self.data@.len(),
                weights == self@.weights,
                weights.len() == self.data@.len(),
                total(weights) <= u64::MAX,
                sum == moment(weights.take(i as int)),
            decreases self.data@.len() - i,
        {
            proof {
                let next = weights.take(i + 1);
                lemma_moment_step(weights, i as int);
                lemma_moment_bound(next);
                lemma_total_prefix(weights, i + 1);
                assert(next.len() * total(next) <= 0xffff_ffff_ffff_ffff * 0xffff_ffff_ffff_ffff)
                    by (nonlinear_arith)
                    requires
                        next.len() <= 0xffff_ffff_ffff_ffff,
                        total(next) <= 0xffff_ffff_ffff_ffff,
                ;
                assert(i * weights[i as int] <= 0xffff_ffff_ffff_ffff * 0xffff_ffff_ffff_ffff)
                    by (nonlinear_arith)
                    requires
                        0 <= i <= 0xffff_ffff_ffff_ffff,
                        weights[i as int] <= 0xffff_ffff_ffff_ffff,
                ;
            }
            let term: u128 = i as u128 * self.data[i] as u128;
            sum = sum + term;
            i += 1;
        }
        proof {
            assert(weights.take(i as int) =~= weights);
        }
        Ratio { numerator: sum, denominator: weight as u128 }
    }

    /// Divides every bin by the largest bin, so that the peak becomes one. A
    /// histogram without weight is left unchanged.
    pub fn maximize(&mut self)
        ensures
            final(self)@ == old(self)@.maximized(),
            !old(self)@.is_degenerate() ==> final(self)@.peaks_at_one(),
    {
        proof {
            use_type_invariant(&*self);
            lemma_peak_and_total(self@.weights);
        }
        let peak: u64 = self.peak();
        if peak > 0 {
            self.scale = peak;
        }
    }

    /// A copy of the histogram with every bin divided by the largest bin.
    pub fn maximized(self) -> (hist: ChannelHistogram)
        ensures
            hist@ == self@.maximized(),
            !self@.is_degenerate() ==> hist@.peaks_at_one(),
    {
        let mut hist = self;
        hist.maximize();
        hist
    }

    /// Divides every bin by the sum of all bins, so that the bins add up to
    /// one. A histogram without weight is left unchanged.
    pub fn normalize(&mut self)
        ensures
            final(self)@ == old(self)@.normalized(),
            !old(self)@.is_degenerate() ==> final(self)@.sums_to_one(),
    {
        proof {
            use_type_invariant(&*self);
        }
        let weight: u64 = self.total();
        if weight > 0 {
            self.scale = weight;
        }
    }

    /// A copy of the histogram with every bin divided by the sum of all bins.
    pub fn normalized(self) -> (hist: ChannelHistogram)
        ensures
            hist@ == self@.normalized(),
            !self@.is_degenerate() ==> hist@.sums_to_one(),
    {
        let mut hist = self;
        hist.normalize();
        hist
    }

    /// Compares two histograms of the same size.
    ///
    /// The result holds the exact squared distance between the two
    /// distributions, the sum over all bins of the squared difference of the
    /// bin values.
    pub fn similarity(&self, other: &ChannelHistogram) -> (score: Similarity)
        requires
            self@.bins() == other@.bins(),
        ensures
            score@ == self@.squared_distance(other@),
            score@.denominator >= 1,
            score@.is_zero() <==> self@.same_values(other@),
    {
        proof {
            use_type_invariant(self);
            use_type_invariant(other);
        }
        let ghost a = self@.weights;
        let ghost b = other@.weights;
        let own_scale: u128 = self.scale as u128;
        let other_scale: u128 = other.scale as u128;
        let mut sum: Wide = Wide::zero();
        let mut i: usize = 0;
        while i < self.data.len()
            invariant
                i <= self.data@.len(),
                a == self@.weights,
                b == other@.weights,
                a.len() == self.data@.len(),
                b.len() == other.data@.len(),
                a.len() == b.len(),
                own_scale == self.scale,
                other_scale == other.scale,
                sum.high <= i,
                sum@ == cross_gap(a.take(i as int), self@.scale, b.take(i as int), other@.scale),
            decreases self.data@.len() - i,
        {
            proof {
                lemma_cross_gap_step(a, self@.scale, b, other@.scale, i as int);
                assert(a[i as int] * other_scale <= 0xffff_ffff_ffff_ffff * 0xffff_ffff_ffff_ffff)
                    by (nonlinear_arith)
                    requires
                        a[i as int] <= 0xffff_ffff_ffff_ffff,
                        other_scale <= 0xffff_ffff_ffff_ffff,
                ;
                assert(b[i as int] * own_scale <= 0xffff_ffff_ffff_ffff * 0xffff_ffff_ffff_ffff)
                    by (nonlinear_arith)
                    requires
                        b[i as int] <= 0xffff_ffff_ffff_ffff,
                        own_scale <= 0xffff_ffff_ffff_ffff,
                ;
            }
            let left: u128 = self.data[i] as u128 * other_scale;
            let right: u128 = other.data[i] as u128 * own_scale;
            let gap: u128 = if left >= right { left - right } else { right - left };
            proof {
                lemma_square_facts(left - right);
            }
            sum.add_square(gap);
            i += 1;
        }
        proof {
            assert(a.take(i as int) =~= a);
            assert(b.take(i as int) =~= b);
            assert(own_scale * other_scale <= 0xffff_ffff_ffff_ffff * 0xffff_ffff_ffff_ffff)
                by (nonlinear_arith)
                requires
                    own_scale <= 0xffff_ffff_ffff_ffff,
                    other_scale <= 0xffff_ffff_ffff_ffff,
            ;
            assert(own_scale * other_scale >= 1) by (nonlinear_arith)
                requires
                    own_scale >= 1,
                    other_scale >= 1,
            ;
            lemma_square_facts(own_scale * other_scale);
            lemma_cross_gap_zero(a, self@.scale, b, other@.scale);
        }
        let (upper, lower) = square_u128(own_scale * other_scale);
        Similarity {
            distance_numerator: sum,
            distance_denominator: Wide { high: 0, middle: upper, low: lower },
        }
    }

    /// Adds the weights of `other`, bin by bin.
    pub fn merge(&mut self, other: &ChannelHistogram)
        requires
            old(self)@.bins() == other@.bins(),
            old(self)@.scale == other@.scale,
            old(self)@.total() + other@.total() <= u64::MAX,
        ensures
            final(self)@ == old(self)@.merged(other@),
    {
        proof {
            use_type_invariant(&*self);
            use_type_invariant(other);
        }
        let ghost a = self@.weights;
        let ghost b = other@.weights;
        proof {
            lemma_total_sum(a, b);
        }
        let mut data: Vec<u64> = Vec::new();
        std::mem::swap(&mut data, &mut self.data);
        let mut i: usize = 0;
        while i < data.len()
            invariant
                i <= data@.len(),
                data@.len() == a.len(),
                a.len() == b.len(),
                b == weights_of(other.data@),
                total(a) + total(b) <= u64::MAX,
                forall|j: int| 0 <= j < i ==> data@[j] == a[j] + b[j],
                forall|j: int| i <= j < data@.len() ==> data@[j] == a[j],
            decreases data@.len() - i,
        {
            proof {
                lemma_total_bounds_each(a, i as int);
                lemma_total_bounds_each(b, i as int);
            }
            let sum: u64 = data[i] + other.data[i];
            data.set(i, sum);
            i += 1;
        }
        proof {
            assert(weights_of(data@) =~= Seq::new(a.len(), |i: int| a[i] + b[i]));
        }
        self.data = data;
    }

    /// Adds one unit to bin `bin`.
    pub fn record(&mut self, bin: usize)
        requires
            bin < old(self)@.bins(),
            old(self)@.total() + old(self)@.scale <= u64::MAX,
        ensures
            final(self)@ == old(self)@.incremented(bin as int),
    {
        proof {
            use_type_invariant(&*self);
            lemma_total_bounds_each(self@.weights, bin as int);
            lemma_total_update(self@.weights, bin as int, self@.weights[bin as int] + self@.scale);
        }
        let ghost before = self@;
        let raised: u64 = self.data[bin] + self.scale;
        let mut data: Vec<u64> = Vec::new();
        std::mem::swap(&mut data, &mut self.data);
        data.set(bin, raised);
        proof {
            assert(weights_of(data@) =~= before.incremented(bin as int).weights);
        }
        self.data = data;
    }
}

} // verus!
