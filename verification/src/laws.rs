//! Laws that relate the operations on histograms to one another.

use vstd::prelude::*;
use vstd::seq_lib::{to_multiset_contains, to_multiset_len, to_multiset_remove};
use crate::bins::bin_of;
use crate::distribution::{
    cross_gap, lemma_cross_gap_zero, lemma_peak_and_total, lemma_peak_is_maximum, total,
    Distribution,
};
use crate::rgb::{channel_distances, merged_channels, same_shape, Rgb};
use crate::tally::{occupancy, raw_tallies, tally};
use crate::wide::{lemma_square_facts, square};

verus! {

/// Bins are contiguous ranges of channel values, in order: a larger value
/// never lands in a lower bin.
pub proof fn law_bins_in_order(low: u8, high: u8, bin_count: nat)
    requires
        low <= high,
    ensures
        bin_of(low, bin_count) <= bin_of(high, bin_count),
{
    assert(low as nat * bin_count <= high as nat * bin_count) by (nonlinear_arith)
        requires
            low <= high,
    ;
}

/// Normalising a distribution that carries weight makes its bins add up to
/// exactly one.
pub proof fn law_normalized_sums_to_one(d: Distribution)
    requires
        !d.is_degenerate(),
    ensures
        d.normalized().sums_to_one(),
{
}

/// Maximising a distribution that carries weight makes its largest bin
/// exactly one, and leaves no bin above one.
pub proof fn law_maximized_peaks_at_one(d: Distribution)
    requires
        !d.is_degenerate(),
    ensures
        d.maximized().peaks_at_one(),
        forall|i: int| 0 <= i < d.bins() ==> d.maximized().weights[i] <= d.maximized().scale,
        exists|i: int| 0 <= i < d.bins() && d.maximized().weights[i] == d.maximized().scale,
{
    lemma_peak_and_total(d.weights);
    lemma_peak_is_maximum(d.weights);
    let top = choose|i: int| 0 <= i < d.weights.len() && d.weights[i] == d.peak();
    assert(d.maximized().weights[top] == d.maximized().scale);
}

/// Normalising divides every bin by the sum of all bins: the new value of a
/// bin, multiplied by the old sum of the bins, is the old value of the bin.
pub proof fn law_normalize_divides_by_sum(d: Distribution, bin: int)
    requires
        d.scale >= 1,
        !d.is_degenerate(),
        0 <= bin < d.bins(),
    ensures
        (d.normalized().weights[bin] * d.total()) * d.scale == d.weights[bin] * (
        d.normalized().scale * d.scale),
{
    let w = d.weights[bin] as int;
    let t = d.total() as int;
    let s = d.scale as int;
    assert((w * t) * s == w * (t * s)) by (nonlinear_arith);
}

/// Maximising divides every bin by the largest bin: the new value of a bin,
/// multiplied by the old value of the largest bin, is the old value of the
/// bin.
pub proof fn law_maximize_divides_by_peak(d: Distribution, bin: int)
    requires
        d.scale >= 1,
        !d.is_degenerate(),
        0 <= bin < d.bins(),
    ensures
        (d.maximized().weights[bin] * d.peak()) * d.scale == d.weights[bin] * (d.maximized().scale
            * d.scale),
{
    lemma_peak_and_total(d.weights);
    let w = d.weights[bin] as int;
    let p = d.peak() as int;
    let s = d.scale as int;
    assert((w * p) * s == w * (p * s)) by (nonlinear_arith);
}

/// Applying a transform a second time changes nothing.
pub proof fn law_transforms_idempotent(d: Distribution)
    ensures
        d.normalized().normalized() == d.normalized(),
        d.maximized().maximized() == d.maximized(),
{
}

/// A transform rescales all bins alike, so it keeps the weighted mean bin
/// index.
pub proof fn law_transforms_keep_mean(d: Distribution)
    ensures
        d.normalized().mean_numerator() == d.mean_numerator(),
        d.normalized().mean_denominator() == d.mean_denominator(),
        d.maximized().mean_numerator() == d.mean_numerator(),
        d.maximized().mean_denominator() == d.mean_denominator(),
{
}

/// Similarity is reflexive: a distribution is at distance zero from itself,
/// so its score against itself is exactly one.
pub proof fn law_similarity_reflexive(d: Distribution)
    ensures
        d.squared_distance(d).is_zero(),
        d.same_values(d),
{
    lemma_cross_gap_zero(d.weights, d.scale, d.weights, d.scale);
}

/// Swapping the two sides keeps the sum of squared differences.
proof fn lemma_cross_gap_symmetric(a: Seq<nat>, a_scale: nat, b: Seq<nat>, b_scale: nat)
    requires
        a.len() == b.len(),
    ensures
        cross_gap(a, a_scale, b, b_scale) == cross_gap(b, b_scale, a, a_scale),
    decreases a.len(),
{
    if a.len() > 0 {
        lemma_cross_gap_symmetric(a.drop_last(), a_scale, b.drop_last(), b_scale);
        lemma_square_facts(a.last() * b_scale - b.last() * a_scale);
    }
}

/// Similarity is symmetric: both orders of comparison give the same distance,
/// hence the same score.
pub proof fn law_similarity_symmetric(a: Distribution, b: Distribution)
    requires
        a.bins() == b.bins(),
    ensures
        a.squared_distance(b) == b.squared_distance(a),
{
    lemma_cross_gap_symmetric(a.weights, a.scale, b.weights, b.scale);
    assert(a.scale * b.scale == b.scale * a.scale) by (nonlinear_arith);
}

/// Similarity is bounded: the exponent `c * d` is a fraction that is never
/// negative and has a positive denominator, so the score `e^(-c * d)` lies
/// above zero and does not exceed one.
pub proof fn law_similarity_bounded(a: Distribution, b: Distribution)
    requires
        a.scale >= 1,
        b.scale >= 1,
    ensures
        a.squared_distance(b).exponent_numerator() >= 0,
        a.squared_distance(b).denominator >= 1,
{
    assert(a.scale * b.scale >= 1) by (nonlinear_arith)
        requires
            a.scale >= 1,
            b.scale >= 1,
    ;
    lemma_square_facts((a.scale * b.scale) as int);
}

/// Sum of the squares of all weights.
spec fn sum_of_squares(weights: Seq<nat>) -> nat
    decreases weights.len(),
{
    if weights.len() == 0 {
        0
    } else {
        sum_of_squares(weights.drop_last()) + square(weights.last() as int)
    }
}

/// The squares of weights add up to no more than the square of their total.
proof fn lemma_sum_of_squares_bound(weights: Seq<nat>)
    ensures
        sum_of_squares(weights) <= square(total(weights) as int),
    decreases weights.len(),
{
    if weights.len() == 0 {
        lemma_square_facts(0);
    } else {
        let front = total(weights.drop_last()) as int;
        let last = weights.last() as int;
        lemma_sum_of_squares_bound(weights.drop_last());
        lemma_square_facts(front);
        lemma_square_facts(last);
        lemma_square_facts(front + last);
        assert(front * front + last * last <= (front + last) * (front + last))
            by (nonlinear_arith)
            requires
                front >= 0,
                last >= 0,
        ;
    }
}

/// The squared differences add up to no more than the squares of both
/// sides, each on the common denominator.
proof fn lemma_cross_gap_bound(a: Seq<nat>, a_scale: nat, b: Seq<nat>, b_scale: nat)
    requires
        a.len() == b.len(),
    ensures
        cross_gap(a, a_scale, b, b_scale) <= sum_of_squares(a) * square(b_scale as int)
            + sum_of_squares(b) * square(a_scale as int),
    decreases a.len(),
{
    if a.len() > 0 {
        lemma_cross_gap_bound(a.drop_last(), a_scale, b.drop_last(), b_scale);
        let x = a.last() as int;
        let y = b.last() as int;
        let s = a_scale as int;
        let t = b_scale as int;
        let front_a = sum_of_squares(a.drop_last()) as int;
        let front_b = sum_of_squares(b.drop_last()) as int;
        lemma_square_facts(x * t - y * s);
        lemma_square_facts(x);
        lemma_square_facts(y);
        lemma_square_facts(s);
        lemma_square_facts(t);
        assert((x * t - y * s) * (x * t - y * s) <= (x * x) * (t * t) + (y * y) * (s * s))
            by (nonlinear_arith)
            requires
                x >= 0,
                y >= 0,
                s >= 0,
                t >= 0,
        ;
        assert((front_a + x * x) * (t * t) == front_a * (t * t) + (x * x) * (t * t))
            by (nonlinear_arith);
        assert((front_b + y * y) * (s * s) == front_b * (s * s) + (y * y) * (s * s))
            by (nonlinear_arith);
    } else {
        assert(0 * square(b_scale as int) + 0 * square(a_scale as int) == 0);
    }
}

/// Two normalised distributions are never further apart than a squared
/// distance of two, so the exponent of their score is at most 200 and the
/// score does not fall below `e^(-200)`.
pub proof fn law_similarity_of_normalized(a: Distribution, b: Distribution)
    requires
        a.bins() == b.bins(),
        a.sums_to_one(),
        b.sums_to_one(),
    ensures
        a.squared_distance(b).numerator <= 2 * a.squared_distance(b).denominator,
        a.squared_distance(b).exponent_numerator() <= 200 * a.squared_distance(b).denominator,
{
    lemma_cross_gap_bound(a.weights, a.scale, b.weights, b.scale);
    lemma_sum_of_squares_bound(a.weights);
    lemma_sum_of_squares_bound(b.weights);
    let s = a.scale as int;
    let t = b.scale as int;
    let qa = sum_of_squares(a.weights) as int;
    let qb = sum_of_squares(b.weights) as int;
    lemma_square_facts(s);
    lemma_square_facts(t);
    lemma_square_facts(s * t);
    assert(qa * (t * t) + qb * (s * s) <= 2 * ((s * t) * (s * t))) by (nonlinear_arith)
        requires
            0 <= qa <= s * s,
            0 <= qb <= t * t,
    ;
}

/// The score is one only for identical distributions: the distance is zero
/// exactly when every bin has the same value on both sides.
pub proof fn law_similarity_perfect_iff_same(a: Distribution, b: Distribution)
    requires
        a.bins() == b.bins(),
    ensures
        a.squared_distance(b).is_zero() <==> a.same_values(b),
{
    lemma_cross_gap_zero(a.weights, a.scale, b.weights, b.scale);
}

/// A histogram compared with itself scores exactly one in every channel.
pub proof fn law_histogram_similarity_reflexive(h: Seq<Distribution>)
    ensures
        forall|c: int| 0 <= c < h.len() ==> (#[trigger] channel_distances(h, h)[c]).is_zero(),
{
    assert forall|c: int| 0 <= c < h.len() implies (#[trigger] channel_distances(
        h,
        h,
    )[c]).is_zero() by {
        law_similarity_reflexive(h[c]);
    }
}

/// Comparing two histograms in either order gives the same distances.
pub proof fn law_histogram_similarity_symmetric(a: Seq<Distribution>, b: Seq<Distribution>)
    requires
        same_shape(a, b),
    ensures
        channel_distances(a, b) == channel_distances(b, a),
{
    assert forall|c: int| 0 <= c < a.len() implies channel_distances(a, b)[c]
        == channel_distances(b, a)[c] by {
        assert(a[c].bins() == b[c].bins());
        law_similarity_symmetric(a[c], b[c]);
    }
    assert(channel_distances(a, b) =~= channel_distances(b, a));
}

/// The occupancy of a bin over two runs of pixels is the sum of the
/// occupancies over each run.
proof fn lemma_occupancy_concat(a: Seq<Rgb>, b: Seq<Rgb>, channel: int, bin_count: nat, bin: int)
    ensures
        occupancy(a + b, channel, bin_count, bin) == occupancy(a, channel, bin_count, bin)
            + occupancy(b, channel, bin_count, bin),
    decreases b.len(),
{
    if b.len() == 0 {
        assert(a + b =~= a);
    } else {
        assert((a + b).drop_last() =~= a + b.drop_last());
        lemma_occupancy_concat(a, b.drop_last(), channel, bin_count, bin);
    }
}

/// Counting is independent of how the pixels are split: the counts of two
/// runs of pixels, merged, are the counts of both runs together.
pub proof fn law_tally_of_parts(a: Seq<Rgb>, b: Seq<Rgb>, bin_count: nat)
    ensures
        raw_tallies(a + b, bin_count) == merged_channels(
            raw_tallies(a, bin_count),
            raw_tallies(b, bin_count),
        ),
{
    let whole = raw_tallies(a + b, bin_count);
    let merged = merged_channels(raw_tallies(a, bin_count), raw_tallies(b, bin_count));
    assert forall|c: int| 0 <= c < 3 implies whole[c] == merged[c] by {
        assert forall|bin: int| 0 <= bin < bin_count implies whole[c].weights[bin]
            == merged[c].weights[bin] by {
            lemma_occupancy_concat(a, b, c, bin_count, bin);
        }
        assert(whole[c].weights =~= merged[c].weights);
    }
    assert(whole =~= merged);
}

/// Taking one pixel out lowers the occupancy of its bin by one and leaves
/// every other bin alone.
proof fn lemma_occupancy_remove(pixels: Seq<Rgb>, at: int, channel: int, bin_count: nat, bin: int)
    requires
        0 <= at < pixels.len(),
    ensures
        occupancy(pixels, channel, bin_count, bin) == occupancy(
            pixels.remove(at),
            channel,
            bin_count,
            bin,
        ) + occupancy(seq![pixels[at]], channel, bin_count, bin),
{
    let front = pixels.subrange(0, at);
    let back = pixels.subrange(at + 1, pixels.len() as int);
    let one = seq![pixels[at]];
    assert(pixels =~= (front + one) + back);
    assert(pixels.remove(at) =~= front + back);
    lemma_occupancy_concat(front + one, back, channel, bin_count, bin);
    lemma_occupancy_concat(front, one, channel, bin_count, bin);
    lemma_occupancy_concat(front, back, channel, bin_count, bin);
}

/// Two runs that hold the same pixels, in whatever order, fill every bin
/// alike.
proof fn lemma_occupancy_ignores_order(
    a: Seq<Rgb>,
    b: Seq<Rgb>,
    channel: int,
    bin_count: nat,
    bin: int,
)
    requires
        a.to_multiset() == b.to_multiset(),
    ensures
        occupancy(a, channel, bin_count, bin) == occupancy(b, channel, bin_count, bin),
    decreases a.len(),
{
    to_multiset_len(a);
    to_multiset_len(b);
    if a.len() > 0 {
        let last = a.last();
        let at_a = a.len() - 1;
        to_multiset_contains(a, last);
        to_multiset_contains(b, last);
        assert(a.contains(last)) by {
            assert(a[at_a] == last);
        }
        let at_b = choose|i: int| 0 <= i < b.len() && b[i] == last;
        to_multiset_remove(a, at_a);
        to_multiset_remove(b, at_b);
        lemma_occupancy_ignores_order(a.remove(at_a), b.remove(at_b), channel, bin_count, bin);
        lemma_occupancy_remove(a, at_a, channel, bin_count, bin);
        lemma_occupancy_remove(b, at_b, channel, bin_count, bin);
    }
}

/// Counting is independent of the order in which the pixels are visited:
/// two runs that hold the same pixels have the same counts.
pub proof fn law_tally_ignores_order(a: Seq<Rgb>, b: Seq<Rgb>, bin_count: nat)
    requires
        a.to_multiset() == b.to_multiset(),
    ensures
        raw_tallies(a, bin_count) == raw_tallies(b, bin_count),
{
    assert forall|c: int| 0 <= c < 3 implies raw_tallies(a, bin_count)[c] == raw_tallies(
        b,
        bin_count,
    )[c] by {
        assert forall|bin: int| 0 <= bin < bin_count implies tally(a, c, bin_count)[bin] == tally(
            b,
            c,
            bin_count,
        )[bin] by {
            lemma_occupancy_ignores_order(a, b, c, bin_count, bin);
        }
        assert(tally(a, c, bin_count) =~= tally(b, c, bin_count));
    }
    assert(raw_tallies(a, bin_count) =~= raw_tallies(b, bin_count));
}

/// Merging does not depend on the order of its two arguments.
pub proof fn law_merge_commutative(a: Seq<Distribution>, b: Seq<Distribution>)
    requires
        same_shape(a, b),
        forall|c: int| 0 <= c < a.len() ==> (#[trigger] a[c]).scale == b[c].scale,
    ensures
        merged_channels(a, b) == merged_channels(b, a),
{
    assert forall|c: int| 0 <= c < a.len() implies merged_channels(a, b)[c] == merged_channels(
        b,
        a,
    )[c] by {
        assert(a[c].bins() == b[c].bins());
        assert(a[c].scale == b[c].scale);
        assert(a[c].merged(b[c]).weights =~= b[c].merged(a[c]).weights);
    }
    assert(merged_channels(a, b) =~= merged_channels(b, a));
}

/// Merging three histograms gives the same result however they are grouped.
pub proof fn law_merge_associative(
    a: Seq<Distribution>,
    b: Seq<Distribution>,
    c: Seq<Distribution>,
)
    requires
        same_shape(a, b),
        same_shape(b, c),
    ensures
        merged_channels(merged_channels(a, b), c) == merged_channels(a, merged_channels(b, c)),
{
    let left = merged_channels(merged_channels(a, b), c);
    let right = merged_channels(a, merged_channels(b, c));
    assert forall|k: int| 0 <= k < a.len() implies left[k] == right[k] by {
        assert(a[k].bins() == b[k].bins());
        assert(b[k].bins() == c[k].bins());
        assert(left[k].weights =~= right[k].weights);
    }
    assert(left =~= right);
}

} // verus!
