//! What counting the pixels of an image into bins yields.

use vstd::prelude::*;
use crate::bins::{bin_of, lemma_bin_of_in_range};
use crate::distribution::{lemma_total_update, lemma_total_zeros, total, Distribution};
use crate::rgb::{channel_value, normalized_channels, recorded, Histogram, Rgb};

verus! {

/// Number of pixels whose component for `channel` falls into bin `bin`.
pub open spec fn occupancy(pixels: Seq<Rgb>, channel: int, bin_count: nat, bin: int) -> nat
    decreases pixels.len(),
{
    if pixels.len() == 0 {
        0
    } else {
        occupancy(pixels.drop_last(), channel, bin_count, bin) + if bin_of(
            channel_value(pixels.last(), channel),
            bin_count,
        ) == bin {
            1nat
        } else {
            0nat
        }
    }
}

/// The pixel count of every bin of one channel.
pub open spec fn tally(pixels: Seq<Rgb>, channel: int, bin_count: nat) -> Seq<nat> {
    Seq::new(bin_count, |bin: int| occupancy(pixels, channel, bin_count, bin))
}

/// The raw counts of the three colour channels.
pub open spec fn raw_tallies(pixels: Seq<Rgb>, bin_count: nat) -> Seq<Distribution> {
    Seq::new(3, |c: int| Distribution { weights: tally(pixels, c, bin_count), scale: 1 })
}

/// The colour histogram of a sequence of pixels: the raw counts of every
/// channel divided by the number of pixels.
pub open spec fn colour_histogram(pixels: Seq<Rgb>, bin_count: nat) -> Seq<Distribution> {
    normalized_channels(raw_tallies(pixels, bin_count))
}

/// Without pixels every bin is empty.
pub proof fn lemma_tallies_empty(bin_count: nat)
    ensures
        raw_tallies(Seq::<Rgb>::empty(), bin_count) == Seq::new(
            3,
            |c: int| Distribution::empty(bin_count),
        ),
{
    assert forall|c: int| 0 <= c < 3 implies tally(Seq::<Rgb>::empty(), c, bin_count)
        == Distribution::empty(bin_count).weights by {
        assert(tally(Seq::<Rgb>::empty(), c, bin_count) =~= Distribution::empty(
            bin_count,
        ).weights);
    }
    assert(raw_tallies(Seq::<Rgb>::empty(), bin_count) =~= Seq::new(
        3,
        |c: int| Distribution::empty(bin_count),
    ));
}

/// One more pixel raises exactly the bin of each of its components by one.
pub proof fn lemma_tallies_push(pixels: Seq<Rgb>, pixel: Rgb, bin_count: nat)
    requires
        bin_count >= 1,
    ensures
        raw_tallies(pixels.push(pixel), bin_count) == recorded(
            raw_tallies(pixels, bin_count),
            pixel,
        ),
{
    let longer = pixels.push(pixel);
    assert(longer.drop_last() =~= pixels);
    assert forall|c: int| 0 <= c < 3 implies raw_tallies(longer, bin_count)[c] == recorded(
        raw_tallies(pixels, bin_count),
        pixel,
    )[c] by {
        lemma_bin_of_in_range(channel_value(pixel, c), bin_count);
        assert(raw_tallies(longer, bin_count)[c].weights =~= recorded(
            raw_tallies(pixels, bin_count),
            pixel,
        )[c].weights);
    }
    assert(raw_tallies(longer, bin_count) =~= recorded(raw_tallies(pixels, bin_count), pixel));
}

/// Every pixel is counted exactly once in every channel: the counts of a
/// channel add up to the number of pixels.
pub proof fn lemma_tally_total(pixels: Seq<Rgb>, channel: int, bin_count: nat)
    requires
        bin_count >= 1,
        0 <= channel < 3,
    ensures
        total(tally(pixels, channel, bin_count)) == pixels.len(),
    decreases pixels.len(),
{
    if pixels.len() == 0 {
        lemma_total_zeros(tally(pixels, channel, bin_count));
    } else {
        let front = pixels.drop_last();
        let pixel = pixels.last();
        lemma_tally_total(front, channel, bin_count);
        assert(front.push(pixel) =~= pixels);
        lemma_tallies_push(front, pixel, bin_count);
        let bin = bin_of(channel_value(pixel, channel), bin_count) as int;
        lemma_bin_of_in_range(channel_value(pixel, channel), bin_count);
        let before = tally(front, channel, bin_count);
        assert(raw_tallies(pixels, bin_count)[channel] == recorded(
            raw_tallies(front, bin_count),
            pixel,
        )[channel]);
        assert(tally(pixels, channel, bin_count) == before.update(bin, before[bin] + 1));
        lemma_total_update(before, bin, before[bin] + 1);
    }
}

/// Counts a sequence of pixels into `size` bins per channel.
pub fn count_pixels(pixels: &[Rgb], size: usize) -> (hist: Histogram)
    requires
        size >= 1,
    ensures
        hist@ == raw_tallies(pixels@, size as nat),
        forall|c: int| 0 <= c < 3 ==> (#[trigger] hist@[c]).total() == pixels@.len(),
{
    let mut hist: Histogram = Histogram::new(3, size);
    proof {
        lemma_tallies_empty(size as nat);
        assert(pixels@.take(0) =~= Seq::<Rgb>::empty());
        assert(hist@ =~= raw_tallies(pixels@.take(0), size as nat));
    }
    let mut i: usize = 0;
    while i < pixels.len()
        invariant
            i <= pixels@.len(),
            size >= 1,
            hist@ == raw_tallies(pixels@.take(i as int), size as nat),
        decreases pixels@.len() - i,
    {
        let pixel: Rgb = pixels[i];
        proof {
            let seen = pixels@.take(i as int);
            lemma_tally_total(seen, 0, size as nat);
            lemma_tally_total(seen, 1, size as nat);
            lemma_tally_total(seen, 2, size as nat);
            lemma_tallies_push(seen, pixel, size as nat);
            assert(seen.push(pixel) =~= pixels@.take(i + 1));
        }
        hist.record(pixel.0, pixel.1, pixel.2);
        i += 1;
    }
    proof {
        assert(pixels@.take(i as int) =~= pixels@);
        lemma_tally_total(pixels@, 0, size as nat);
        lemma_tally_total(pixels@, 1, size as nat);
        lemma_tally_total(pixels@, 2, size as nat);
    }
    hist
}

} // verus!
