//! Three-channel histograms.

use vstd::prelude::*;
use crate::bins::{bin_index, bin_of};
use crate::channel::ChannelHistogram;
use crate::distribution::{Distance, Distribution};
use crate::similarity::{HistogramSimilarity, Similarity};

verus! {

/// A colour as its red, green and blue components.
pub type Rgb = (u8, u8, u8);

/// The component of a colour that belongs to channel 0 (red), 1 (green) or
/// 2 (blue).
pub open spec fn channel_value(pixel: Rgb, channel: int) -> u8 {
    if channel == 0 {
        pixel.0
    } else if channel == 1 {
        pixel.1
    } else {
        pixel.2
    }
}

/// The three channels after one more pixel has been counted.
pub open spec fn recorded(channels: Seq<Distribution>, pixel: Rgb) -> Seq<Distribution> {
    Seq::new(
        3,
        |c: int| channels[c].incremented(bin_of(channel_value(pixel, c), channels[c].bins()) as int),
    )
}

/// Every channel normalised on its own.
pub open spec fn normalized_channels(channels: Seq<Distribution>) -> Seq<Distribution> {
    Seq::new(channels.len(), |c: int| channels[c].normalized())
}

/// Every channel maximised on its own.
pub open spec fn maximized_channels(channels: Seq<Distribution>) -> Seq<Distribution> {
    Seq::new(channels.len(), |c: int| channels[c].maximized())
}

/// The channel-by-channel sum of two histograms.
pub open spec fn merged_channels(a: Seq<Distribution>, b: Seq<Distribution>) -> Seq<Distribution> {
    Seq::new(a.len(), |c: int| a[c].merged(b[c]))
}

/// The squared distance of every pair of corresponding channels.
pub open spec fn channel_distances(a: Seq<Distribution>, b: Seq<Distribution>) -> Seq<Distance> {
    Seq::new(a.len(), |c: int| a[c].squared_distance(b[c]))
}

/// Holds when two histograms have the same number of channels and bins.
pub open spec fn same_shape(a: Seq<Distribution>, b: Seq<Distribution>) -> bool {
    &&& a.len() == b.len()
    &&& forall|c: int| 0 <= c < a.len() ==> #[trigger] a[c].bins() == b[c].bins()
}

/// One histogram per colour channel, all with the same number of bins.
#[derive(Debug)]
pub struct Histogram {
    channels: Vec<ChannelHistogram>,
}

/// The distributions held by a list of channels.
spec fn views_of(channels: Seq<ChannelHistogram>) -> Seq<Distribution> {
    Seq::new(channels.len(), |c: int| channels[c]@)
}

/// Holds when all distributions have the same number of bins.
pub open spec fn uniform(channels: Seq<Distribution>) -> bool {
    forall|i: int, j: int|
        #![trigger channels[i], channels[j]]
        0 <= i < channels.len() && 0 <= j < channels.len() ==> channels[i].bins()
            == channels[j].bins()
}

impl View for Histogram {
    type V = Seq<Distribution>;

    closed spec fn view(&self) -> Seq<Distribution> {
        views_of(self.channels@)
    }
}

impl Histogram {
    /// All channels have the same number of bins.
    #[verifier::type_invariant]
    pub open spec fn wf(self) -> bool {
        uniform(self@)
    }

    /// A histogram of `channel_count` channels with `size` empty bins each.
    pub fn new(channel_count: usize, size: usize) -> (hist: Self)
        ensures
            hist@.len() == channel_count,
            forall|c: int| 0 <= c < channel_count ==> hist@[c] == Distribution::empty(size as nat),
    {
        let mut channels: Vec<ChannelHistogram> = Vec::new();
        let mut i: usize = 0;
        while i < channel_count
            invariant
                i <= channel_count,
                channels@.len() == i,
                forall|c: int| 0 <= c < i ==> channels@[c]@ == Distribution::empty(size as nat),
            decreases channel_count - i,
        {
            channels.push(ChannelHistogram::new(size));
            i += 1;
        }
        Histogram { channels }
    }

    /// Number of channels.
    pub fn channel_count(&self) -> (count: usize)
        ensures
            count == self@.len(),
    {
        self.channels.len()
    }

    /// The histogram of channel `channel`.
    pub fn channel(&self, channel: usize) -> (hist: &ChannelHistogram)
        requires
            channel < self@.len(),
        ensures
            hist@ == self@[channel as int],
    {
        &self.channels[channel]
    }

    /// Number of bins of every channel; zero where there is no channel.
    pub fn size(&self) -> (size: usize)
        ensures
            self@.len() == 0 ==> size == 0,
            forall|c: int| 0 <= c < self@.len() ==> #[trigger] self@[c].bins() == size,
    {
        proof {
            use_type_invariant(self);
        }
        if self.channels.len() == 0 {
            0
        } else {
            let size: usize = self.channels[0].size();
            assert forall|c: int| 0 <= c < self@.len() implies #[trigger] self@[c].bins()
                == size by {
                assert(self@[c].bins() == self@[0].bins());
            }
            size
        }
    }

    /// Counts one pixel: one more unit in the bin of each of its three
    /// components.
    pub fn record(&mut self, red: u8, green: u8, blue: u8)
        requires
            old(self)@.len() == 3,
            old(self)@[0].bins() >= 1,
            forall|c: int|
                0 <= c < 3 ==> #[trigger] old(self)@[c].total() + old(self)@[c].scale <= u64::MAX,
        ensures
            final(self)@ == recorded(old(self)@, (red, green, blue)),
    {
        proof {
            use_type_invariant(&*self);
        }
        let ghost before = self@;
        let size: usize = self.channels[0].size();
        let mut channels: Vec<ChannelHistogram> = Vec::new();
        std::mem::swap(&mut channels, &mut self.channels);
        assert(before[1].bins() == size && before[2].bins() == size);
        assert(before[0].total() + before[0].scale <= u64::MAX);
        assert(before[1].total() + before[1].scale <= u64::MAX);
        assert(before[2].total() + before[2].scale <= u64::MAX);
        channels[0].record(bin_index(red, size));
        channels[1].record(bin_index(green, size));
        channels[2].record(bin_index(blue, size));
        proof {
            assert(views_of(channels@) =~= recorded(before, (red, green, blue)));
        }
        self.channels = channels;
    }

    /// Adds the weights of `other`, channel by channel and bin by bin.
    pub fn merge(&mut self, other: &Histogram)
        requires
            same_shape(old(self)@, other@),
            forall|c: int|
                0 <= c < other@.len() ==> {
                    &&& (#[trigger] old(self)@[c]).scale == other@[c].scale
                    &&& old(self)@[c].total() + other@[c].total() <= u64::MAX
                },
        ensures
            final(self)@ == merged_channels(old(self)@, other@),
    {
        proof {
            use_type_invariant(&*self);
        }
        let ghost before = self@;
        let mut channels: Vec<ChannelHistogram> = Vec::new();
        std::mem::swap(&mut channels, &mut self.channels);
        let mut i: usize = 0;
        while i < channels.len()
            invariant
                i <= channels@.len(),
                channels@.len() == before.len(),
                before.len() == other.channels@.len(),
                same_shape(before, other@),
                forall|c: int|
                    0 <= c < other@.len() ==> {
                        &&& (#[trigger] before[c]).scale == other@[c].scale
                        &&& before[c].total() + other@[c].total() <= u64::MAX
                    },
                forall|c: int| 0 <= c < i ==> channels@[c]@ == before[c].merged(other@[c]),
                forall|c: int| i <= c < channels@.len() ==> channels@[c]@ == before[c],
            decreases channels@.len() - i,
        {
            assert(before[i as int].bins() == other@[i as int].bins());
            assert(before[i as int].scale == other@[i as int].scale);
            channels[i].merge(&other.channels[i]);
            i += 1;
        }
        proof {
            assert(views_of(channels@) =~= merged_channels(before, other@));
        }
        self.channels = channels;
    }

    /// Compares two histograms of the same shape, channel by channel.
    pub fn similarity(&self, other: &Histogram) -> (score: HistogramSimilarity)
        requires
            same_shape(self@, other@),
        ensures
            score@ == channel_distances(self@, other@),
            forall|c: int|
                0 <= c < self@.len() ==> {
                    &&& (#[trigger] score@[c]).denominator >= 1
                    &&& score@[c].is_zero() <==> self@[c].same_values(other@[c])
                },
    {
        let mut channels: Vec<Similarity> = Vec::new();
        let mut i: usize = 0;
        while i < self.channels.len()
            invariant
                i <= self.channels@.len(),
                same_shape(self@, other@),
                channels@.len() == i,
                forall|c: int|
                    0 <= c < i ==> {
                        &&& (#[trigger] channels@[c])@ == self@[c].squared_distance(other@[c])
                        &&& channels@[c]@.denominator >= 1
                        &&& channels@[c]@.is_zero() <==> self@[c].same_values(other@[c])
                    },
            decreases self.channels@.len() - i,
        {
            assert(self@[i as int].bins() == other@[i as int].bins());
            let score: Similarity = self.channels[i].similarity(&other.channels[i]);
            channels.push(score);
            i += 1;
        }
        let score = HistogramSimilarity { channels };
        proof {
            assert(score@ =~= channel_distances(self@, other@));
        }
        score
    }

    /// Divides every bin by the largest bin of its channel.
    pub fn maximize(&mut self)
        ensures
            final(self)@ == maximized_channels(old(self)@),
    {
        proof {
            use_type_invariant(&*self);
        }
        let ghost before = self@;
        let mut channels: Vec<ChannelHistogram> = Vec::new();
        std::mem::swap(&mut channels, &mut self.channels);
        let mut i: usize = 0;
        while i < channels.len()
            invariant
                i <= channels@.len(),
                channels@.len() == before.len(),
                forall|c: int| 0 <= c < i ==> channels@[c]@ == before[c].maximized(),
                forall|c: int| i <= c < channels@.len() ==> channels@[c]@ == before[c],
            decreases channels@.len() - i,
        {
            channels[i].maximize();
            i += 1;
        }
        proof {
            assert(views_of(channels@) =~= maximized_channels(before));
        }
        self.channels = channels;
    }

    /// A copy of the histogram with every channel maximised.
    pub fn maximized(self) -> (hist: Histogram)
        ensures
            hist@ == maximized_channels(self@),
    {
        let mut hist = self;
        hist.maximize();
        hist
    }

    /// Divides every bin by the sum of the bins of its channel.
    pub fn normalize(&mut self)
        ensures
            final(self)@ == normalized_channels(old(self)@),
    {
        proof {
            use_type_invariant(&*self);
        }
        let ghost before = self@;
        let mut channels: Vec<ChannelHistogram> = Vec::new();
        std::mem::swap(&mut channels, &mut self.channels);
        let mut i: usize = 0;
        while i < channels.len()
            invariant
                i <= channels@.len(),
                channels@.len() == before.len(),
                forall|c: int| 0 <= c < i ==> channels@[c]@ == before[c].normalized(),
                forall|c: int| i <= c < channels@.len() ==> channels@[c]@ == before[c],
            decreases channels@.len() - i,
        {
            channels[i].normalize();
            i += 1;
        }
        proof {
            assert(views_of(channels@) =~= normalized_channels(before));
        }
        self.channels = channels;
    }

    /// A copy of the histogram with every channel normalised.
    pub fn normalized(self) -> (hist: Histogram)
        ensures
            hist@ == normalized_channels(self@),
    {
        let mut hist = self;
        hist.normalize();
        hist
    }
}

} // verus!
