//! The outcome of comparing two histograms.

use vstd::prelude::*;
use crate::distribution::Distance;
use crate::wide::Wide;

verus! {

/// Steepness of the similarity kernel: how fast the score falls from one
/// towards zero as the squared distance grows.
pub const SIMILARITY_EXP_COEFFICIENT: u64 = 100;

/// The similarity of two channels.
///
/// The score is `e^(-c * d)`, where `c` is `SIMILARITY_EXP_COEFFICIENT` and
/// `d` is the squared distance `distance_numerator / distance_denominator`
/// between the two distributions. The distance is exact; since it is never
/// negative the score lies in `(0, 1]`, and it is one exactly when the
/// distance is zero.
#[derive(Clone, Copy, Debug, PartialEq, Eq, Structural)]
pub struct Similarity {
    pub distance_numerator: Wide,
    pub distance_denominator: Wide,
}

impl View for Similarity {
    type V = Distance;

    open spec fn view(&self) -> Distance {
        Distance {
            numerator: self.distance_numerator@,
            denominator: self.distance_denominator@,
        }
    }
}

impl Distance {
    /// Numerator of the exponent `c * d` whose negation is exponentiated to
    /// give the score; its denominator is that of the distance.
    pub open spec fn exponent_numerator(self) -> nat {
        SIMILARITY_EXP_COEFFICIENT as nat * self.numerator
    }
}

impl Similarity {
    /// Tells whether the score is exactly one, that is, whether the distance
    /// is zero.
    pub fn is_perfect(&self) -> (perfect: bool)
        ensures
            perfect == self@.is_zero(),
    {
        self.distance_numerator.is_zero()
    }
}

/// The similarity of two histograms, channel by channel.
#[derive(Debug)]
pub struct HistogramSimilarity {
    pub channels: Vec<Similarity>,
}

impl View for HistogramSimilarity {
    type V = Seq<Distance>;

    open spec fn view(&self) -> Seq<Distance> {
        Seq::new(self.channels@.len(), |c: int| self.channels@[c]@)
    }
}

impl HistogramSimilarity {
    /// Tells whether every channel has a score of exactly one, which makes
    /// their mean exactly one as well.
    pub fn is_perfect(&self) -> (perfect: bool)
        ensures
            perfect <==> forall|c: int| 0 <= c < self@.len() ==> (#[trigger] self@[c]).is_zero(),
    {
        let mut i: usize = 0;
        while i < self.channels.len()
            invariant
                i <= self.channels@.len(),
                forall|c: int| 0 <= c < i ==> (#[trigger] self@[c]).is_zero(),
            decreases self.channels@.len() - i,
        {
            if !self.channels[i].is_perfect() {
                assert(!self@[i as int].is_zero());
                return false;
            }
            i += 1;
        }
        true
    }
}

} // verus!
