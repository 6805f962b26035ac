//! Colour-distribution fingerprints of raster images.
//!
//! An image is summarised by one histogram per colour channel. Every
//! quantity is kept as an exact fraction of integers, so the statements
//! proved about histograms and their comparison hold without rounding.

pub mod bins;
pub mod channel;
pub mod distribution;
pub mod laws;
pub mod raster;
pub mod ratio;
pub mod rgb;
pub mod similarity;
pub mod tally;
pub mod wide;

pub use crate::bins::bin_index;
pub use crate::channel::ChannelHistogram;
pub use crate::raster::histogram;
pub use crate::ratio::Ratio;
pub use crate::rgb::{Histogram, Rgb};
pub use crate::similarity::{HistogramSimilarity, Similarity, SIMILARITY_EXP_COEFFICIENT};
pub use crate::tally::count_pixels;
pub use crate::wide::Wide;
