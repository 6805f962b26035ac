use egami::{count_pixels, Histogram, Ratio, Wide};

fn weights(hist: &Histogram, channel: usize) -> Vec<u64> {
    let bins = hist.channel(channel);
    (0..bins.size()).map(|bin| bins.weight(bin)).collect()
}

fn small(value: u128) -> Wide {
    Wide { high: 0, middle: 0, low: value }
}

const PIXELS: [(u8, u8, u8); 5] =
    [(255, 0, 0), (0, 255, 0), (0, 0, 255), (200, 100, 50), (64, 64, 64)];

#[test]
fn new_histogram_has_the_asked_shape() {
    let hist = Histogram::new(3, 8);
    assert_eq!(hist.channel_count(), 3);
    assert_eq!(hist.size(), 8);
    for channel in 0..3 {
        assert_eq!(hist.channel(channel).size(), 8);
        assert_eq!(hist.channel(channel).total(), 0);
        assert_eq!(hist.channel(channel).scale(), 1);
    }
}

#[test]
fn new_histogram_without_channels() {
    let hist = Histogram::new(0, 8);
    assert_eq!(hist.channel_count(), 0);
    assert_eq!(hist.size(), 0);
    let score = hist.similarity(&Histogram::new(0, 8));
    assert!(score.channels.is_empty());
    assert!(score.is_perfect());
}

#[test]
fn record_raises_one_bin_per_channel() {
    let mut hist = Histogram::new(3, 4);
    hist.record(255, 128, 0);
    assert_eq!(weights(&hist, 0), vec![0, 0, 0, 1]);
    assert_eq!(weights(&hist, 1), vec![0, 0, 1, 0]);
    assert_eq!(weights(&hist, 2), vec![1, 0, 0, 0]);
    hist.record(255, 0, 0);
    assert_eq!(weights(&hist, 0), vec![0, 0, 0, 2]);
    assert_eq!(weights(&hist, 1), vec![1, 0, 1, 0]);
    assert_eq!(weights(&hist, 2), vec![2, 0, 0, 0]);
}

#[test]
fn count_pixels_counts_every_pixel_once_per_channel() {
    let hist = count_pixels(&PIXELS, 4);
    assert_eq!(weights(&hist, 0), vec![2, 1, 0, 2]);
    assert_eq!(weights(&hist, 1), vec![2, 2, 0, 1]);
    assert_eq!(weights(&hist, 2), vec![3, 1, 0, 1]);
    for channel in 0..3 {
        assert_eq!(hist.channel(channel).total(), 5);
        assert_eq!(hist.channel(channel).scale(), 1);
    }
}

#[test]
fn count_pixels_of_nothing_is_empty() {
    let hist = count_pixels(&[], 4);
    assert_eq!(hist.channel_count(), 3);
    for channel in 0..3 {
        assert_eq!(weights(&hist, channel), vec![0, 0, 0, 0]);
    }
}

#[test]
fn count_pixels_ignores_the_order() {
    let mut shuffled = PIXELS;
    shuffled.reverse();
    shuffled.swap(1, 3);
    let plain = count_pixels(&PIXELS, 16);
    let other = count_pixels(&shuffled, 16);
    for channel in 0..3 {
        assert_eq!(weights(&plain, channel), weights(&other, channel));
    }
}

#[test]
fn merging_parts_gives_the_count_of_the_whole() {
    let whole = count_pixels(&PIXELS, 8);
    for split in 0..=PIXELS.len() {
        let mut merged = count_pixels(&PIXELS[..split], 8);
        merged.merge(&count_pixels(&PIXELS[split..], 8));
        let mut swapped = count_pixels(&PIXELS[split..], 8);
        swapped.merge(&count_pixels(&PIXELS[..split], 8));
        for channel in 0..3 {
            assert_eq!(weights(&merged, channel), weights(&whole, channel));
            assert_eq!(weights(&swapped, channel), weights(&whole, channel));
        }
    }
}

#[test]
fn normalize_works_channel_by_channel() {
    let mut hist = Histogram::new(2, 2);
    let mut other = Histogram::new(2, 2);
    other.normalize();
    assert_eq!(other.channel(0).scale(), 1);
    hist = hist.normalized();
    assert_eq!(hist.channel(1).scale(), 1);

    let mut counted = count_pixels(&PIXELS, 4);
    counted.normalize();
    for channel in 0..3 {
        assert_eq!(counted.channel(channel).scale(), 5);
        assert_eq!(counted.channel(channel).total(), 5);
    }
    assert_eq!(counted.channel(2).value(0), Ratio { numerator: 3, denominator: 5 });
}

#[test]
fn maximize_works_channel_by_channel() {
    let hist = count_pixels(&PIXELS, 4).maximized();
    assert_eq!(hist.channel(0).scale(), 2);
    assert_eq!(hist.channel(1).scale(), 2);
    assert_eq!(hist.channel(2).scale(), 3);
    assert_eq!(hist.channel(2).value(0), Ratio { numerator: 3, denominator: 3 });
    assert_eq!(hist.channel(2).value(1), Ratio { numerator: 1, denominator: 3 });
    assert_eq!(weights(&hist, 0), vec![2, 1, 0, 2]);
}

#[test]
fn maximize_in_place_matches_by_value() {
    let mut hist = count_pixels(&PIXELS, 4);
    hist.maximize();
    let other = count_pixels(&PIXELS, 4).maximized();
    for channel in 0..3 {
        assert_eq!(hist.channel(channel).scale(), other.channel(channel).scale());
        assert_eq!(weights(&hist, channel), weights(&other, channel));
    }
}

#[test]
fn similarity_compares_channel_by_channel() {
    let left = count_pixels(&[(255, 0, 0)], 4).normalized();
    let right = count_pixels(&[(0, 0, 255)], 4).normalized();
    let score = left.similarity(&right);
    assert_eq!(score.channels.len(), 3);
    assert_eq!(score.channels[0].distance_numerator, small(2));
    assert_eq!(score.channels[0].distance_denominator, small(1));
    assert!(score.channels[1].is_perfect());
    assert_eq!(score.channels[2].distance_numerator, small(2));
    assert!(!score.is_perfect());
}

#[test]
fn similarity_of_histograms_is_symmetric() {
    let left = count_pixels(&PIXELS[..3], 4).normalized();
    let right = count_pixels(&PIXELS[1..], 4).normalized();
    assert_eq!(left.similarity(&right).channels, right.similarity(&left).channels);
}

#[test]
fn similarity_of_a_histogram_with_itself_is_perfect() {
    let hist = count_pixels(&PIXELS, 64).normalized();
    let score = hist.similarity(&hist);
    assert!(score.is_perfect());
    for channel in &score.channels {
        assert!(channel.is_perfect());
    }
}
