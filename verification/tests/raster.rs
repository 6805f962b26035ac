use egami::{count_pixels, histogram, Histogram, Similarity, SIMILARITY_EXP_COEFFICIENT};
use image::{DynamicImage, GrayImage, Luma, Rgb, RgbImage, Rgba, RgbaImage};

fn single_pixel(red: u8, green: u8, blue: u8) -> DynamicImage {
    DynamicImage::ImageRgb8(RgbImage::from_pixel(1, 1, Rgb([red, green, blue])))
}

fn weights(hist: &Histogram, channel: usize) -> Vec<u64> {
    let bins = hist.channel(channel);
    (0..bins.size()).map(|bin| bins.weight(bin)).collect()
}

fn values(hist: &Histogram, channel: usize) -> Vec<f64> {
    let bins = hist.channel(channel);
    (0..bins.size())
        .map(|bin| {
            let value = bins.value(bin);
            value.numerator as f64 / value.denominator as f64
        })
        .collect()
}

fn score(similarity: &Similarity) -> f64 {
    let numerator = similarity.distance_numerator;
    let denominator = similarity.distance_denominator;
    assert_eq!((numerator.high, numerator.middle), (0, 0));
    assert_eq!((denominator.high, denominator.middle), (0, 0));
    let distance = numerator.low as f64 / denominator.low as f64;
    (-(SIMILARITY_EXP_COEFFICIENT as f64) * distance).exp()
}

fn gradient() -> RgbImage {
    RgbImage::from_fn(4, 3, |x, y| Rgb([(x * 80) as u8, (y * 120) as u8, (x * y * 40) as u8]))
}

#[test]
fn single_red_pixel_fills_the_outer_bins() {
    let hist = histogram(&single_pixel(255, 0, 0), 4);
    assert_eq!(hist.channel_count(), 3);
    assert_eq!(values(&hist, 0), vec![0.0, 0.0, 0.0, 1.0]);
    assert_eq!(values(&hist, 1), vec![1.0, 0.0, 0.0, 0.0]);
    assert_eq!(values(&hist, 2), vec![1.0, 0.0, 0.0, 0.0]);
    assert_eq!(weights(&hist, 0), vec![0, 0, 0, 1]);
    assert_eq!(weights(&hist, 1), vec![1, 0, 0, 0]);
    assert_eq!(weights(&hist, 2), vec![1, 0, 0, 0]);
}

#[test]
fn single_red_pixel_is_perfectly_similar_to_itself() {
    let hist = histogram(&single_pixel(255, 0, 0), 4);
    let similarity = hist.similarity(&hist);
    let scores: Vec<f64> = similarity.channels.iter().map(score).collect();
    assert_eq!(scores, vec![1.0, 1.0, 1.0]);
    assert_eq!(scores.iter().sum::<f64>() / scores.len() as f64, 1.0);
    assert!(similarity.is_perfect());
}

#[test]
fn red_against_blue_differs_in_the_outer_channels_only() {
    let red = histogram(&single_pixel(255, 0, 0), 4);
    let blue = histogram(&single_pixel(0, 0, 255), 4);
    let similarity = red.similarity(&blue);
    let scores: Vec<f64> = similarity.channels.iter().map(score).collect();
    assert!(scores[0] > 0.0 && scores[0] < 1e-80);
    assert_eq!(scores[0], (-200.0f64).exp());
    assert_eq!(scores[1], 1.0);
    assert_eq!(scores[2], scores[0]);
    assert!(!similarity.is_perfect());
}

#[test]
fn histogram_is_normalized() {
    let hist = histogram(&DynamicImage::ImageRgb8(gradient()), 4);
    for channel in 0..3 {
        assert_eq!(hist.channel(channel).total(), 12);
        assert_eq!(hist.channel(channel).scale(), 12);
        assert_eq!(values(&hist, channel).iter().sum::<f64>(), 1.0);
    }
    // red: 0, 80, 160, 240 in every row
    assert_eq!(weights(&hist, 0), vec![3, 3, 3, 3]);
    // green: 0, 120, 240 in every column
    assert_eq!(weights(&hist, 1), vec![4, 4, 0, 4]);
    // blue: 0 (six times), 40, 80, 80, 120, 160, 240
    assert_eq!(weights(&hist, 2), vec![7, 3, 1, 1]);
}

#[test]
fn raw_counts_add_up_to_the_area() {
    for (width, height) in [(1u32, 1u32), (1, 7), (7, 1), (5, 4), (16, 9)] {
        let image = RgbImage::from_fn(width, height, |x, y| {
            Rgb([(x * 37 + y) as u8, (y * 91) as u8, (x + y * 13) as u8])
        });
        for bins in [1usize, 2, 8, 256, 300] {
            let hist = histogram(&DynamicImage::ImageRgb8(image.clone()), bins);
            for channel in 0..3 {
                assert_eq!(hist.channel(channel).size(), bins);
                assert_eq!(hist.channel(channel).total(), (width * height) as u64);
            }
        }
    }
}

#[test]
fn image_without_area_gives_empty_bins() {
    for (width, height) in [(0u32, 0u32), (0, 5), (5, 0)] {
        let hist = histogram(&DynamicImage::ImageRgb8(RgbImage::new(width, height)), 4);
        assert_eq!(hist.channel_count(), 3);
        for channel in 0..3 {
            assert_eq!(weights(&hist, channel), vec![0, 0, 0, 0]);
            assert_eq!(hist.channel(channel).scale(), 1);
            assert_eq!(values(&hist, channel), vec![0.0, 0.0, 0.0, 0.0]);
        }
    }
}

#[test]
fn histogram_agrees_with_counting_the_pixels() {
    let image = gradient();
    let pixels: Vec<(u8, u8, u8)> = image.pixels().map(|p| (p.0[0], p.0[1], p.0[2])).collect();
    let from_image = histogram(&DynamicImage::ImageRgb8(image), 8);
    let from_pixels = count_pixels(&pixels, 8).normalized();
    for channel in 0..3 {
        assert_eq!(weights(&from_image, channel), weights(&from_pixels, channel));
        assert_eq!(from_image.channel(channel).scale(), from_pixels.channel(channel).scale());
    }
}

#[test]
fn histogram_is_the_same_on_every_run() {
    let image = DynamicImage::ImageRgb8(gradient());
    let first = histogram(&image, 64);
    let second = histogram(&image, 64);
    for channel in 0..3 {
        assert_eq!(weights(&first, channel), weights(&second, channel));
        assert_eq!(first.channel(channel).scale(), second.channel(channel).scale());
    }
}

#[test]
fn histogram_does_not_depend_on_the_pixel_layout() {
    // The transposed image holds the same pixels in another order.
    let image = gradient();
    let transposed = RgbImage::from_fn(3, 4, |x, y| *image.get_pixel(y, x));
    let plain = histogram(&DynamicImage::ImageRgb8(image), 16);
    let other = histogram(&DynamicImage::ImageRgb8(transposed), 16);
    for channel in 0..3 {
        assert_eq!(weights(&plain, channel), weights(&other, channel));
    }
}

#[test]
fn alpha_is_ignored() {
    let image = RgbaImage::from_pixel(2, 2, Rgba([10, 130, 250, 7]));
    let hist = histogram(&DynamicImage::ImageRgba8(image), 2);
    assert_eq!(weights(&hist, 0), vec![4, 0]);
    assert_eq!(weights(&hist, 1), vec![0, 4]);
    assert_eq!(weights(&hist, 2), vec![0, 4]);
}

#[test]
fn grey_pixels_count_in_all_three_channels_alike() {
    let image = GrayImage::from_fn(3, 1, |x, _| Luma([(x * 100) as u8]));
    let hist = histogram(&DynamicImage::ImageLuma8(image), 4);
    for channel in 0..3 {
        // 0, 100, 200
        assert_eq!(weights(&hist, channel), vec![1, 1, 0, 1]);
    }
}

#[test]
fn pixels_are_read_at_their_own_coordinates() {
    let mut image = RgbImage::new(2, 3);
    image.put_pixel(1, 2, Rgb([255, 255, 255]));
    let hist = histogram(&DynamicImage::ImageRgb8(image), 2);
    for channel in 0..3 {
        assert_eq!(weights(&hist, channel), vec![5, 1]);
    }
}

#[test]
fn similar_images_score_higher_than_different_ones() {
    let base = histogram(&DynamicImage::ImageRgb8(gradient()), 4);
    let mut close = gradient();
    close.put_pixel(0, 0, Rgb([255, 255, 255]));
    let close = histogram(&DynamicImage::ImageRgb8(close), 4);
    let far = histogram(&single_pixel(255, 255, 255), 4);
    let near_scores: Vec<f64> = base.similarity(&close).channels.iter().map(score).collect();
    let far_scores: Vec<f64> = base.similarity(&far).channels.iter().map(score).collect();
    for channel in 0..3 {
        assert!(near_scores[channel] > far_scores[channel]);
        assert!(near_scores[channel] > 0.0 && near_scores[channel] <= 1.0);
        assert!(far_scores[channel] > 0.0 && far_scores[channel] <= 1.0);
    }
    // red: one pixel moved from bin 0 to bin 3, (1/12)^2 twice
    assert_eq!(base.similarity(&close).channels[0].distance_numerator.low, 2 * 144);
    assert_eq!(base.similarity(&close).channels[0].distance_denominator.low, 144 * 144);
}
