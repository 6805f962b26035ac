use egami::bin_index;

#[test]
fn lowest_value_lands_in_first_bin() {
    assert_eq!(bin_index(0, 1), 0);
    assert_eq!(bin_index(0, 4), 0);
    assert_eq!(bin_index(0, 256), 0);
}

#[test]
fn highest_value_lands_in_last_bin() {
    assert_eq!(bin_index(255, 1), 0);
    assert_eq!(bin_index(255, 4), 3);
    assert_eq!(bin_index(255, 8), 7);
    assert_eq!(bin_index(255, 64), 63);
    assert_eq!(bin_index(255, 256), 255);
}

#[test]
fn bin_boundaries_of_four_bins() {
    assert_eq!(bin_index(63, 4), 0);
    assert_eq!(bin_index(64, 4), 1);
    assert_eq!(bin_index(127, 4), 1);
    assert_eq!(bin_index(128, 4), 2);
    assert_eq!(bin_index(191, 4), 2);
    assert_eq!(bin_index(192, 4), 3);
}

#[test]
fn one_bin_per_value_is_the_identity() {
    for value in 0..=255u8 {
        assert_eq!(bin_index(value, 256), value as usize);
    }
}

#[test]
fn more_bins_than_values_rounds_down() {
    // 200 / 256 * 1000 = 781.25
    assert_eq!(bin_index(200, 1000), 781);
    // 1 / 256 * 1000 = 3.90625
    assert_eq!(bin_index(1, 1000), 3);
    assert_eq!(bin_index(255, 1000), 996);
}

#[test]
fn bin_index_agrees_with_the_formula_everywhere() {
    for bins in [1usize, 2, 3, 4, 7, 8, 64, 100, 255, 256, 257, 1000] {
        for value in 0..=255u8 {
            let expected = (value as f64 / 256.0 * bins as f64) as usize;
            assert_eq!(bin_index(value, bins), expected);
            assert!(bin_index(value, bins) < bins);
        }
    }
}

#[test]
fn bins_never_decrease_with_the_value() {
    for bins in [1usize, 3, 4, 64, 300] {
        for value in 0..255u8 {
            assert!(bin_index(value, bins) <= bin_index(value + 1, bins));
        }
    }
}

#[test]
fn no_bins_gives_index_zero() {
    assert_eq!(bin_index(0, 0), 0);
    assert_eq!(bin_index(255, 0), 0);
}

#[test]
fn largest_bin_count_does_not_overflow() {
    let bins = usize::MAX;
    let expected = ((255u128 * bins as u128) / 256) as usize;
    assert_eq!(bin_index(255, bins), expected);
    assert!(bin_index(255, bins) < bins);
    assert_eq!(bin_index(0, bins), 0);
}
