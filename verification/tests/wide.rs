use egami::wide::square_u128;
use egami::Wide;

#[test]
fn squares_of_small_numbers() {
    assert_eq!(square_u128(0), (0, 0));
    assert_eq!(square_u128(1), (0, 1));
    assert_eq!(square_u128(12), (0, 144));
    assert_eq!(square_u128(1 << 63), (0, 1 << 126));
}

#[test]
fn square_of_two_to_the_64_fills_the_upper_limb() {
    assert_eq!(square_u128(1 << 64), (1, 0));
    assert_eq!(square_u128((1 << 64) + 1), (1, (1 << 65) + 1));
}

#[test]
fn square_just_below_two_to_the_64_stays_in_the_lower_limb() {
    let x: u128 = (1 << 64) - 1;
    assert_eq!(square_u128(x), (0, x * x));
}

#[test]
fn square_of_the_largest_number() {
    // (2^128 - 1)^2 = 2^256 - 2^129 + 1
    assert_eq!(square_u128(u128::MAX), (u128::MAX - 1, 1));
}

#[test]
fn square_with_all_three_products() {
    // (2^127 + 2^64 + 1)^2 = 2^254 + 2^192 + 2^129 + 2^65 + 1
    let x: u128 = (1 << 127) + (1 << 64) + 1;
    assert_eq!(square_u128(x), ((1 << 126) + (1 << 64) + 2, (1 << 65) + 1));
}

#[test]
fn square_with_carry_out_of_the_lower_limb() {
    // (2^65 - 1)^2 = 2^130 - 2^66 + 1
    let x: u128 = (1 << 65) - 1;
    assert_eq!(square_u128(x), (3, u128::MAX - (1 << 66) + 2));
}

#[test]
fn zero_is_zero() {
    let zero = Wide::zero();
    assert_eq!(zero, Wide { high: 0, middle: 0, low: 0 });
    assert!(zero.is_zero());
    assert!(!Wide { high: 0, middle: 0, low: 1 }.is_zero());
    assert!(!Wide { high: 0, middle: 1, low: 0 }.is_zero());
    assert!(!Wide { high: 1, middle: 0, low: 0 }.is_zero());
}

#[test]
fn add_square_accumulates() {
    let mut sum = Wide::zero();
    sum.add_square(3);
    sum.add_square(4);
    assert_eq!(sum, Wide { high: 0, middle: 0, low: 25 });
}

#[test]
fn add_square_carries_into_the_middle_limb() {
    let mut sum = Wide { high: 0, middle: 7, low: u128::MAX };
    sum.add_square(1);
    assert_eq!(sum, Wide { high: 0, middle: 8, low: 0 });
}

#[test]
fn add_square_carries_into_the_high_limb() {
    let mut sum = Wide { high: 5, middle: u128::MAX, low: u128::MAX };
    sum.add_square(1);
    assert_eq!(sum, Wide { high: 6, middle: 0, low: 0 });
}

#[test]
fn add_square_of_the_largest_number_twice() {
    let mut sum = Wide::zero();
    sum.add_square(u128::MAX);
    assert_eq!(sum, Wide { high: 0, middle: u128::MAX - 1, low: 1 });
    sum.add_square(u128::MAX);
    // 2 * (2^256 - 2^129 + 1) = 2^257 - 2^130 + 2
    assert_eq!(sum, Wide { high: 1, middle: u128::MAX - 3, low: 2 });
}

#[test]
fn add_square_carry_from_upper_limb_alone() {
    let mut sum = Wide { high: 0, middle: u128::MAX, low: 0 };
    sum.add_square(1 << 64);
    assert_eq!(sum, Wide { high: 1, middle: 0, low: 0 });
}
