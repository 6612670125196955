//! Exact products and quotients at the edges of the 128-bit range.

use run_club::arith::{magnitude, mul_div_floor};

#[test]
fn proportional_shares_of_a_small_pool() {
    assert_eq!(mul_div_floor(100, 8, 10), Some(80));
    assert_eq!(mul_div_floor(100, 2, 10), Some(20));
    assert_eq!(mul_div_floor(100, 1, 3), Some(33));
    assert_eq!(mul_div_floor(0, 5, 7), Some(0));
}

#[test]
fn quotient_is_rounded_down_not_towards_zero() {
    assert_eq!(mul_div_floor(7, 1, 2), Some(3));
    assert_eq!(mul_div_floor(7, -1, 2), Some(-4));
    assert_eq!(mul_div_floor(-7, 1, 2), Some(-4));
    assert_eq!(mul_div_floor(7, 1, -2), Some(-4));
    assert_eq!(mul_div_floor(-7, 1, -2), Some(3));
    assert_eq!(mul_div_floor(-7, -1, 2), Some(3));
    assert_eq!(mul_div_floor(-7, -1, -2), Some(-4));
    assert_eq!(mul_div_floor(-8, 1, 2), Some(-4));
    assert_eq!(mul_div_floor(8, -1, -2), Some(4));
}

#[test]
fn product_beyond_128_bits_is_exact() {
    assert_eq!(mul_div_floor(i128::MAX, i128::MAX, i128::MAX), Some(i128::MAX));
    assert_eq!(mul_div_floor(i128::MAX, 1_000_000_007, 1_000_000_007), Some(i128::MAX));
    assert_eq!(
        mul_div_floor(1i128 << 100, 1i128 << 100, 1i128 << 90),
        Some(1i128 << 110)
    );
    // (2^126 + 1) * 3 / 2 = 3 * 2^125 + 1.5
    assert_eq!(mul_div_floor((1i128 << 126) + 1, 3, 2), Some(3 * (1i128 << 125) + 1));
    assert_eq!(
        mul_div_floor(
            123_456_789_012_345_678_901_234_567_890,
            987_654_321_098_765_432_109_876_543_210,
            999_999_999_999_999_999_999_999_999_999
        ),
        Some(121_932_631_137_021_795_226_185_032_733)
    );
}

#[test]
fn quotient_outside_the_range_is_none() {
    assert_eq!(mul_div_floor(i128::MAX, 2, 1), None);
    assert_eq!(mul_div_floor(i128::MAX, i128::MAX, 1), None);
    assert_eq!(mul_div_floor(i128::MIN, 2, 1), None);
    assert_eq!(mul_div_floor(i128::MIN, 1, -1), None);
    assert_eq!(mul_div_floor(i128::MIN, i128::MIN, i128::MAX), None);
    assert_eq!(mul_div_floor(1i128 << 100, 1i128 << 100, 1), None);
}

#[test]
fn lowest_value_is_reached() {
    assert_eq!(mul_div_floor(i128::MIN, 1, 1), Some(i128::MIN));
    assert_eq!(mul_div_floor(i128::MIN, -1, -1), Some(i128::MIN));
    assert_eq!(mul_div_floor(i128::MIN, i128::MIN, i128::MIN), Some(i128::MIN));
    assert_eq!(mul_div_floor(i128::MAX, -1, 1), Some(-i128::MAX));
    // -(2^64) * (2^64 - 1) / 2 = -(2^127) + 2^63
    assert_eq!(mul_div_floor(-(1i128 << 64), (1i128 << 64) - 1, 2), Some(i128::MIN + (1i128 << 63)));
}

#[test]
fn zero_divisor_is_none() {
    assert_eq!(mul_div_floor(1, 1, 0), None);
    assert_eq!(mul_div_floor(0, 0, 0), None);
}

#[test]
fn magnitude_of_every_sign() {
    assert_eq!(magnitude(0), 0);
    assert_eq!(magnitude(5), 5);
    assert_eq!(magnitude(-5), 5);
    assert_eq!(magnitude(i128::MAX), i128::MAX as u128);
    assert_eq!(magnitude(i128::MIN), 1u128 << 127);
}
