use coralswap::math::{
    div_trunc, get_amount_out, magnitude, mul_div, sqrt, sqrt_u256, BPS_DENOMINATOR,
    MINIMUM_LIQUIDITY, SCALE,
};
use coralswap::wide::Wide;

#[test]
fn sqrt_exact_values() {
    assert_eq!(sqrt(0), 0);
    assert_eq!(sqrt(1), 1);
    assert_eq!(sqrt(2), 1);
    assert_eq!(sqrt(3), 1);
    assert_eq!(sqrt(4), 2);
    assert_eq!(sqrt(99), 9);
    assert_eq!(sqrt(100), 10);
    assert_eq!(sqrt(1_000_000_000_000_000_000), 1_000_000_000);
    assert_eq!(sqrt(i128::MAX - 1), 13_043_817_825_332_782_212);
    assert_eq!(sqrt(i128::MAX), 13_043_817_825_332_782_212);
}

#[test]
fn sqrt_is_the_floor_root() {
    for v in [5i128, 17, 1_000, 65_535, 1_000_000_007, 123_456_789_012_345] {
        let r = sqrt(v);
        assert!(r * r <= v && v < (r + 1) * (r + 1));
    }
}

#[test]
fn mul_div_exact_values() {
    assert_eq!(mul_div(3 * SCALE, SCALE, SCALE), Some(3 * SCALE));
    assert_eq!(mul_div(7, 11, 3), Some(25));
    assert_eq!(mul_div(-7, 11, 3), Some(-25));
    assert_eq!(mul_div(7, -11, -3), Some(25));
    assert_eq!(mul_div(7, 11, 0), None);
    // The product exceeds i128 but the quotient fits.
    assert_eq!(mul_div(i128::MAX, i128::MAX, i128::MAX), Some(i128::MAX));
    assert_eq!(mul_div(i128::MIN, 1, 1), Some(i128::MIN));
    assert_eq!(mul_div(i128::MIN, -1, 1), None);
    assert_eq!(mul_div(i128::MAX, 2, 1), None);
}

#[test]
fn magnitude_and_truncating_division() {
    assert_eq!(magnitude(-5), 5);
    assert_eq!(magnitude(i128::MIN), 1u128 << 127);
    assert_eq!(div_trunc(7, 2), 3);
    assert_eq!(div_trunc(-7, 2), -3);
    assert_eq!(div_trunc(7, -2), -3);
    assert_eq!(div_trunc(i128::MIN, 1), i128::MIN);
}

#[test]
fn sqrt_u256_exact_values() {
    let r = sqrt_u256(Wide { hi: 0, lo: 1_000_000 });
    assert_eq!((r.hi, r.lo), (0, 1_000));
    let r = sqrt_u256(Wide { hi: 0, lo: 0 });
    assert_eq!((r.hi, r.lo), (0, 0));
    // 2^254 has root 2^127.
    let r = sqrt_u256(Wide { hi: 1u128 << 126, lo: 0 });
    assert_eq!((r.hi, r.lo), (0, 1u128 << 127));
    // The largest value: floor(sqrt(2^256 - 1)) = 2^128 - 1.
    let r = sqrt_u256(Wide { hi: u128::MAX, lo: u128::MAX });
    assert_eq!((r.hi, r.lo), (0, u128::MAX));
}

#[test]
fn amount_out_exact_values() {
    assert_eq!(get_amount_out(1_000, 100_000, 100_000, 30), Some(987));
    assert_eq!(get_amount_out(10_000, 1_000_000, 1_000_000, 30), Some(9_871));
    assert_eq!(get_amount_out(0, 100_000, 100_000, 30), None);
    assert_eq!(get_amount_out(1_000, 0, 100_000, 30), None);
    assert_eq!(get_amount_out(1, 1_000_000, 1, 30), None);
    assert_eq!(get_amount_out(i128::MAX, 1_000, 1_000, 30), None);
}

#[test]
fn amount_out_keeps_the_product_of_reserves() {
    for (a, ri, ro, fee) in [(1_000i128, 100_000i128, 100_000i128, 30u32), (77, 5_000, 9_000, 0), (10_000, 1_000_000, 3, 100)] {
        if let Some(out) = get_amount_out(a, ri, ro, fee) {
            assert!(out < ro);
            assert!((ri + a) * (ro - out) >= ri * ro);
        }
    }
}

#[test]
fn constants() {
    assert_eq!(SCALE, 100_000_000_000_000);
    assert_eq!(BPS_DENOMINATOR, 10_000);
    assert_eq!(MINIMUM_LIQUIDITY, 1_000);
}
