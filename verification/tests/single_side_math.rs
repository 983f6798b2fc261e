//! The single-sided deposit split: exact closed-form values, the balanced
//! deposit it leaves over pseudo-random pools, and typed errors on extremes.

use ethnum::U256;

use coralswap::errors::PairError;
use coralswap::math::{compute_swap_in_for_single_side, get_amount_out};

/// xorshift64*: deterministic, dependency-free, reproducible pseudo-random numbers.
struct Rng(u64);

impl Rng {
    fn next(&mut self) -> u64 {
        let mut x = self.0;
        x ^= x >> 12;
        x ^= x << 25;
        x ^= x >> 27;
        self.0 = x;
        x.wrapping_mul(0x2545_F491_4F6C_DD1D)
    }

    /// Uniform in `[lo, hi]`.
    fn range(&mut self, lo: i128, hi: i128) -> i128 {
        lo + (self.next() as i128) % (hi - lo + 1)
    }

    /// Log-uniform in `[10^min_exp, 10^(max_exp + 1))`.
    fn magnitude(&mut self, min_exp: u32, max_exp: u32) -> i128 {
        let exp = min_exp + (self.next() % u64::from(max_exp - min_exp + 1)) as u32;
        let base = 10i128.pow(exp);
        self.range(base, base * 10 - 1)
    }
}

/// The split as a single-sided mint computes it:
/// `(swap_in, deposit_in, deposit_out, post_swap_reserve_in, post_swap_reserve_out)`.
fn split(
    reserve_in: i128,
    reserve_out: i128,
    amount: i128,
    fee_bps: u32,
) -> (i128, i128, i128, i128, i128) {
    let swap_in = compute_swap_in_for_single_side(reserve_in, amount, fee_bps)
        .expect("a valid pool and deposit must split");
    let swap_out =
        get_amount_out(swap_in, reserve_in, reserve_out, fee_bps).expect("the swap must price");
    (swap_in, amount - swap_in, swap_out, reserve_in + swap_in, reserve_out - swap_out)
}

/// Relative gap between `deposit_in / post_in` and `deposit_out / post_out`,
/// in parts per million.
fn imbalance_ppm(deposit_in: i128, deposit_out: i128, post_in: i128, post_out: i128) -> u128 {
    let lhs = U256::from(deposit_in as u128) * U256::from(post_out as u128);
    let rhs = U256::from(deposit_out as u128) * U256::from(post_in as u128);
    let (hi, lo) = if lhs > rhs { (lhs, rhs) } else { (rhs, lhs) };
    ((hi - lo) * U256::from(1_000_000u32) / hi).as_u128()
}

#[test]
fn single_side_split_matches_closed_form_at_zero_fee() {
    assert_eq!(compute_swap_in_for_single_side(1_000_000, 1_000_000, 0), Ok(414_213));
}

#[test]
fn single_side_split_swaps_about_half_of_a_small_deposit() {
    assert_eq!(compute_swap_in_for_single_side(1_000_000_000, 10_000_000, 30), Ok(4_995_054));
}

#[test]
fn single_side_split_leaves_a_balanced_deposit() {
    let mut rng = Rng(0x00C0_2A15_3A9F_1CE5);
    let mut checked = 0u32;

    for _ in 0..5_000 {
        let reserve_in = rng.magnitude(7, 13);
        let reserve_out = reserve_in / 1_000 * rng.range(1, 1_000_000);
        let amount =
            (reserve_in / 10i128.pow(rng.range(0, 4) as u32) * rng.range(1, 3)).max(1_000_000);
        let fee_bps = rng.range(0, 1_000) as u32;

        let (swap_in, deposit_in, deposit_out, post_in, post_out) =
            split(reserve_in, reserve_out, amount, fee_bps);

        assert!(
            swap_in > 0 && swap_in < amount,
            "swap_in {swap_in} outside (0, {amount}) for reserve_in={reserve_in} \
             reserve_out={reserve_out} fee_bps={fee_bps}"
        );

        if deposit_out < 100_000 {
            continue;
        }

        let ppm = imbalance_ppm(deposit_in, deposit_out, post_in, post_out);
        assert!(
            ppm <= 1_000,
            "leftover deposit is {ppm} ppm out of balance for reserve_in={reserve_in} \
             reserve_out={reserve_out} amount={amount} fee_bps={fee_bps}"
        );
        checked += 1;
    }

    assert!(checked >= 4_000, "only {checked} of 5_000 cases were large enough to check");
}

#[test]
fn single_side_split_never_panics_on_extremes() {
    let big = i128::MAX / 4;
    for reserve_in in [1, 2, 1_000, 1_000_000_007, 10i128.pow(30), big, i128::MAX] {
        for amount in [1, 2, 1_000, reserve_in, big, i128::MAX] {
            for fee_bps in [0u32, 1, 30, 100, 9_999, 10_000, 10_001] {
                match compute_swap_in_for_single_side(reserve_in, amount, fee_bps) {
                    Ok(swap_in) => assert!(
                        (0..=amount).contains(&swap_in),
                        "swap_in {swap_in} outside [0, {amount}]"
                    ),
                    Err(PairError::InvalidInput | PairError::Overflow) => {}
                    Err(other) => panic!("unexpected error {other:?}"),
                }
            }
        }
    }
}

#[test]
fn single_side_split_rejects_invalid_inputs() {
    assert_eq!(compute_swap_in_for_single_side(0, 1_000, 30), Err(PairError::InvalidInput));
    assert_eq!(compute_swap_in_for_single_side(1_000, 0, 30), Err(PairError::InvalidInput));
    assert_eq!(compute_swap_in_for_single_side(-5, 1_000, 30), Err(PairError::InvalidInput));
    assert_eq!(compute_swap_in_for_single_side(1_000, 1_000, 10_001), Err(PairError::InvalidInput));
    assert_eq!(compute_swap_in_for_single_side(1_000, 1_000, 10_000), Err(PairError::InvalidInput));
    assert_eq!(compute_swap_in_for_single_side(i128::MAX, i128::MAX, 30), Err(PairError::Overflow));
}

#[test]
fn single_side_split_is_the_largest_balanced_amount() {
    // f * x^2 + r * (B + f) * x <= r * a * B < f * (x + 1)^2 + r * (B + f) * (x + 1)
    for (r, a, fee) in [(1_000i128, 1_000i128, 30u32), (1_000_000, 1_000_000, 0), (10_000_000, 77_777, 100)] {
        let x = compute_swap_in_for_single_side(r, a, fee).unwrap();
        let f = 10_000 - fee as i128;
        let c = 10_000 + f;
        let q = |x: i128| f * x * x + r * c * x;
        assert!(q(x) <= r * a * 10_000);
        assert!(r * a * 10_000 < q(x + 1));
    }
    assert_eq!(compute_swap_in_for_single_side(1_000, 1_000, 30), Ok(414));
}
