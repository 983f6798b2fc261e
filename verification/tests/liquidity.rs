use coralswap::liquidity::{burn_amounts, initial_liquidity, subsequent_liquidity};
use coralswap::math::MINIMUM_LIQUIDITY;

#[test]
fn first_deposit_locks_the_seed() {
    assert_eq!(initial_liquidity(1_000_000, 1_000_000), Some(999_000));
    assert_eq!(initial_liquidity(4_000_000, 1_000_000), Some(1_999_000));
    // sqrt(1_000 * 1_000) is all seed: nothing is left for the depositor.
    assert_eq!(initial_liquidity(1_000, 1_000), None);
    assert_eq!(initial_liquidity(0, 1_000_000), None);
    assert_eq!(initial_liquidity(i128::MAX, 2), None);
    assert_eq!(initial_liquidity(1, i128::MAX), Some(13_043_817_825_332_782_212 - 1_000));
}

#[test]
fn later_deposits_mint_the_smaller_share() {
    assert_eq!(subsequent_liquidity(100, 200, 1_000, 2_000, 1_414), Some(141));
    assert_eq!(subsequent_liquidity(100, 100, 1_000, 2_000, 1_414), Some(70));
    assert_eq!(subsequent_liquidity(100, 200, 0, 2_000, 1_414), None);
    assert_eq!(subsequent_liquidity(1, 1, 1_000_000, 1_000_000, 10), None);
    assert_eq!(subsequent_liquidity(i128::MAX, 1, 1, 1, 2), None);
}

#[test]
fn burns_pay_proportional_shares() {
    assert_eq!(burn_amounts(500, 1_000, 2_000, 1_000), Some((500, 1_000)));
    assert_eq!(burn_amounts(1, 1_000, 2_000, 1_000_000), None);
    assert_eq!(burn_amounts(0, 1_000, 2_000, 1_000), None);
    assert_eq!(burn_amounts(10, 1_000, 2_000, 0), None);
}

#[test]
fn burning_every_user_share_leaves_the_seed() {
    let (amount_a, amount_b) = (4_000_000i128, 9_000_000i128);
    let user = initial_liquidity(amount_a, amount_b).unwrap();
    let total = user + MINIMUM_LIQUIDITY;
    assert_eq!(total, 6_000_000);
    let (out_a, out_b) = burn_amounts(user, amount_a, amount_b, total).unwrap();
    assert!(out_a < amount_a && out_b < amount_b);
    assert!((amount_a - out_a) * total >= amount_a * MINIMUM_LIQUIDITY);
    assert!((amount_b - out_b) * total >= amount_b * MINIMUM_LIQUIDITY);
}

#[test]
fn test_burn_full_withdrawal() {
    let amount = 100_000_i128;
    let liquidity = initial_liquidity(amount, amount).unwrap();
    let total_supply = liquidity + MINIMUM_LIQUIDITY;
    let (received_a, received_b) = burn_amounts(liquidity, amount, amount, total_supply).unwrap();
    // 100,000 - (100,000 * 1000 / 100,000) = 99,000; the first 1000 LP
    // tokens stay locked.
    assert_eq!(received_a, 99_000);
    assert_eq!(received_b, 99_000);
    assert_eq!(total_supply - liquidity, 1000);
}

#[test]
fn test_burn_partial_withdrawal() {
    let amount = 200_000_i128;
    let liquidity = initial_liquidity(amount, amount).unwrap();
    let total_supply = liquidity + MINIMUM_LIQUIDITY;
    let half_lp = liquidity / 2;
    let (received_a, received_b) = burn_amounts(half_lp, amount, amount, total_supply).unwrap();
    assert!(received_a > 0);
    assert!(received_b > 0);
    assert_eq!(liquidity - half_lp, 99_500);
}
