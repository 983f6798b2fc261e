//! LP-token accounting of a pair: the liquidity minted for the first and
//! for later deposits, and the tokens paid out for burned liquidity. The
//! first deposit locks `MINIMUM_LIQUIDITY` forever, so burns are always
//! computed against a supply that includes that seed.
use vstd::prelude::*;

use crate::math::{fits_i128, is_isqrt, isqrt, lemma_isqrt_unique, sqrt_u256, trunc_div, MINIMUM_LIQUIDITY};
use crate::wide::Wide;

verus! {

/// Liquidity minted to the first depositor of `amount_a` and `amount_b`:
/// `sqrt(amount_a * amount_b)` less the locked seed; `None` when the
/// product overflows or nothing is left for the depositor.
pub open spec fn initial_liquidity_spec(amount_a: int, amount_b: int) -> Option<int> {
    let product = amount_a * amount_b;
    if !fits_i128(product) {
        None
    } else {
        let root = if product <= 0 {
            0
        } else {
            isqrt(product)
        };
        if root - MINIMUM_LIQUIDITY <= 0 {
            None
        } else {
            Some(root - MINIMUM_LIQUIDITY)
        }
    }
}

/// Liquidity minted for a later deposit: the smaller of the two
/// proportional shares of `total_supply`; `None` for an empty pool or
/// supply, an overflow, or a share that rounds to nothing.
pub open spec fn subsequent_liquidity_spec(
    amount_a: int,
    amount_b: int,
    reserve_a: int,
    reserve_b: int,
    total_supply: int,
) -> Option<int> {
    if reserve_a <= 0 || reserve_b <= 0 || total_supply <= 0 {
        None
    } else if !fits_i128(amount_a * total_supply) || !fits_i128(amount_b * total_supply) {
        None
    } else {
        let liq_a = trunc_div(amount_a * total_supply, reserve_a);
        let liq_b = trunc_div(amount_b * total_supply, reserve_b);
        let liq = if liq_a <= liq_b {
            liq_a
        } else {
            liq_b
        };
        if liq <= 0 {
            None
        } else {
            Some(liq)
        }
    }
}

/// Tokens paid out for burning `lp_amount` of `total_supply`: each
/// reserve's proportional share; `None` for nothing to burn, an overflow,
/// or a share that rounds to nothing.
pub open spec fn burn_amounts_spec(lp_amount: int, reserve_a: int, reserve_b: int, total_supply: int) -> Option<(int, int)> {
    if total_supply <= 0 || lp_amount <= 0 {
        None
    } else if !fits_i128(lp_amount * reserve_a) || !fits_i128(lp_amount * reserve_b) {
        None
    } else {
        let a = trunc_div(lp_amount * reserve_a, total_supply);
        let b = trunc_div(lp_amount * reserve_b, total_supply);
        if a <= 0 || b <= 0 {
            None
        } else {
            Some((a, b))
        }
    }
}

/// Liquidity minted for the first deposit (see [`initial_liquidity_spec`]).
pub fn initial_liquidity(amount_a: i128, amount_b: i128) -> (r: Option<i128>)
    ensures
        r matches Some(l) ==> initial_liquidity_spec(amount_a as int, amount_b as int) == Some(l as int),
        r is None ==> initial_liquidity_spec(amount_a as int, amount_b as int) is None,
{
    let product = match amount_a.checked_mul(amount_b) {
        Some(p) => p,
        None => return None,
    };
    let root: i128 = if product <= 0 {
        0
    } else {
        let w = sqrt_u256(Wide::from_u128(product as u128));
        proof {
            let p = product as int;
            let t = w.value() as int;
            lemma_isqrt_unique(p, t);
            assert(t <= p) by (nonlinear_arith)
                requires
                    is_isqrt(p, t),
                    p >= 1,
            {
                if t > p {
                    assert(t * t > p) by (nonlinear_arith)
                        requires
                            t > p,
                            p >= 1,
                    ;
                }
            }
            crate::wide::lemma_small_has_no_high_word(w);
        }
        w.to_u128() as i128
    };
    let liq = root - MINIMUM_LIQUIDITY;
    if liq <= 0 {
        None
    } else {
        Some(liq)
    }
}

/// Liquidity minted for a later deposit (see [`subsequent_liquidity_spec`]).
pub fn subsequent_liquidity(
    amount_a: i128,
    amount_b: i128,
    reserve_a: i128,
    reserve_b: i128,
    total_supply: i128,
) -> (r: Option<i128>)
    ensures
        r matches Some(l) ==> subsequent_liquidity_spec(
            amount_a as int,
            amount_b as int,
            reserve_a as int,
            reserve_b as int,
            total_supply as int,
        ) == Some(l as int),
        r is None ==> subsequent_liquidity_spec(
            amount_a as int,
            amount_b as int,
            reserve_a as int,
            reserve_b as int,
            total_supply as int,
        ) is None,
{
    if reserve_a <= 0 || reserve_b <= 0 || total_supply <= 0 {
        return None;
    }
    let scaled_a = match amount_a.checked_mul(total_supply) {
        Some(v) => v,
        None => return None,
    };
    let scaled_b = match amount_b.checked_mul(total_supply) {
        Some(v) => v,
        None => return None,
    };
    let liq_a = crate::math::div_trunc(scaled_a, reserve_a);
    let liq_b = crate::math::div_trunc(scaled_b, reserve_b);
    let liq = if liq_a <= liq_b {
        liq_a
    } else {
        liq_b
    };
    if liq <= 0 {
        None
    } else {
        Some(liq)
    }
}

/// Tokens paid out for burned liquidity (see [`burn_amounts_spec`]).
pub fn burn_amounts(lp_amount: i128, reserve_a: i128, reserve_b: i128, total_supply: i128) -> (r: Option<
    (i128, i128),
>)
    ensures
        r matches Some(p) ==> burn_amounts_spec(lp_amount as int, reserve_a as int, reserve_b as int, total_supply as int)
            == Some((p.0 as int, p.1 as int)),
        r is None ==> burn_amounts_spec(lp_amount as int, reserve_a as int, reserve_b as int, total_supply as int) is None,
{
    if total_supply <= 0 || lp_amount <= 0 {
        return None;
    }
    let scaled_a = match lp_amount.checked_mul(reserve_a) {
        Some(v) => v,
        None => return None,
    };
    let scaled_b = match lp_amount.checked_mul(reserve_b) {
        Some(v) => v,
        None => return None,
    };
    let a = crate::math::div_trunc(scaled_a, total_supply);
    let b = crate::math::div_trunc(scaled_b, total_supply);
    if a <= 0 || b <= 0 {
        None
    } else {
        Some((a, b))
    }
}

/// The first deposit mints exactly `sqrt(amount_a * amount_b)` in all: the
/// depositor's liquidity plus the locked seed.
pub proof fn lemma_initial_supply_is_root(amount_a: int, amount_b: int)
    ensures
        initial_liquidity_spec(amount_a, amount_b) matches Some(l) ==> amount_a * amount_b > 0 && l
            + MINIMUM_LIQUIDITY == isqrt(amount_a * amount_b),
{
}

/// Burning at most the whole supply never pays out more than the reserves.
pub proof fn lemma_burn_within_reserves(lp_amount: int, reserve_a: int, reserve_b: int, total_supply: int)
    requires
        lp_amount <= total_supply,
        reserve_a >= 0,
        reserve_b >= 0,
    ensures
        burn_amounts_spec(lp_amount, reserve_a, reserve_b, total_supply) matches Some(p) ==> 0 < p.0
            <= reserve_a && 0 < p.1 <= reserve_b,
{
    if burn_amounts_spec(lp_amount, reserve_a, reserve_b, total_supply) is Some {
        lemma_share_bounded(lp_amount, reserve_a, total_supply);
        lemma_share_bounded(lp_amount, reserve_b, total_supply);
    }
}

/// `lp * reserve / supply`, rounded down, is at most `reserve` when
/// `lp <= supply`.
proof fn lemma_share_bounded(lp: int, reserve: int, supply: int)
    requires
        0 < lp <= supply,
        reserve >= 0,
    ensures
        trunc_div(lp * reserve, supply) <= reserve,
        trunc_div(lp * reserve, supply) == (lp * reserve) / supply,
{
    assert(lp * reserve >= 0) by (nonlinear_arith)
        requires
            lp > 0,
            reserve >= 0,
    ;
    assert(lp * reserve <= supply * reserve) by (nonlinear_arith)
        requires
            lp <= supply,
            reserve >= 0,
    ;
    vstd::arithmetic::div_mod::lemma_div_is_ordered(lp * reserve, supply * reserve, supply);
    vstd::arithmetic::div_mod::lemma_div_multiples_vanish(reserve, supply);
    assert(supply * reserve == reserve * supply) by (nonlinear_arith);
}

/// Burning only liquidity outside the locked seed leaves the seed's share
/// of each reserve in the pool: with `lp_amount <= total_supply -
/// MINIMUM_LIQUIDITY`, what remains of a reserve is at least
/// `reserve * MINIMUM_LIQUIDITY / total_supply`.
pub proof fn lemma_burn_leaves_seed(lp_amount: int, reserve_a: int, reserve_b: int, total_supply: int)
    requires
        total_supply >= MINIMUM_LIQUIDITY,
        lp_amount <= total_supply - MINIMUM_LIQUIDITY,
        reserve_a >= 0,
        reserve_b >= 0,
    ensures
        burn_amounts_spec(lp_amount, reserve_a, reserve_b, total_supply) matches Some(p) ==> (reserve_a
            - p.0) * total_supply >= reserve_a * MINIMUM_LIQUIDITY && (reserve_b - p.1) * total_supply
            >= reserve_b * MINIMUM_LIQUIDITY,
{
    if burn_amounts_spec(lp_amount, reserve_a, reserve_b, total_supply) is Some {
        lemma_seed_share(lp_amount, reserve_a, total_supply);
        lemma_seed_share(lp_amount, reserve_b, total_supply);
    }
}

/// One reserve's part of [`lemma_burn_leaves_seed`].
proof fn lemma_seed_share(lp: int, reserve: int, supply: int)
    requires
        supply >= MINIMUM_LIQUIDITY,
        0 < lp <= supply - MINIMUM_LIQUIDITY,
        reserve >= 0,
    ensures
        (reserve - trunc_div(lp * reserve, supply)) * supply >= reserve * MINIMUM_LIQUIDITY,
{
    lemma_share_bounded(lp, reserve, supply);
    let q = (lp * reserve) / supply;
    vstd::arithmetic::div_mod::lemma_fundamental_div_mod(lp * reserve, supply);
    vstd::arithmetic::div_mod::lemma_mod_pos_bound(lp * reserve, supply);
    assert((reserve - q) * supply >= reserve * MINIMUM_LIQUIDITY) by (nonlinear_arith)
        requires
            lp * reserve == supply * q + (lp * reserve) % supply,
            (lp * reserve) % supply >= 0,
            lp <= supply - MINIMUM_LIQUIDITY,
            reserve >= 0,
    ;
}

} // verus!
