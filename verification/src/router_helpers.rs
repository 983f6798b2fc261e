//! Pricing helpers shared by the router's path finding, swaps and
//! liquidity provisioning.
use vstd::prelude::*;

use crate::address::{addr_lt, Addr};
use crate::errors::RouterError;
use crate::math::{self, amount_out_spec, fits_i128, trunc_div};

verus! {

/// Orders two distinct tokens the way pairs store them.
pub fn sort_tokens(a: &Addr, b: &Addr) -> (r: Result<(Addr, Addr), RouterError>)
    ensures
        r == Err::<(Addr, Addr), RouterError>(RouterError::IdenticalTokens) <==> a == b,
        r is Ok <==> a != b,
        r matches Ok(p) ==> (addr_lt(*a, *b) ==> p == (*a, *b)) && (!addr_lt(*a, *b) ==> p == (*b, *a))
            && addr_lt(p.0, p.1),
{
    if *a == *b {
        return Err(RouterError::IdenticalTokens);
    }
    proof {
        crate::address::lemma_addr_order(*a, *b, *b);
    }
    if a.lt(b) {
        Ok((*a, *b))
    } else {
        Ok((*b, *a))
    }
}

/// The router's quote for one hop: the constant-product output, or the
/// reason it cannot be priced.
pub open spec fn router_amount_out(amount_in: int, reserve_in: int, reserve_out: int, fee_bps: int) -> Result<int, RouterError> {
    if amount_in <= 0 {
        Err(RouterError::ZeroAmount)
    } else if reserve_in <= 0 || reserve_out <= 0 {
        Err(RouterError::InsufficientLiquidity)
    } else {
        match amount_out_spec(amount_in, reserve_in, reserve_out, fee_bps) {
            Some(out) => Ok(out),
            None => Err(RouterError::InsufficientOutputAmount),
        }
    }
}

/// Output of one swap hop (see [`router_amount_out`]).
pub fn get_amount_out(amount_in: i128, reserve_in: i128, reserve_out: i128, fee_bps: u32) -> (r: Result<i128, RouterError>)
    ensures
        r matches Ok(v) ==> router_amount_out(amount_in as int, reserve_in as int, reserve_out as int, fee_bps as int) == Ok::<int, RouterError>(v as int),
        r matches Err(e) ==> router_amount_out(amount_in as int, reserve_in as int, reserve_out as int, fee_bps as int) == Err::<int, RouterError>(e),
{
    if amount_in <= 0 {
        return Err(RouterError::ZeroAmount);
    }
    if reserve_in <= 0 || reserve_out <= 0 {
        return Err(RouterError::InsufficientLiquidity);
    }
    match math::get_amount_out(amount_in, reserve_in, reserve_out, fee_bps) {
        Some(out) => Ok(out),
        None => Err(RouterError::InsufficientOutputAmount),
    }
}

/// The input needed to receive `amount_out` from one hop:
/// `reserve_in * amount_out * 10_000 / ((reserve_out - amount_out) * (10_000 - fee)) + 1`.
pub open spec fn router_amount_in(amount_out: int, reserve_in: int, reserve_out: int, fee_bps: int) -> Result<int, RouterError> {
    if amount_out <= 0 {
        Err(RouterError::ZeroAmount)
    } else if reserve_in <= 0 || reserve_out <= 0 || amount_out >= reserve_out {
        Err(RouterError::InsufficientLiquidity)
    } else {
        let fee_factor = 10_000 - fee_bps;
        let scaled = reserve_in * amount_out;
        let numerator = scaled * 10_000;
        let denominator = (reserve_out - amount_out) * fee_factor;
        if fee_factor <= 0 || !fits_i128(scaled) || !fits_i128(numerator) || !fits_i128(denominator)
            || !fits_i128(numerator / denominator + 1) {
            Err(RouterError::InternalError)
        } else {
            Ok(numerator / denominator + 1)
        }
    }
}

/// Input amount required for one swap hop (see [`router_amount_in`]).
pub fn get_amount_in(amount_out: i128, reserve_in: i128, reserve_out: i128, fee_bps: u32) -> (r: Result<i128, RouterError>)
    ensures
        r matches Ok(v) ==> router_amount_in(amount_out as int, reserve_in as int, reserve_out as int, fee_bps as int) == Ok::<int, RouterError>(v as int),
        r matches Err(e) ==> router_amount_in(amount_out as int, reserve_in as int, reserve_out as int, fee_bps as int) == Err::<int, RouterError>(e),
{
    if amount_out <= 0 {
        return Err(RouterError::ZeroAmount);
    }
    if reserve_in <= 0 || reserve_out <= 0 || amount_out >= reserve_out {
        return Err(RouterError::InsufficientLiquidity);
    }
    if fee_bps >= 10_000 {
        return Err(RouterError::InternalError);
    }
    let fee_factor = 10_000i128 - fee_bps as i128;
    let scaled = match reserve_in.checked_mul(amount_out) {
        Some(v) => v,
        None => return Err(RouterError::InternalError),
    };
    let numerator = match scaled.checked_mul(10_000) {
        Some(v) => v,
        None => return Err(RouterError::InternalError),
    };
    let remaining = reserve_out - amount_out;
    let denominator = match remaining.checked_mul(fee_factor) {
        Some(v) => v,
        None => return Err(RouterError::InternalError),
    };
    proof {
        assert(denominator > 0) by (nonlinear_arith)
            requires
                denominator == remaining * fee_factor,
                remaining > 0,
                fee_factor > 0,
        ;
        assert(numerator >= 0) by (nonlinear_arith)
            requires
                numerator == scaled * 10_000,
                scaled == reserve_in * amount_out,
                reserve_in > 0,
                amount_out > 0,
        ;
        vstd::arithmetic::div_mod::lemma_div_is_ordered_by_denominator(numerator as int, 1, denominator as int);
        vstd::arithmetic::div_mod::lemma_div_pos_is_pos(numerator as int, denominator as int);
    }
    let quotient = numerator / denominator;
    if quotient == i128::MAX {
        return Err(RouterError::InternalError);
    }
    Ok(quotient + 1)
}

/// A computed input is positive.
pub proof fn lemma_amount_in_positive(amount_out: int, reserve_in: int, reserve_out: int, fee_bps: int)
    ensures
        router_amount_in(amount_out, reserve_in, reserve_out, fee_bps) matches Ok(v) ==> v >= 1,
{
    if router_amount_in(amount_out, reserve_in, reserve_out, fee_bps) is Ok {
        let ff = 10_000 - fee_bps;
        let num = reserve_in * amount_out * 10_000;
        let den = (reserve_out - amount_out) * ff;
        assert(num >= 0) by (nonlinear_arith)
            requires
                num == reserve_in * amount_out * 10_000,
                reserve_in > 0,
                amount_out > 0,
        ;
        assert(den > 0) by (nonlinear_arith)
            requires
                den == (reserve_out - amount_out) * ff,
                reserve_out - amount_out > 0,
                ff > 0,
        ;
        vstd::arithmetic::div_mod::lemma_div_pos_is_pos(num, den);
    }
}

/// Buying back: the input computed for `amount_out` always buys at least
/// `amount_out` when its own quote can be computed.
pub proof fn lemma_amount_in_covers_amount_out(amount_out: int, reserve_in: int, reserve_out: int, fee_bps: int)
    requires
        0 <= fee_bps <= 10_000,
        router_amount_in(amount_out, reserve_in, reserve_out, fee_bps) is Ok,
        router_amount_out(
            router_amount_in(amount_out, reserve_in, reserve_out, fee_bps)->Ok_0,
            reserve_in,
            reserve_out,
            fee_bps,
        ) is Ok,
    ensures
        router_amount_out(
            router_amount_in(amount_out, reserve_in, reserve_out, fee_bps)->Ok_0,
            reserve_in,
            reserve_out,
            fee_bps,
        )->Ok_0 >= amount_out,
{
    let x = router_amount_in(amount_out, reserve_in, reserve_out, fee_bps)->Ok_0;
    let ff = 10_000 - fee_bps;
    let num = reserve_in * amount_out * 10_000;
    let den = (reserve_out - amount_out) * ff;
    assert(den > 0) by (nonlinear_arith)
        requires
            den == (reserve_out - amount_out) * ff,
            reserve_out - amount_out > 0,
            ff > 0,
    ;
    vstd::arithmetic::div_mod::lemma_fundamental_div_mod(num, den);
    vstd::arithmetic::div_mod::lemma_mod_bound(num, den);
    assert(x == num / den + 1);
    // x * den > num, i.e. x * ff * (reserve_out - amount_out) > reserve_in * amount_out * 10_000
    assert(x * den > num) by (nonlinear_arith)
        requires
            num == den * (num / den) + num % den,
            num % den < den,
            x == num / den + 1,
    ;
    let wf = x * ff;
    let o_num = wf * reserve_out;
    let o_den = reserve_in * 10_000 + wf;
    let out = trunc_div(o_num, o_den);
    assert(wf > 0) by (nonlinear_arith)
        requires
            x > 0,
            ff > 0,
            wf == x * ff,
    ;
    assert(o_num > 0) by (nonlinear_arith)
        requires
            wf > 0,
            reserve_out > 0,
            o_num == wf * reserve_out,
    ;
    assert(out == o_num / o_den);
    // wf * (reserve_out - amount_out) > reserve_in * amount_out * 10_000
    // <=> wf * reserve_out > amount_out * (reserve_in * 10_000 + wf)
    assert(o_num >= amount_out * o_den) by (nonlinear_arith)
        requires
            x * den > num,
            den == (reserve_out - amount_out) * ff,
            num == reserve_in * amount_out * 10_000,
            wf == x * ff,
            o_num == wf * reserve_out,
            o_den == reserve_in * 10_000 + wf,
    ;
    vstd::arithmetic::div_mod::lemma_div_is_ordered(amount_out * o_den, o_num, o_den);
    vstd::arithmetic::div_mod::lemma_div_multiples_vanish(amount_out, o_den);
}

/// Deposit amounts that preserve the pool ratio, following the
/// Uniswap-V2 `add_liquidity` rule.
pub open spec fn optimal_amounts(
    desired_a: int,
    desired_b: int,
    min_a: int,
    min_b: int,
    reserve_a: int,
    reserve_b: int,
) -> Result<(int, int), RouterError> {
    if reserve_a == 0 && reserve_b == 0 {
        Ok((desired_a, desired_b))
    } else if reserve_a <= 0 || reserve_b <= 0 {
        Err(RouterError::InsufficientLiquidity)
    } else if !fits_i128(desired_a * reserve_b) {
        Err(RouterError::InternalError)
    } else if (desired_a * reserve_b) / reserve_a <= desired_b {
        let b_optimal = (desired_a * reserve_b) / reserve_a;
        if b_optimal < min_b {
            Err(RouterError::SlippageExceeded)
        } else {
            Ok((desired_a, b_optimal))
        }
    } else if !fits_i128(desired_b * reserve_a) {
        Err(RouterError::InternalError)
    } else {
        let a_optimal = (desired_b * reserve_a) / reserve_b;
        if a_optimal < min_a {
            Err(RouterError::SlippageExceeded)
        } else {
            Ok((a_optimal, desired_b))
        }
    }
}

/// Computes the deposit that keeps the pool ratio (see [`optimal_amounts`]).
/// Never asks for more of either token than desired.
pub fn compute_optimal_amounts(
    amount_a_desired: i128,
    amount_b_desired: i128,
    amount_a_min: i128,
    amount_b_min: i128,
    reserve_a: i128,
    reserve_b: i128,
) -> (r: Result<(i128, i128), RouterError>)
    requires
        amount_a_desired > 0,
        amount_b_desired > 0,
    ensures
        r matches Ok(p) ==> optimal_amounts(
            amount_a_desired as int,
            amount_b_desired as int,
            amount_a_min as int,
            amount_b_min as int,
            reserve_a as int,
            reserve_b as int,
        ) == Ok::<(int, int), RouterError>((p.0 as int, p.1 as int)) && 0 <= p.0 <= amount_a_desired
            && 0 <= p.1 <= amount_b_desired,
        r matches Err(e) ==> optimal_amounts(
            amount_a_desired as int,
            amount_b_desired as int,
            amount_a_min as int,
            amount_b_min as int,
            reserve_a as int,
            reserve_b as int,
        ) == Err::<(int, int), RouterError>(e),
{
    if reserve_a == 0 && reserve_b == 0 {
        return Ok((amount_a_desired, amount_b_desired));
    }
    if reserve_a <= 0 || reserve_b <= 0 {
        return Err(RouterError::InsufficientLiquidity);
    }
    let scaled_b = match amount_a_desired.checked_mul(reserve_b) {
        Some(v) => v,
        None => return Err(RouterError::InternalError),
    };
    assert(scaled_b > 0) by (nonlinear_arith)
        requires
            scaled_b == amount_a_desired * reserve_b,
            amount_a_desired > 0,
            reserve_b > 0,
    ;
    let amount_b_optimal = scaled_b / reserve_a;
    if amount_b_optimal <= amount_b_desired {
        if amount_b_optimal < amount_b_min {
            return Err(RouterError::SlippageExceeded);
        }
        return Ok((amount_a_desired, amount_b_optimal));
    }
    let scaled_a = match amount_b_desired.checked_mul(reserve_a) {
        Some(v) => v,
        None => return Err(RouterError::InternalError),
    };
    assert(scaled_a > 0) by (nonlinear_arith)
        requires
            scaled_a == amount_b_desired * reserve_a,
            amount_b_desired > 0,
            reserve_a > 0,
    ;
    let amount_a_optimal = scaled_a / reserve_b;
    proof {
        // desired_b < desired_a * reserve_b / reserve_a implies
        // desired_b * reserve_a / reserve_b <= desired_a.
        let da = amount_a_desired as int;
        let db = amount_b_desired as int;
        let ra = reserve_a as int;
        let rb = reserve_b as int;
        vstd::arithmetic::div_mod::lemma_fundamental_div_mod(da * rb, ra);
        vstd::arithmetic::div_mod::lemma_mod_pos_bound(da * rb, ra);
        assert(db * ra < da * rb) by (nonlinear_arith)
            requires
                db < (da * rb) / ra,
                da * rb == ra * ((da * rb) / ra) + (da * rb) % ra,
                (da * rb) % ra >= 0,
                ra > 0,
        {
            assert(db * ra < ((da * rb) / ra) * ra) by (nonlinear_arith)
                requires
                    db < (da * rb) / ra,
                    ra > 0,
            ;
        }
        vstd::arithmetic::div_mod::lemma_div_is_ordered(db * ra, da * rb, rb);
        vstd::arithmetic::div_mod::lemma_div_multiples_vanish(da, rb);
        assert((da * rb) / rb == da) by {
            assert(da * rb == rb * da) by (nonlinear_arith);
        }
        vstd::arithmetic::div_mod::lemma_div_pos_is_pos(db * ra, rb);
    }
    if amount_a_optimal < amount_a_min {
        return Err(RouterError::SlippageExceeded);
    }
    Ok((amount_a_optimal, amount_b_desired))
}

} // verus!
