//! Flash-loan fee computation.
use vstd::prelude::*;

use crate::errors::PairError;
use crate::math::{div_trunc, fits_i128, trunc_div};

verus! {

/// The largest flash-loan fee, in basis points (100%).
pub const MAX_FLASH_FEE_BPS: u32 = 10_000;

/// Fee owed on a flash loan of `amount` at `fee_bps` basis points:
/// `amount * fee_bps / 10_000`, rounded toward zero.
///
/// # Errors
/// - `PairError::FlashLoanFeeTooHigh` if `fee_bps` exceeds 10 000.
/// - `PairError::FeeOverflow` if `amount * fee_bps` does not fit in an `i128`.
pub fn compute_flash_fee(amount: i128, fee_bps: u32) -> (r: Result<i128, PairError>)
    ensures
        r == Err::<i128, PairError>(PairError::FlashLoanFeeTooHigh) <==> fee_bps > MAX_FLASH_FEE_BPS,
        r == Err::<i128, PairError>(PairError::FeeOverflow) <==> (fee_bps <= MAX_FLASH_FEE_BPS
            && !fits_i128(amount * fee_bps)),
        r is Ok <==> (fee_bps <= MAX_FLASH_FEE_BPS && fits_i128(amount * fee_bps)),
        r matches Ok(fee) ==> fee == trunc_div(amount * fee_bps, 10_000),
{
    if fee_bps > MAX_FLASH_FEE_BPS {
        return Err(PairError::FlashLoanFeeTooHigh);
    }
    let product = match amount.checked_mul(fee_bps as i128) {
        Some(p) => p,
        None => return Err(PairError::FeeOverflow),
    };
    Ok(div_trunc(product, 10_000))
}

/// The fee never exceeds the borrowed amount, and is non-negative for a
/// non-negative amount.
pub proof fn lemma_flash_fee_bounded(amount: int, fee_bps: int)
    requires
        amount >= 0,
        0 <= fee_bps <= 10_000,
    ensures
        0 <= trunc_div(amount * fee_bps, 10_000) <= amount,
{
    assert(0 <= amount * fee_bps <= amount * 10_000) by (nonlinear_arith)
        requires
            amount >= 0,
            0 <= fee_bps <= 10_000,
    ;
    vstd::arithmetic::div_mod::lemma_div_is_ordered(amount * fee_bps, amount * 10_000, 10_000);
    vstd::arithmetic::div_mod::lemma_div_multiples_vanish(amount, 10_000);
    vstd::arithmetic::div_mod::lemma_div_pos_is_pos(amount * fee_bps, 10_000);
}

} // verus!
