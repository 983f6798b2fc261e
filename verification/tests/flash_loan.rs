use coralswap::errors::PairError;
use coralswap::flash_loan::{compute_flash_fee, MAX_FLASH_FEE_BPS};

#[test]
fn test_compute_flash_fee_overflow_returns_error() {
    let result = compute_flash_fee(i128::MAX, 30);
    assert_eq!(result, Err(PairError::FeeOverflow));
}

#[test]
fn test_compute_flash_fee_normal_amount() {
    let result = compute_flash_fee(10_000, 30);
    assert!(result.is_ok());
    assert!(result.unwrap() > 0);
}

#[test]
fn test_compute_flash_fee_cap_boundary_valid() {
    let result = compute_flash_fee(10_000, 10_000);
    assert!(result.is_ok());
    assert_eq!(result.unwrap(), 10_000);
}

#[test]
fn test_compute_flash_fee_cap_boundary_invalid() {
    let result = compute_flash_fee(10_000, 10_001);
    assert_eq!(result, Err(PairError::FlashLoanFeeTooHigh));
}

#[test]
fn test_compute_flash_fee_excessive_fee() {
    let result = compute_flash_fee(10_000, 15_000);
    assert_eq!(result, Err(PairError::FlashLoanFeeTooHigh));
}

#[test]
fn flash_fee_exact_values() {
    assert_eq!(compute_flash_fee(1_000_000, 30), Ok(3_000));
    // 9_999 * 30 / 10_000 = 29.997, rounded toward zero.
    assert_eq!(compute_flash_fee(9_999, 30), Ok(29));
    assert_eq!(compute_flash_fee(-9_999, 30), Ok(-29));
    assert_eq!(compute_flash_fee(0, 30), Ok(0));
    assert_eq!(compute_flash_fee(1_000_000, 0), Ok(0));
}

#[test]
fn flash_fee_cap_is_checked_before_overflow() {
    assert_eq!(compute_flash_fee(i128::MAX, 10_001), Err(PairError::FlashLoanFeeTooHigh));
    assert_eq!(MAX_FLASH_FEE_BPS, 10_000);
}

#[test]
fn flash_fee_never_exceeds_the_amount() {
    for amount in [1i128, 7, 999, 10_000, 123_456_789, 1_000_000_000_000] {
        for fee_bps in [0u32, 1, 30, 5_000, 9_999, 10_000] {
            let fee = compute_flash_fee(amount, fee_bps).unwrap();
            assert!(0 <= fee && fee <= amount);
        }
    }
}
