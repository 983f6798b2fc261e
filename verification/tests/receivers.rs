use coralswap::receivers::{
    MaliciousFlashReceiver, MockFlashReceiver, ReceiverError, Reentry, ReentryOutcome, RepayPlan,
};

fn bytes(s: &str) -> Vec<u8> {
    s.as_bytes().to_vec()
}

#[test]
fn honest_receiver_repayment_plans() {
    assert_eq!(MockFlashReceiver::on_flash_loan(&bytes("repay"), 1_000, 0, 3, 0), (Some(1_003), None));
    assert_eq!(MockFlashReceiver::on_flash_loan(&bytes("overpay"), 1_000, 500, 3, 2), (Some(2_003), Some(1_002)));
    assert_eq!(MockFlashReceiver::on_flash_loan(&bytes("underpay"), 0, 500, 0, 2), (None, Some(501)));
    assert_eq!(MockFlashReceiver::on_flash_loan(&bytes("steal"), 1_000, 500, 3, 2), (None, None));
    assert_eq!(MockFlashReceiver::on_flash_loan(&bytes("nonsense"), 1_000, 500, 3, 2), (None, None));
    assert_eq!(MockFlashReceiver::plan_for(&bytes("repay")), RepayPlan::Repay);
    assert_eq!(MockFlashReceiver::plan_for(&bytes("repay ")), RepayPlan::Nothing);
}

#[test]
fn adversarial_receiver_attacks() {
    assert_eq!(MaliciousFlashReceiver::on_flash_loan(&bytes("attack_fail"), 5, 6), Err(ReceiverError::CallbackFailed));
    assert_eq!(
        MaliciousFlashReceiver::on_flash_loan(&bytes("attack_swap"), 5, 6),
        Ok(Reentry::Swap { amount_a_out: 0, amount_b_out: 1 })
    );
    assert_eq!(
        MaliciousFlashReceiver::on_flash_loan(&bytes("attack_flash"), 5, 6),
        Ok(Reentry::FlashLoan { amount_a: 5, amount_b: 6 })
    );
    assert_eq!(MaliciousFlashReceiver::on_flash_loan(&bytes("repay"), 5, 6), Ok(Reentry::Nothing));
    assert_eq!(MaliciousFlashReceiver::nested_payload(), bytes("nested"));
}

#[test]
fn reentry_errors_are_discarded_and_only_failed_invocations_abort() {
    assert!(!MaliciousFlashReceiver::aborts_after(ReentryOutcome::Returned));
    assert!(!MaliciousFlashReceiver::aborts_after(ReentryOutcome::ContractError));
    assert!(MaliciousFlashReceiver::aborts_after(ReentryOutcome::InvocationFailed));
}
