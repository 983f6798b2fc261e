//! Flash-loan receivers used to exercise the pair: an honest one whose
//! payload selects how it repays, and an adversarial one whose payload
//! selects how it tries to re-enter the pair. Each decides here what to do;
//! the transfers and pair calls it makes are host work.
use vstd::prelude::*;

verus! {

/// Whether the bytes `data` spell the ASCII text `tag`.
pub open spec fn spells(data: Seq<u8>, tag: Seq<char>) -> bool {
    data.len() == tag.len() && forall|i: int| 0 <= i < data.len() ==> (data[i] as char) == tag[i]
}

/// Whether `data` spells `tag`.
fn bytes_spell(data: &Vec<u8>, tag: &str) -> (r: bool)
    ensures
        r == spells(data@, tag@),
{
    let n = tag.unicode_len();
    if data.len() != n {
        return false;
    }
    let mut i: usize = 0;
    while i < n
        invariant
            data@.len() == n,
            n == tag@.len(),
            i <= n,
            forall|k: int| 0 <= k < i ==> (data@[k] as char) == tag@[k],
        decreases n - i,
    {
        let c = tag.get_char(i);
        if data[i] as char != c {
            return false;
        }
        i = i + 1;
    }
    true
}

/// The error the adversarial receiver raises when told to fail.
#[derive(Clone, Copy, Debug, PartialEq, Eq, Structural)]
pub enum ReceiverError {
    CallbackFailed,
}

/// How the honest receiver repays a loan.
#[derive(Clone, Copy, Debug, PartialEq, Eq, Structural)]
pub enum RepayPlan {
    /// Repay exactly the amount and the fee.
    Repay,
    /// Repay the amount and the fee, and the amount once more.
    Overpay,
    /// Repay one unit less than the amount and the fee.
    Underpay,
    /// Repay nothing.
    Nothing,
}

/// The plan `data` selects: `repay`, `overpay` or `underpay`; any other
/// payload, `steal` among them, repays nothing.
pub open spec fn repay_plan(data: Seq<u8>) -> RepayPlan {
    if spells(data, "steal"@) {
        RepayPlan::Nothing
    } else if spells(data, "repay"@) {
        RepayPlan::Repay
    } else if spells(data, "overpay"@) {
        RepayPlan::Overpay
    } else if spells(data, "underpay"@) {
        RepayPlan::Underpay
    } else {
        RepayPlan::Nothing
    }
}

/// What the receiver sends back of one token under `plan`, for a loan of
/// `amount` with fee `fee`; nothing when that token was not borrowed.
pub open spec fn repayment(plan: RepayPlan, amount: int, fee: int) -> Option<int> {
    if amount <= 0 {
        None
    } else {
        match plan {
            RepayPlan::Repay => Some(amount + fee),
            RepayPlan::Overpay => Some(amount + fee + amount),
            RepayPlan::Underpay => Some(amount + fee - 1),
            RepayPlan::Nothing => None,
        }
    }
}

/// Whether the repayment under `plan` can be computed in `i128`.
pub open spec fn repayment_fits(plan: RepayPlan, amount: int, fee: int) -> bool {
    repayment(plan, amount, fee) matches Some(x) ==> (i128::MIN <= amount + fee <= i128::MAX
        && i128::MIN <= x <= i128::MAX)
}

/// The honest flash-loan receiver.
pub struct MockFlashReceiver;

/// The repayment of one token.
fn repay_one(plan: RepayPlan, amount: i128, fee: i128) -> (r: Option<i128>)
    requires
        repayment_fits(plan, amount as int, fee as int),
    ensures
        r matches Some(x) ==> repayment(plan, amount as int, fee as int) == Some(x as int),
        r is None ==> repayment(plan, amount as int, fee as int) is None,
{
    if amount <= 0 {
        return None;
    }
    match plan {
        RepayPlan::Repay => Some(amount + fee),
        RepayPlan::Overpay => Some(amount + fee + amount),
        RepayPlan::Underpay => Some(amount + fee - 1),
        RepayPlan::Nothing => None,
    }
}

impl MockFlashReceiver {
    /// The plan that `data` selects.
    pub fn plan_for(data: &Vec<u8>) -> (p: RepayPlan)
        ensures
            p == repay_plan(data@),
    {
        if bytes_spell(data, "steal") {
            RepayPlan::Nothing
        } else if bytes_spell(data, "repay") {
            RepayPlan::Repay
        } else if bytes_spell(data, "overpay") {
            RepayPlan::Overpay
        } else if bytes_spell(data, "underpay") {
            RepayPlan::Underpay
        } else {
            RepayPlan::Nothing
        }
    }

    /// The callback: the amounts of token A and token B to transfer back to
    /// the initiator, `None` where nothing is sent.
    pub fn on_flash_loan(data: &Vec<u8>, amount_a: i128, amount_b: i128, fee_a: i128, fee_b: i128) -> (r:
        (Option<i128>, Option<i128>))
        requires
            repayment_fits(repay_plan(data@), amount_a as int, fee_a as int),
            repayment_fits(repay_plan(data@), amount_b as int, fee_b as int),
        ensures
            r.0 matches Some(x) ==> repayment(repay_plan(data@), amount_a as int, fee_a as int) == Some(
                x as int,
            ),
            r.0 is None ==> repayment(repay_plan(data@), amount_a as int, fee_a as int) is None,
            r.1 matches Some(x) ==> repayment(repay_plan(data@), amount_b as int, fee_b as int) == Some(
                x as int,
            ),
            r.1 is None ==> repayment(repay_plan(data@), amount_b as int, fee_b as int) is None,
    {
        let plan = Self::plan_for(data);
        (repay_one(plan, amount_a, fee_a), repay_one(plan, amount_b, fee_b))
    }
}

/// A call the adversarial receiver makes back into the pair.
#[derive(Clone, Copy, Debug, PartialEq, Eq, Structural)]
pub enum Reentry {
    /// No call.
    Nothing,
    /// A swap asking for `amount_a_out` of token A and `amount_b_out` of
    /// token B, paid to the receiver.
    Swap { amount_a_out: i128, amount_b_out: i128 },
    /// A nested flash loan of the same amounts to the receiver, with the
    /// payload `nested`.
    FlashLoan { amount_a: i128, amount_b: i128 },
}

/// What the adversarial receiver does for `data`: `attack_fail` fails the
/// callback; `attack_swap` re-enters through a swap of 0 of token A and 1 of
/// token B; `attack_flash` nests a flash loan of the same amounts; any other
/// payload does nothing.
pub open spec fn attack(data: Seq<u8>, amount_a: i128, amount_b: i128) -> Result<Reentry, ReceiverError> {
    if spells(data, "attack_fail"@) {
        Err(ReceiverError::CallbackFailed)
    } else if spells(data, "attack_swap"@) {
        Ok(Reentry::Swap { amount_a_out: 0, amount_b_out: 1 })
    } else if spells(data, "attack_flash"@) {
        Ok(Reentry::FlashLoan { amount_a, amount_b })
    } else {
        Ok(Reentry::Nothing)
    }
}

/// The adversarial flash-loan receiver.
pub struct MaliciousFlashReceiver;

/// How the adversarial receiver's call back into the pair came back.
#[derive(Clone, Copy, Debug, PartialEq, Eq, Structural)]
pub enum ReentryOutcome {
    /// The pair's function returned.
    Returned,
    /// The pair refused the call with one of its errors.
    ContractError,
    /// The call could not be carried out.
    InvocationFailed,
}

impl MaliciousFlashReceiver {
    /// The callback: the failure or the call back into the pair that
    /// `data` selects.
    pub fn on_flash_loan(data: &Vec<u8>, amount_a: i128, amount_b: i128) -> (r: Result<
        Reentry,
        ReceiverError,
    >)
        ensures
            r == attack(data@, amount_a, amount_b),
    {
        if bytes_spell(data, "attack_fail") {
            Err(ReceiverError::CallbackFailed)
        } else if bytes_spell(data, "attack_swap") {
            Ok(Reentry::Swap { amount_a_out: 0, amount_b_out: 1 })
        } else if bytes_spell(data, "attack_flash") {
            Ok(Reentry::FlashLoan { amount_a, amount_b })
        } else {
            Ok(Reentry::Nothing)
        }
    }

    /// Whether the callback aborts once its call back into the pair came
    /// back with `outcome`: an error the pair returns is discarded, and only
    /// a call that could not be invoked aborts.
    pub fn aborts_after(outcome: ReentryOutcome) -> (b: bool)
        ensures
            b <==> outcome == ReentryOutcome::InvocationFailed,
    {
        match outcome {
            ReentryOutcome::InvocationFailed => true,
            ReentryOutcome::Returned => false,
            ReentryOutcome::ContractError => false,
        }
    }

    /// The payload of the nested flash loan: the bytes of `nested`.
    pub fn nested_payload() -> (v: Vec<u8>)
        ensures
            spells(v@, "nested"@),
    {
        proof {
            reveal_strlit("nested");
        }
        let v: Vec<u8> = vec![110u8, 101u8, 115u8, 116u8, 101u8, 100u8];
        proof {
            assert(spells(v@, "nested"@));
        }
        v
    }
}

} // verus!
