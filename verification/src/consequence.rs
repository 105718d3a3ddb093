//! Pure decision functions: would a deposit or a withdrawal violate the
//! issuance, overflow or minimum-balance rules? Every mutating facade
//! operation consults these before it commits anything.

use vstd::prelude::*;
use crate::account::AccountData;
use crate::account::Reasons;

verus! {

/// Outcome of proposing a deposit.
#[derive(Clone, Copy, PartialEq, Eq, Structural, Debug)]
pub enum DepositConsequence {
    /// The deposit may proceed.
    Success,
    /// The account total or, when minting, the total issuance would
    /// overflow the balance type.
    Overflow,
    /// The resulting total would still sit below the existential deposit.
    BelowMinimum,
}

/// Outcome of proposing a withdrawal.
#[derive(Clone, Copy, PartialEq, Eq, Structural, Debug)]
pub enum WithdrawConsequence {
    /// The withdrawal may proceed.
    Success,
    /// The free balance cannot cover the amount.
    NoFunds,
    /// Locked funds block the amount for this reason class.
    Frozen,
    /// The account must stay alive but would end below the existential
    /// deposit.
    WouldDie,
}

/// What depositing `amount` into `account` would bring about, with
/// `issuance` the current total issuance and `ed` the existential deposit.
/// `mint` says whether the deposit creates new value, which must also fit
/// into the total issuance.
pub open spec fn spec_deposit_consequence(
    amount: u64,
    account: AccountData,
    issuance: u64,
    ed: u64,
    mint: bool,
) -> DepositConsequence {
    if amount == 0 {
        DepositConsequence::Success
    } else if mint && issuance + amount > u64::MAX {
        DepositConsequence::Overflow
    } else if account.spec_total() + amount > u64::MAX {
        DepositConsequence::Overflow
    } else if account.spec_total() + amount < ed {
        DepositConsequence::BelowMinimum
    } else {
        DepositConsequence::Success
    }
}

/// What withdrawing `amount` from `account` would bring about. `reasons`
/// is the withdrawal's class, checked against the frozen funds; with
/// `keep_alive` the resulting total must not fall below `ed`.
pub open spec fn spec_withdraw_consequence(
    amount: u64,
    account: AccountData,
    ed: u64,
    reasons: Reasons,
    keep_alive: bool,
) -> WithdrawConsequence {
    if amount == 0 {
        WithdrawConsequence::Success
    } else if account.free < amount {
        WithdrawConsequence::NoFunds
    } else if account.spec_usable(reasons) < amount {
        WithdrawConsequence::Frozen
    } else if keep_alive && vstd::math::min(account.spec_total(), u64::MAX as int) - amount
        < ed {
        WithdrawConsequence::WouldDie
    } else {
        WithdrawConsequence::Success
    }
}

/// Decide a proposed deposit. Pure: no side effects.
pub fn deposit_consequence(
    amount: u64,
    account: &AccountData,
    issuance: u64,
    ed: u64,
    mint: bool,
) -> (r: DepositConsequence)
    ensures
        r == spec_deposit_consequence(amount, *account, issuance, ed, mint),
{
    if amount == 0 {
        return DepositConsequence::Success;
    }
    if mint && issuance > u64::MAX - amount {
        return DepositConsequence::Overflow;
    }
    let total = account.total();
    if total > u64::MAX - amount {
        return DepositConsequence::Overflow;
    }
    if total + amount < ed {
        return DepositConsequence::BelowMinimum;
    }
    DepositConsequence::Success
}

/// Decide a proposed withdrawal. Pure: no side effects.
pub fn withdraw_consequence(
    amount: u64,
    account: &AccountData,
    ed: u64,
    reasons: Reasons,
    keep_alive: bool,
) -> (r: WithdrawConsequence)
    ensures
        r == spec_withdraw_consequence(amount, *account, ed, reasons, keep_alive),
{
    if amount == 0 {
        return WithdrawConsequence::Success;
    }
    if account.free < amount {
        return WithdrawConsequence::NoFunds;
    }
    if account.usable(reasons) < amount {
        return WithdrawConsequence::Frozen;
    }
    if keep_alive {
        let total = account.total();
        if total - amount < ed {
            return WithdrawConsequence::WouldDie;
        }
    }
    WithdrawConsequence::Success
}

} // verus!
