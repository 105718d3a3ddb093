//! Per-account balance records and the lock / reserve entry types.

use vstd::prelude::*;

verus! {

/// The class of activity a freeze applies to. Fee payment and all other
/// ("miscellaneous") withdrawals are frozen independently; `All` covers both.
#[derive(Clone, Copy, PartialEq, Eq, Structural, Debug)]
pub enum Reasons {
    /// Freezing only restricts fee payment.
    Fee,
    /// Freezing restricts everything but fee payment.
    Misc,
    /// Freezing restricts fee payment and all other withdrawals alike.
    All,
}

impl Reasons {
    /// The class that restricts whatever either of the two classes restricts.
    pub open spec fn spec_union(self, other: Reasons) -> Reasons {
        if self == other {
            self
        } else {
            Reasons::All
        }
    }

    /// Combine two reason classes into the one covering both.
    pub fn union(self, other: Reasons) -> (r: Reasons)
        ensures
            r == self.spec_union(other),
    {
        if self == other {
            self
        } else {
            Reasons::All
        }
    }

    /// Does a freeze of class `self` restrict withdrawals of class `other`?
    pub open spec fn covers(self, other: Reasons) -> bool {
        self == other || self == Reasons::All || other == Reasons::All
    }
}

/// One account's balance breakdown. All amounts are denominated in the one
/// balance unit of the ledger.
#[derive(Clone, Copy, PartialEq, Eq, Structural, Debug)]
pub struct AccountData {
    /// Balance that may be spent, up to the frozen portion.
    pub free: u64,
    /// Balance set aside; it can be slashed or repatriated but never spent.
    pub reserved: u64,
    /// Amount of `free` that locks freeze for non-fee withdrawals.
    pub misc_frozen: u64,
    /// Amount of `free` that locks freeze for fee payment.
    pub fee_frozen: u64,
}

impl AccountData {
    /// The record an unknown account reads as: everything zero.
    pub open spec fn spec_zero() -> AccountData {
        (AccountData { free: 0, reserved: 0, misc_frozen: 0, fee_frozen: 0 })
    }

    /// Build the all-zero record.
    pub fn zero() -> (r: AccountData)
        ensures
            r == AccountData::spec_zero(),
    {
        AccountData { free: 0, reserved: 0, misc_frozen: 0, fee_frozen: 0 }
    }

    /// The mathematical total `free + reserved`, without saturation.
    pub open spec fn spec_total(self) -> int {
        self.free + self.reserved
    }

    /// How much of `free` is frozen against withdrawals of class `reasons`.
    pub open spec fn spec_frozen(self, reasons: Reasons) -> int {
        match reasons {
            Reasons::Fee => self.fee_frozen as int,
            Reasons::Misc => self.misc_frozen as int,
            Reasons::All => vstd::math::max(self.misc_frozen as int, self.fee_frozen as int),
        }
    }

    /// How much of `free` may actually be withdrawn under class `reasons`:
    /// `free` minus the frozen portion, never below zero.
    pub open spec fn spec_usable(self, reasons: Reasons) -> int {
        vstd::math::max(self.free - self.spec_frozen(reasons), 0)
    }

    /// Total balance of the account, saturating at the balance type's limit.
    pub fn total(&self) -> (r: u64)
        ensures
            r == vstd::math::min(self.spec_total(), u64::MAX as int),
    {
        if self.free <= u64::MAX - self.reserved {
            self.free + self.reserved
        } else {
            u64::MAX
        }
    }

    /// The frozen amount for withdrawals of class `reasons`.
    pub fn frozen(&self, reasons: Reasons) -> (r: u64)
        ensures
            r == self.spec_frozen(reasons),
    {
        match reasons {
            Reasons::Fee => self.fee_frozen,
            Reasons::Misc => self.misc_frozen,
            Reasons::All => if self.misc_frozen >= self.fee_frozen {
                self.misc_frozen
            } else {
                self.fee_frozen
            },
        }
    }

    /// The spendable amount under class `reasons`: `free` minus the frozen
    /// portion, saturating at zero.
    pub fn usable(&self, reasons: Reasons) -> (r: u64)
        ensures
            r == self.spec_usable(reasons),
    {
        let frozen = self.frozen(reasons);
        if self.free >= frozen {
            self.free - frozen
        } else {
            0
        }
    }
}

impl Default for AccountData {
    /// An unknown account defaults to the all-zero record.
    fn default() -> (r: AccountData)
        ensures
            r == AccountData::spec_zero(),
    {
        AccountData::zero()
    }
}

/// One named lock on an account's free balance. Locks overlap: the effective
/// freeze per reason class is the maximum, not the sum, of the lock amounts.
#[derive(Clone, Copy, PartialEq, Eq, Structural, Debug)]
pub struct BalanceLock {
    /// Identifier the lock was registered under; one lock per id per account.
    pub id: u64,
    /// Amount of free balance this lock freezes.
    pub amount: u64,
    /// Which withdrawal class the lock restricts.
    pub reasons: Reasons,
}

/// One named slice of an account's reserved balance.
#[derive(Clone, Copy, PartialEq, Eq, Structural, Debug)]
pub struct ReserveData {
    /// Identifier the reserve was registered under; one entry per id.
    pub id: u64,
    /// Amount of the reserved balance attributed to this id.
    pub amount: u64,
}

} // verus!
