//! Imbalances: receipts for account changes not yet reflected in the
//! recorded total issuance.
//!
//! A `Positive` imbalance says the accounts hold more than the recorded
//! issuance, a `Negative` one that they hold less. Every facade operation
//! of the ledger reconciles the imbalances it produces before returning;
//! only [`crate::ledger::Ledger::issue`] and [`crate::ledger::Ledger::burn`]
//! hand one back to the caller, who settles or offsets it explicitly.

use vstd::prelude::*;

verus! {

/// A pending adjustment to total issuance.
#[derive(Clone, Copy, PartialEq, Eq, Structural, Debug)]
pub enum Imbalance {
    /// Accounts exceed recorded issuance by this amount; settling it
    /// raises the issuance.
    Positive(u64),
    /// Accounts fall short of recorded issuance by this amount; settling
    /// it lowers the issuance.
    Negative(u64),
}

impl Imbalance {
    /// The carried amount, without its direction.
    pub open spec fn spec_amount(self) -> u64 {
        match self {
            Imbalance::Positive(a) => a,
            Imbalance::Negative(a) => a,
        }
    }

    /// The adjustment as a signed integer: positive raises issuance.
    pub open spec fn spec_signed(self) -> int {
        match self {
            Imbalance::Positive(a) => a as int,
            Imbalance::Negative(a) => -(a as int),
        }
    }

    /// An imbalance that adjusts nothing.
    pub fn zero() -> (r: Imbalance)
        ensures
            r.spec_signed() == 0,
    {
        Imbalance::Positive(0)
    }

    /// The carried amount.
    pub fn peek(&self) -> (r: u64)
        ensures
            r == self.spec_amount(),
    {
        match *self {
            Imbalance::Positive(a) => a,
            Imbalance::Negative(a) => a,
        }
    }

    /// Combine two imbalances into one carrying their net adjustment,
    /// saturating at the balance type's limits.
    pub fn offset(self, other: Imbalance) -> (r: Imbalance)
        ensures
            r.spec_signed() == vstd::math::max(
                vstd::math::min(self.spec_signed() + other.spec_signed(), u64::MAX as int),
                -(u64::MAX as int),
            ),
    {
        match (self, other) {
            (Imbalance::Positive(a), Imbalance::Positive(b)) => {
                if a <= u64::MAX - b {
                    Imbalance::Positive(a + b)
                } else {
                    Imbalance::Positive(u64::MAX)
                }
            },
            (Imbalance::Negative(a), Imbalance::Negative(b)) => {
                if a <= u64::MAX - b {
                    Imbalance::Negative(a + b)
                } else {
                    Imbalance::Negative(u64::MAX)
                }
            },
            (Imbalance::Positive(a), Imbalance::Negative(b)) => {
                if a >= b {
                    Imbalance::Positive(a - b)
                } else {
                    Imbalance::Negative(b - a)
                }
            },
            (Imbalance::Negative(a), Imbalance::Positive(b)) => {
                if b >= a {
                    Imbalance::Positive(b - a)
                } else {
                    Imbalance::Negative(a - b)
                }
            },
        }
    }
}

} // verus!
