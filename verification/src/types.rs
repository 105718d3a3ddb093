//! Errors, operation modes and the notifications the ledger emits.

use vstd::prelude::*;

verus! {

/// Why a ledger operation was refused. Validation happens before any
/// mutation, so a refused operation leaves the ledger untouched.
#[derive(Clone, Copy, PartialEq, Eq, Structural, Debug)]
pub enum LedgerError {
    /// The account cannot afford the requested amount.
    InsufficientBalance,
    /// The result would leave a balance below the existential deposit
    /// where that is not allowed.
    ExistentialDeposit,
    /// The operation would kill an account that must stay alive.
    KeepAlive,
    /// The target account does not exist but the operation requires it.
    DeadAccount,
    /// Arithmetic on balances would overflow.
    Overflow,
    /// The account already carries the maximum number of locks.
    TooManyLocks,
    /// The account already carries the maximum number of named reserves.
    TooManyReserves,
    /// Locked (frozen) funds block the withdrawal.
    LiquidityRestrictions,
}

/// Whether an operation may reduce an account below the existential
/// deposit and thereby destroy it.
#[derive(Clone, Copy, PartialEq, Eq, Structural, Debug)]
pub enum ExistenceRequirement {
    /// The operation must leave the account alive.
    KeepAlive,
    /// The operation may kill the account.
    AllowDeath,
}

/// Where repatriated reserved value lands on the beneficiary.
#[derive(Clone, Copy, PartialEq, Eq, Structural, Debug)]
pub enum BalanceStatus {
    /// Moved value becomes free balance of the beneficiary.
    Free,
    /// Moved value stays reserved, on the beneficiary.
    Reserved,
}

/// Fire-and-forget notification recorded by every successful mutation.
#[derive(Clone, Copy, PartialEq, Eq, Structural, Debug)]
pub enum Event {
    /// An account came into existence with this free balance.
    Endowed { account: u64, free_balance: u64 },
    /// An account was removed and this residue left circulation.
    DustLost { account: u64, amount: u64 },
    /// Value moved from one account's free balance to another's.
    Transfer { from: u64, to: u64, amount: u64 },
    /// An account's balances were overwritten by a privileged call.
    BalanceSet { who: u64, free: u64, reserved: u64 },
    /// Value moved from free to reserved on one account.
    Reserved { who: u64, amount: u64 },
    /// Value moved from reserved back to free on one account.
    Unreserved { who: u64, amount: u64 },
    /// Reserved value moved from one account to another.
    ReserveRepatriated { from: u64, to: u64, amount: u64, destination_status: BalanceStatus },
    /// New value entered an existing account.
    Deposit { who: u64, amount: u64 },
    /// Value left an account and circulation.
    Withdraw { who: u64, amount: u64 },
    /// Value was forcibly removed from an account.
    Slashed { who: u64, amount: u64 },
}

} // verus!
