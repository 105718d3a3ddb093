//! Locks, plain reserves and named reserves.

use balances::account::Reasons;
use balances::ledger::Ledger;
use balances::types::BalanceStatus;
use balances::types::Event;
use balances::types::ExistenceRequirement;
use balances::types::LedgerError;

#[test]
fn set_lock_freezes_and_remove_lock_thaws() {
    let mut ledger = Ledger::new(10, 50, 50);
    assert_eq!(ledger.deposit_creating(1, 100), 100);
    assert!(ledger.set_lock(7, 1, 60, Reasons::All).is_ok());
    assert_eq!(ledger.account(1).misc_frozen, 60);
    assert_eq!(ledger.account(1).fee_frozen, 60);
    assert_eq!(ledger.usable_balance(1), 40);
    // Locked funds block a withdrawal beyond the unfrozen part.
    assert_eq!(
        ledger.withdraw(1, 50, Reasons::Misc, ExistenceRequirement::AllowDeath),
        Err(LedgerError::LiquidityRestrictions)
    );
    ledger.remove_lock(7, 1);
    assert_eq!(ledger.account(1).misc_frozen, 0);
    assert_eq!(ledger.account(1).fee_frozen, 0);
    assert!(ledger.locks(1).is_empty());
    assert!(ledger.withdraw(1, 50, Reasons::Misc, ExistenceRequirement::AllowDeath).is_ok());
}

#[test]
fn overlapping_locks_freeze_the_maximum_not_the_sum() {
    let mut ledger = Ledger::new(10, 50, 50);
    assert_eq!(ledger.deposit_creating(1, 100), 100);
    assert!(ledger.set_lock(7, 1, 60, Reasons::Misc).is_ok());
    assert!(ledger.set_lock(8, 1, 40, Reasons::Misc).is_ok());
    assert_eq!(ledger.account(1).misc_frozen, 60);
    assert_eq!(ledger.locks(1).len(), 2);
    // Replacing the big lock with a smaller one re-folds the rest.
    assert!(ledger.set_lock(7, 1, 10, Reasons::Misc).is_ok());
    assert_eq!(ledger.account(1).misc_frozen, 40);
    // A zero amount removes the lock.
    assert!(ledger.set_lock(8, 1, 0, Reasons::Misc).is_ok());
    assert_eq!(ledger.account(1).misc_frozen, 10);
    assert_eq!(ledger.locks(1).len(), 1);
}

#[test]
fn too_many_locks_is_refused() {
    let mut ledger = Ledger::new(10, 1, 50);
    assert_eq!(ledger.deposit_creating(1, 100), 100);
    assert!(ledger.set_lock(7, 1, 10, Reasons::Misc).is_ok());
    assert_eq!(ledger.set_lock(8, 1, 10, Reasons::Misc), Err(LedgerError::TooManyLocks));
    assert_eq!(ledger.extend_lock(8, 1, 10, Reasons::Misc), Err(LedgerError::TooManyLocks));
    // Extending the existing lock is still fine.
    assert!(ledger.extend_lock(7, 1, 20, Reasons::Misc).is_ok());
    assert_eq!(ledger.account(1).misc_frozen, 20);
}

#[test]
fn extend_lock_widens_the_reason_class() {
    let mut ledger = Ledger::new(10, 50, 50);
    assert_eq!(ledger.deposit_creating(1, 100), 100);
    assert!(ledger.set_lock(7, 1, 30, Reasons::Misc).is_ok());
    assert_eq!(ledger.account(1).fee_frozen, 0);
    assert!(ledger.extend_lock(7, 1, 30, Reasons::Fee).is_ok());
    // Misc with Fee covers both classes.
    assert_eq!(ledger.account(1).misc_frozen, 30);
    assert_eq!(ledger.account(1).fee_frozen, 30);
    assert_eq!(ledger.usable_balance_for_fees(1), 70);
}

#[test]
fn reserve_and_unreserve_move_between_the_sides() {
    let mut ledger = Ledger::new(10, 50, 50);
    assert_eq!(ledger.deposit_creating(1, 100), 100);
    assert!(ledger.can_reserve(1, 60));
    assert!(ledger.reserve(1, 60).is_ok());
    assert_eq!(ledger.free_balance(1), 40);
    assert_eq!(ledger.reserved_balance(1), 60);
    assert_eq!(ledger.total_balance(1), 100);
    assert!(ledger.events.contains(&Event::Reserved { who: 1, amount: 60 }));
    assert_eq!(ledger.unreserve(1, 25), 0);
    assert_eq!(ledger.free_balance(1), 65);
    assert_eq!(ledger.reserved_balance(1), 35);
    assert!(ledger.events.contains(&Event::Unreserved { who: 1, amount: 25 }));
    assert_eq!(ledger.total_issuance(), 100);
}

#[test]
fn reserve_respects_frozen_funds() {
    let mut ledger = Ledger::new(10, 50, 50);
    assert_eq!(ledger.deposit_creating(1, 100), 100);
    assert!(ledger.set_lock(7, 1, 80, Reasons::All).is_ok());
    assert_eq!(ledger.reserve(1, 30), Err(LedgerError::InsufficientBalance));
    assert!(ledger.reserve(1, 20).is_ok());
}

#[test]
fn unreserve_of_zero_is_a_no_op_and_excess_reports_shortfall() {
    let mut ledger = Ledger::new(10, 50, 50);
    assert_eq!(ledger.deposit_creating(1, 100), 100);
    assert!(ledger.reserve(1, 30).is_ok());
    let events_before = ledger.events.len();
    // Unreserving zero changes nothing.
    assert_eq!(ledger.unreserve(1, 0), 0);
    assert_eq!(ledger.events.len(), events_before);
    assert_eq!(ledger.reserved_balance(1), 30);
    // Unreserving more than is reserved empties it and reports the rest.
    assert_eq!(ledger.unreserve(1, 50), 20);
    assert_eq!(ledger.reserved_balance(1), 0);
    assert_eq!(ledger.free_balance(1), 100);
}

#[test]
fn slash_reserved_destroys_reserved_value() {
    let mut ledger = Ledger::new(10, 50, 50);
    assert_eq!(ledger.deposit_creating(1, 100), 100);
    assert!(ledger.reserve(1, 40).is_ok());
    assert!(ledger.can_slash(1, 60));
    let (slashed, remainder) = ledger.slash_reserved(1, 70);
    assert_eq!(slashed, 40);
    assert_eq!(remainder, 30);
    assert_eq!(ledger.reserved_balance(1), 0);
    assert_eq!(ledger.free_balance(1), 60);
    assert_eq!(ledger.total_issuance(), 60);
}

#[test]
fn repatriate_reserved_same_account_and_best_effort() {
    let mut ledger = Ledger::new(10, 50, 50);
    assert_eq!(ledger.deposit_creating(1, 100), 100);
    assert!(ledger.reserve(1, 30).is_ok());
    // Same account, to free: behaves as unreserve.
    assert_eq!(ledger.repatriate_reserved(1, 1, 40, true, BalanceStatus::Free), Ok(10));
    assert_eq!(ledger.reserved_balance(1), 0);
    assert_eq!(ledger.free_balance(1), 100);
    // Cross account without best effort and not enough reserved: fails.
    assert!(ledger.reserve(1, 20).is_ok());
    assert_eq!(ledger.deposit_creating(2, 50), 50);
    assert_eq!(
        ledger.repatriate_reserved(1, 2, 30, false, BalanceStatus::Free),
        Err(LedgerError::InsufficientBalance)
    );
    // With best effort it moves what is there.
    assert_eq!(ledger.repatriate_reserved(1, 2, 30, true, BalanceStatus::Free), Ok(10));
    assert_eq!(ledger.account(2).free, 70);
    assert_eq!(ledger.reserved_balance(1), 0);
}

#[test]
fn repatriate_reserved_requires_a_live_beneficiary() {
    let mut ledger = Ledger::new(10, 50, 50);
    assert_eq!(ledger.deposit_creating(1, 100), 100);
    assert!(ledger.reserve(1, 30).is_ok());
    assert_eq!(
        ledger.repatriate_reserved(1, 9, 30, true, BalanceStatus::Free),
        Err(LedgerError::DeadAccount)
    );
    assert_eq!(ledger.reserved_balance(1), 30);
}

#[test]
fn named_reserves_track_their_slices() {
    let mut ledger = Ledger::new(10, 50, 50);
    assert_eq!(ledger.deposit_creating(1, 100), 100);
    assert!(ledger.reserve_named(21, 1, 30).is_ok());
    assert!(ledger.reserve_named(22, 1, 20).is_ok());
    assert_eq!(ledger.reserved_balance_named(21, 1), 30);
    assert_eq!(ledger.reserved_balance_named(22, 1), 20);
    assert_eq!(ledger.reserved_balance(1), 50);
    // Topping up an existing named reserve merges the amounts.
    assert!(ledger.reserve_named(21, 1, 5).is_ok());
    assert_eq!(ledger.reserved_balance_named(21, 1), 35);
    assert_eq!(ledger.reserves(1).len(), 2);
}

#[test]
fn too_many_named_reserves_is_refused() {
    let mut ledger = Ledger::new(10, 50, 1);
    assert_eq!(ledger.deposit_creating(1, 100), 100);
    assert!(ledger.reserve_named(21, 1, 30).is_ok());
    assert_eq!(ledger.reserve_named(22, 1, 10), Err(LedgerError::TooManyReserves));
    assert_eq!(ledger.reserved_balance(1), 30);
}

#[test]
fn unreserve_named_shrinks_and_clears_the_entry() {
    let mut ledger = Ledger::new(10, 50, 50);
    assert_eq!(ledger.deposit_creating(1, 100), 100);
    assert!(ledger.reserve_named(21, 1, 30).is_ok());
    assert_eq!(ledger.unreserve_named(21, 1, 10), 0);
    assert_eq!(ledger.reserved_balance_named(21, 1), 20);
    // More than the entry holds: the remainder comes back.
    assert_eq!(ledger.unreserve_named(21, 1, 50), 30);
    assert_eq!(ledger.reserved_balance_named(21, 1), 0);
    assert!(ledger.reserves(1).is_empty());
    assert_eq!(ledger.free_balance(1), 100);
}

#[test]
fn slash_reserved_named_destroys_the_slice() {
    let mut ledger = Ledger::new(10, 50, 50);
    assert_eq!(ledger.deposit_creating(1, 100), 100);
    assert!(ledger.reserve_named(21, 1, 30).is_ok());
    assert_eq!(ledger.slash_reserved_named(21, 1, 12), 0);
    assert_eq!(ledger.reserved_balance_named(21, 1), 18);
    assert_eq!(ledger.total_issuance(), 88);
    assert_eq!(ledger.slash_reserved_named(21, 1, 99), 81);
    assert_eq!(ledger.reserved_balance_named(21, 1), 0);
    assert_eq!(ledger.total_issuance(), 70);
}

#[test]
fn repatriate_reserved_named_lands_under_the_same_id() {
    let mut ledger = Ledger::new(10, 50, 50);
    assert_eq!(ledger.deposit_creating(1, 100), 100);
    assert_eq!(ledger.deposit_creating(2, 50), 50);
    assert!(ledger.reserve_named(21, 1, 30).is_ok());
    let r = ledger.repatriate_reserved_named(21, 1, 2, 30, BalanceStatus::Reserved);
    assert_eq!(r, Ok(0));
    assert_eq!(ledger.reserved_balance_named(21, 1), 0);
    assert_eq!(ledger.reserved_balance_named(21, 2), 30);
    assert_eq!(ledger.reserved_balance(2), 30);
    assert_eq!(ledger.total_issuance(), 150);
    // To free balance the named entry stays on nobody.
    assert!(ledger.reserve_named(22, 2, 10).is_ok());
    assert_eq!(ledger.repatriate_reserved_named(22, 2, 1, 10, BalanceStatus::Free), Ok(0));
    assert_eq!(ledger.account(1).free, 80);
    assert_eq!(ledger.reserved_balance_named(22, 1), 0);
}
