//! End-to-end scenarios: existential-deposit dust collection, keep-alive
//! refusal, repatriation and lock extension.

use balances::account::AccountData;
use balances::account::Reasons;
use balances::ledger::Ledger;
use balances::store::Store;
use balances::types::BalanceStatus;
use balances::types::Event;
use balances::types::ExistenceRequirement;
use balances::types::LedgerError;

/// Sum of all persisted account totals, as the conservation law counts
/// them.
fn sum_of_totals(ledger: &Ledger) -> u128 {
    let mut sum: u128 = 0;
    for entry in ledger.accounts.entries.iter() {
        sum += entry.1.free as u128 + entry.1.reserved as u128;
    }
    sum
}

/// A ledger whose backing store already holds one account below the
/// existential deposit, as a storage snapshot from laxer days would.
fn ledger_with_dusty_account(who: u64, free: u64, ed: u64) -> Ledger {
    Ledger {
        existential_deposit: ed,
        max_locks: 50,
        max_reserves: 50,
        issuance: free,
        accounts: Store { entries: vec![(who, AccountData {
            free,
            reserved: 0,
            misc_frozen: 0,
            fee_frozen: 0,
        })] },
        locks: Store { entries: vec![] },
        reserves: Store { entries: vec![] },
        events: vec![],
    }
}

#[test]
fn deposit_creating_sweeps_subminimum_account_to_dust() {
    // Existential deposit 10; X holds free = 5.
    let x = 1u64;
    let mut ledger = ledger_with_dusty_account(x, 5, 10);
    let deposited = ledger.deposit_creating(x, 3);
    assert_eq!(deposited, 3);
    // Total would be 8 < 10: the record is gone, reads are all-zero.
    let account = ledger.account(x);
    assert_eq!(account.free, 0);
    assert_eq!(account.reserved, 0);
    assert!(!ledger.account_exists(x));
    // The dust of 8 was reconciled out of the issuance: 5 + 3 - 8 = 0.
    assert_eq!(ledger.total_issuance(), 0);
    assert!(ledger.events.contains(&Event::DustLost { account: x, amount: 8 }));
    assert_eq!(sum_of_totals(&ledger), ledger.total_issuance() as u128);
}

#[test]
fn withdraw_below_minimum_dusts_the_account() {
    // Existential deposit 10; Y is created with 50, then 45 withdrawn.
    let y = 2u64;
    let mut ledger = Ledger::new(10, 50, 50);
    assert_eq!(ledger.deposit_creating(y, 50), 50);
    assert_eq!(ledger.total_issuance(), 50);
    let r = ledger.withdraw(y, 45, Reasons::Misc, ExistenceRequirement::AllowDeath);
    assert!(r.is_ok());
    // The remaining 5 < 10 is dusted: final free balance zero.
    assert_eq!(ledger.account(y).free, 0);
    assert!(!ledger.account_exists(y));
    // 45 withdrawn and 5 more reconciled as dust.
    assert_eq!(ledger.total_issuance(), 0);
    assert!(ledger.events.contains(&Event::DustLost { account: y, amount: 5 }));
    assert_eq!(sum_of_totals(&ledger), ledger.total_issuance() as u128);
}

#[test]
fn keep_alive_transfer_fails_without_touching_balances() {
    // A ends at total 8 < 10 if the transfer went through.
    let a = 3u64;
    let b = 4u64;
    let mut ledger = Ledger::new(10, 50, 50);
    assert_eq!(ledger.deposit_creating(a, 28), 28);
    assert_eq!(ledger.deposit_creating(b, 50), 50);
    let before_a = ledger.account(a);
    let before_b = ledger.account(b);
    let r = ledger.transfer(a, b, 20, ExistenceRequirement::KeepAlive);
    assert_eq!(r, Err(LedgerError::KeepAlive));
    assert_eq!(ledger.account(a), before_a);
    assert_eq!(ledger.account(b), before_b);
    assert_eq!(ledger.total_issuance(), 78);
}

#[test]
fn repatriate_reserved_moves_whole_reserve() {
    let a = 5u64;
    let b = 6u64;
    let mut ledger = Ledger::new(10, 50, 50);
    assert_eq!(ledger.deposit_creating(a, 40), 40);
    assert_eq!(ledger.deposit_creating(b, 50), 50);
    assert!(ledger.reserve(a, 30).is_ok());
    assert_eq!(ledger.account(a).reserved, 30);
    let issuance_before = ledger.total_issuance();
    let r = ledger.repatriate_reserved(a, b, 30, false, BalanceStatus::Reserved);
    assert_eq!(r, Ok(0));
    assert_eq!(ledger.account(b).reserved, 30);
    assert_eq!(ledger.account(a).reserved, 0);
    assert_eq!(ledger.total_issuance(), issuance_before);
    let repatriations = ledger
        .events
        .iter()
        .filter(|e| {
            matches!(e, Event::ReserveRepatriated { .. })
        })
        .count();
    assert_eq!(repatriations, 1);
    assert!(ledger.events.contains(&Event::ReserveRepatriated {
        from: a,
        to: b,
        amount: 30,
        destination_status: BalanceStatus::Reserved,
    }));
}

#[test]
fn extend_lock_never_reduces_the_freeze() {
    // A lock of 100, then an extension asking only 50: still 100.
    let x = 7u64;
    let vesting = 11u64;
    let mut ledger = Ledger::new(10, 50, 50);
    assert_eq!(ledger.deposit_creating(x, 200), 200);
    assert!(ledger.set_lock(vesting, x, 100, Reasons::Misc).is_ok());
    assert_eq!(ledger.account(x).misc_frozen, 100);
    assert!(ledger.extend_lock(vesting, x, 50, Reasons::Misc).is_ok());
    assert_eq!(ledger.account(x).misc_frozen, 100);
    // And an extension above raises it.
    assert!(ledger.extend_lock(vesting, x, 150, Reasons::Misc).is_ok());
    assert_eq!(ledger.account(x).misc_frozen, 150);
}
