//! The currency facade piece by piece: consequences, deposits,
//! withdrawals, transfers, slashing, issuance, and the conservation and
//! atomicity guarantees on concrete runs.

use balances::account::AccountData;
use balances::account::Reasons;
use balances::consequence::deposit_consequence;
use balances::consequence::withdraw_consequence;
use balances::consequence::DepositConsequence;
use balances::consequence::WithdrawConsequence;
use balances::imbalance::Imbalance;
use balances::ledger::Ledger;
use balances::types::Event;
use balances::types::ExistenceRequirement;
use balances::types::LedgerError;

fn sum_of_totals(ledger: &Ledger) -> u128 {
    let mut sum: u128 = 0;
    for entry in ledger.accounts.entries.iter() {
        sum += entry.1.free as u128 + entry.1.reserved as u128;
    }
    sum
}

fn no_dust_accounts(ledger: &Ledger) -> bool {
    ledger.accounts.entries.iter().all(|entry| {
        entry.1.free as u128 + entry.1.reserved as u128 >= ledger.existential_deposit as u128
    })
}

#[test]
fn account_data_breakdown() {
    let account = AccountData { free: 100, reserved: 40, misc_frozen: 30, fee_frozen: 10 };
    assert_eq!(account.total(), 140);
    assert_eq!(account.frozen(Reasons::Misc), 30);
    assert_eq!(account.frozen(Reasons::Fee), 10);
    assert_eq!(account.frozen(Reasons::All), 30);
    assert_eq!(account.usable(Reasons::Misc), 70);
    assert_eq!(account.usable(Reasons::Fee), 90);
    assert_eq!(account.usable(Reasons::All), 70);
    let saturated = AccountData {
        free: u64::MAX,
        reserved: 5,
        misc_frozen: 0,
        fee_frozen: 0,
    };
    assert_eq!(saturated.total(), u64::MAX);
    assert_eq!(AccountData::zero(), AccountData::default());
}

#[test]
fn deposit_consequence_cases() {
    let account = AccountData { free: 20, reserved: 0, misc_frozen: 0, fee_frozen: 0 };
    assert_eq!(deposit_consequence(0, &account, 100, 10, true), DepositConsequence::Success);
    assert_eq!(
        deposit_consequence(u64::MAX, &account, 100, 10, true),
        DepositConsequence::Overflow
    );
    let rich = AccountData { free: u64::MAX - 3, reserved: 0, misc_frozen: 0, fee_frozen: 0 };
    assert_eq!(deposit_consequence(5, &rich, 0, 10, false), DepositConsequence::Overflow);
    let empty = AccountData::zero();
    assert_eq!(deposit_consequence(7, &empty, 0, 10, true), DepositConsequence::BelowMinimum);
    assert_eq!(deposit_consequence(10, &empty, 0, 10, true), DepositConsequence::Success);
}

#[test]
fn withdraw_consequence_cases() {
    let account = AccountData { free: 50, reserved: 10, misc_frozen: 30, fee_frozen: 0 };
    assert_eq!(
        withdraw_consequence(0, &account, 10, Reasons::Misc, true),
        WithdrawConsequence::Success
    );
    assert_eq!(
        withdraw_consequence(60, &account, 10, Reasons::Misc, false),
        WithdrawConsequence::NoFunds
    );
    assert_eq!(
        withdraw_consequence(25, &account, 10, Reasons::Misc, false),
        WithdrawConsequence::Frozen
    );
    // 20 is within the unfrozen 50 - 30, but total would fall to 40...
    assert_eq!(
        withdraw_consequence(20, &account, 10, Reasons::Misc, true),
        WithdrawConsequence::Success
    );
    // ... while withdrawing from a small account under keep-alive dies.
    let small = AccountData { free: 12, reserved: 0, misc_frozen: 0, fee_frozen: 0 };
    assert_eq!(
        withdraw_consequence(5, &small, 10, Reasons::Misc, true),
        WithdrawConsequence::WouldDie
    );
    assert_eq!(
        withdraw_consequence(5, &small, 10, Reasons::Misc, false),
        WithdrawConsequence::Success
    );
}

#[test]
fn deposit_into_existing_requires_a_live_account() {
    let mut ledger = Ledger::new(10, 50, 50);
    assert_eq!(ledger.deposit_into_existing(1, 5), Err(LedgerError::DeadAccount));
    assert_eq!(ledger.deposit_creating(1, 20), 20);
    assert!(ledger.deposit_into_existing(1, 5).is_ok());
    assert_eq!(ledger.account(1).free, 25);
    assert_eq!(ledger.total_issuance(), 25);
    assert!(ledger.events.contains(&Event::Deposit { who: 1, amount: 5 }));
}

#[test]
fn deposit_creating_below_minimum_is_dropped() {
    let mut ledger = Ledger::new(10, 50, 50);
    assert_eq!(ledger.deposit_creating(1, 9), 0);
    assert!(!ledger.account_exists(1));
    assert_eq!(ledger.total_issuance(), 0);
    assert_eq!(ledger.deposit_creating(1, 10), 10);
    assert!(ledger.account_exists(1));
    assert!(ledger.events.contains(&Event::Endowed { account: 1, free_balance: 10 }));
}

#[test]
fn issuance_overflow_is_refused() {
    let mut ledger = Ledger::new(10, 50, 50);
    assert_eq!(ledger.deposit_creating(1, u64::MAX), u64::MAX);
    assert_eq!(ledger.total_issuance(), u64::MAX);
    assert_eq!(ledger.deposit_into_existing(1, 1), Err(LedgerError::Overflow));
    assert_eq!(ledger.deposit_creating(2, 100), 0);
    assert!(!ledger.account_exists(2));
}

#[test]
fn transfer_moves_value_and_keeps_issuance() {
    let mut ledger = Ledger::new(10, 50, 50);
    assert_eq!(ledger.deposit_creating(1, 100), 100);
    let r = ledger.transfer(1, 2, 40, ExistenceRequirement::AllowDeath);
    assert!(r.is_ok());
    assert_eq!(ledger.account(1).free, 60);
    assert_eq!(ledger.account(2).free, 40);
    assert_eq!(ledger.total_issuance(), 100);
    assert!(ledger.events.contains(&Event::Endowed { account: 2, free_balance: 40 }));
    assert!(ledger.events.contains(&Event::Transfer { from: 1, to: 2, amount: 40 }));
    assert_eq!(sum_of_totals(&ledger), 100);
}

#[test]
fn transfer_to_new_account_below_minimum_fails() {
    let mut ledger = Ledger::new(10, 50, 50);
    assert_eq!(ledger.deposit_creating(1, 100), 100);
    let r = ledger.transfer(1, 2, 9, ExistenceRequirement::AllowDeath);
    assert_eq!(r, Err(LedgerError::ExistentialDeposit));
    assert_eq!(ledger.account(1).free, 100);
    assert!(!ledger.account_exists(2));
}

#[test]
fn transfer_more_than_free_fails() {
    let mut ledger = Ledger::new(10, 50, 50);
    assert_eq!(ledger.deposit_creating(1, 30), 30);
    let r = ledger.transfer(1, 2, 31, ExistenceRequirement::AllowDeath);
    assert_eq!(r, Err(LedgerError::InsufficientBalance));
    assert_eq!(ledger.account(1).free, 30);
}

#[test]
fn transfer_all_respects_keep_alive() {
    let mut ledger = Ledger::new(10, 50, 50);
    assert_eq!(ledger.deposit_creating(1, 100), 100);
    assert_eq!(ledger.deposit_creating(2, 10), 10);
    assert_eq!(ledger.reducible_balance(1, true), 90);
    assert!(ledger.transfer_all(1, 2, true).is_ok());
    assert_eq!(ledger.account(1).free, 10);
    assert_eq!(ledger.account(2).free, 100);
    assert!(ledger.transfer_all(2, 1, false).is_ok());
    assert!(!ledger.account_exists(2));
    assert_eq!(ledger.account(1).free, 110);
    assert_eq!(ledger.total_issuance(), 110);
}

#[test]
fn slash_takes_free_then_reserved() {
    let mut ledger = Ledger::new(10, 50, 50);
    assert_eq!(ledger.deposit_creating(1, 100), 100);
    assert!(ledger.reserve(1, 30).is_ok());
    let (slashed, remainder) = ledger.slash(1, 80);
    assert_eq!(slashed, 80);
    assert_eq!(remainder, 0);
    assert_eq!(ledger.account(1).free, 0);
    assert_eq!(ledger.account(1).reserved, 20);
    assert_eq!(ledger.total_issuance(), 20);
    assert!(ledger.events.contains(&Event::Slashed { who: 1, amount: 80 }));
    let (slashed_more, rest) = ledger.slash(1, 50);
    assert_eq!(slashed_more, 20);
    assert_eq!(rest, 30);
    assert_eq!(ledger.total_issuance(), 0);
    assert_eq!(sum_of_totals(&ledger), 0);
}

#[test]
fn issue_and_burn_round_trip_through_settle() {
    let mut ledger = Ledger::new(10, 50, 50);
    assert_eq!(ledger.deposit_creating(1, 100), 100);
    let minted = ledger.issue(40);
    assert_eq!(minted, Imbalance::Negative(40));
    assert_eq!(ledger.total_issuance(), 140);
    // Dropping the receipt into the ledger reverts the mint.
    ledger.settle(minted);
    assert_eq!(ledger.total_issuance(), 100);
    let burned = ledger.burn(30);
    assert_eq!(burned, Imbalance::Positive(30));
    assert_eq!(ledger.total_issuance(), 70);
    ledger.settle(burned);
    assert_eq!(ledger.total_issuance(), 100);
    assert_eq!(sum_of_totals(&ledger), 100);
}

#[test]
fn issue_then_deposit_restores_conservation() {
    let mut ledger = Ledger::new(10, 50, 50);
    let minted = ledger.issue(50);
    assert_eq!(ledger.total_issuance(), 50);
    // Place the minted value, then settle the receipt against the
    // deposit's own issuance bump.
    assert_eq!(ledger.deposit_creating(1, minted.peek()), 50);
    ledger.settle(minted);
    assert_eq!(ledger.total_issuance(), 50);
    assert_eq!(sum_of_totals(&ledger), 50);
}

#[test]
fn transfer_to_oneself_is_a_no_op() {
    let mut ledger = Ledger::new(10, 50, 50);
    assert_eq!(ledger.deposit_creating(1, 100), 100);
    let events_before = ledger.events.len();
    assert!(ledger.transfer(1, 1, 40, ExistenceRequirement::KeepAlive).is_ok());
    assert!(ledger.transfer(1, 2, 0, ExistenceRequirement::AllowDeath).is_ok());
    assert_eq!(ledger.account(1).free, 100);
    assert!(!ledger.account_exists(2));
    assert_eq!(ledger.events.len(), events_before);
}

#[test]
fn issue_saturates_at_the_balance_limit() {
    let mut ledger = Ledger::new(10, 50, 50);
    assert_eq!(ledger.deposit_creating(1, u64::MAX - 10), u64::MAX - 10);
    let minted = ledger.issue(100);
    assert_eq!(minted, Imbalance::Negative(10));
    assert_eq!(ledger.total_issuance(), u64::MAX);
    ledger.settle(minted);
    let burned = ledger.burn(u64::MAX);
    assert_eq!(burned, Imbalance::Positive(u64::MAX - 10));
    assert_eq!(ledger.total_issuance(), 0);
    ledger.settle(burned);
    assert_eq!(ledger.total_issuance(), u64::MAX - 10);
}

#[test]
fn imbalance_offsets() {
    assert_eq!(Imbalance::Positive(30).offset(Imbalance::Negative(10)), Imbalance::Positive(20));
    assert_eq!(Imbalance::Positive(10).offset(Imbalance::Negative(30)), Imbalance::Negative(20));
    assert_eq!(Imbalance::Positive(10).offset(Imbalance::Positive(5)), Imbalance::Positive(15));
    assert_eq!(Imbalance::Negative(10).offset(Imbalance::Negative(5)), Imbalance::Negative(15));
    assert_eq!(Imbalance::zero().peek(), 0);
}

#[test]
fn make_free_balance_be_mints_and_burns_the_difference() {
    let mut ledger = Ledger::new(10, 50, 50);
    ledger.make_free_balance_be(1, 100);
    assert_eq!(ledger.account(1).free, 100);
    assert_eq!(ledger.total_issuance(), 100);
    ledger.make_free_balance_be(1, 40);
    assert_eq!(ledger.account(1).free, 40);
    assert_eq!(ledger.total_issuance(), 40);
    // Asking for a new account below the minimum changes nothing.
    ledger.make_free_balance_be(2, 5);
    assert!(!ledger.account_exists(2));
    assert_eq!(ledger.total_issuance(), 40);
    assert_eq!(sum_of_totals(&ledger), 40);
}

#[test]
fn set_balance_wipes_out_below_minimum_pairs() {
    let mut ledger = Ledger::new(10, 50, 50);
    assert!(ledger.set_balance(1, 30, 20).is_ok());
    assert_eq!(ledger.account(1).free, 30);
    assert_eq!(ledger.account(1).reserved, 20);
    assert_eq!(ledger.total_issuance(), 50);
    assert!(ledger.events.contains(&Event::BalanceSet { who: 1, free: 30, reserved: 20 }));
    // 4 + 5 < 10 wipes the account entirely.
    assert!(ledger.set_balance(1, 4, 5).is_ok());
    assert!(!ledger.account_exists(1));
    assert_eq!(ledger.total_issuance(), 0);
    assert!(ledger.events.contains(&Event::BalanceSet { who: 1, free: 0, reserved: 0 }));
}

#[test]
fn conservation_and_dust_hold_across_a_run_of_operations() {
    let mut ledger = Ledger::new(10, 50, 50);
    assert_eq!(ledger.deposit_creating(1, 1000), 1000);
    assert_eq!(ledger.deposit_creating(2, 500), 500);
    let _ = ledger.transfer(1, 3, 200, ExistenceRequirement::AllowDeath);
    let _ = ledger.reserve(2, 100);
    let _ = ledger.withdraw(3, 195, Reasons::Misc, ExistenceRequirement::AllowDeath);
    let _ = ledger.slash(1, 50);
    let _ = ledger.unreserve(2, 40);
    let _ = ledger.set_balance(4, 75, 0);
    let _ = ledger.transfer(2, 1, 9999, ExistenceRequirement::AllowDeath);
    assert_eq!(sum_of_totals(&ledger), ledger.total_issuance() as u128);
    assert!(no_dust_accounts(&ledger));
}

#[test]
fn failed_operations_change_nothing() {
    let mut ledger = Ledger::new(10, 50, 50);
    assert_eq!(ledger.deposit_creating(1, 100), 100);
    let accounts_before = ledger.accounts.entries.clone();
    let issuance_before = ledger.total_issuance();
    let events_before = ledger.events.len();
    assert!(ledger.transfer(1, 2, 5000, ExistenceRequirement::AllowDeath).is_err());
    assert!(ledger.withdraw(1, 101, Reasons::Misc, ExistenceRequirement::AllowDeath).is_err());
    assert!(ledger.reserve(1, 101).is_err());
    assert!(ledger.deposit_into_existing(9, 5).is_err());
    assert_eq!(ledger.accounts.entries, accounts_before);
    assert_eq!(ledger.total_issuance(), issuance_before);
    assert_eq!(ledger.events.len(), events_before);
}
