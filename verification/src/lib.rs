//! Account balance ledger engine.
//!
//! Tracks fungible balances per account, enforces an existential-deposit
//! policy with automatic dust removal, manages locks and reserves that
//! restrict spendability, and keeps every balance change conservation-safe:
//! the recorded total issuance always equals the sum of all persisted
//! account totals once every imbalance has been reconciled.

pub mod account;
pub mod consequence;
pub mod currency;
pub mod dispatch;
pub mod imbalance;
pub mod ledger;
pub mod locks;
pub mod named;
pub mod reserves;
pub mod store;
pub mod sudo;
pub mod types;
