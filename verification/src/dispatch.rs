//! The dispatchable calls of the ledger and their authorization, plus
//! the sequence-level guarantees: over any sequence of dispatched calls
//! the ledger stays well-formed, conservation holds after every call,
//! no dust-range account is ever persisted, and a failed call changes
//! nothing.

use vstd::prelude::*;
use crate::ledger::Ledger;
use crate::sudo::Origin;
use crate::sudo::OriginError;
use crate::sudo::ensure_root;
use crate::sudo::ensure_signed;
use crate::types::ExistenceRequirement;
use crate::types::LedgerError;

verus! {

/// A ledger operation as the dispatch layer receives it.
#[derive(Clone, Copy, PartialEq, Eq, Structural, Debug)]
pub enum Call {
    /// Signed: move `value` from the caller to `dest`, allowing the
    /// caller's account to die.
    Transfer { dest: u64, value: u64 },
    /// Root only: overwrite both balances of `who`.
    SetBalance { who: u64, new_free: u64, new_reserved: u64 },
    /// Root only: move `value` from `source` to `dest`.
    ForceTransfer { source: u64, dest: u64, value: u64 },
    /// Signed: move `value` from the caller to `dest`, keeping the
    /// caller's account alive.
    TransferKeepAlive { dest: u64, value: u64 },
    /// Signed: move everything the caller can part with to `dest`.
    TransferAll { dest: u64, keep_alive: bool },
    /// Root only: release up to `amount` of `who`'s reserved balance.
    ForceUnreserve { who: u64, amount: u64 },
}

/// Why a dispatched call failed.
#[derive(Clone, Copy, PartialEq, Eq, Structural, Debug)]
pub enum DispatchError {
    /// The origin does not carry the needed authority.
    Origin(OriginError),
    /// The ledger refused the operation.
    Module(LedgerError),
}

/// A ledger outcome as the dispatch layer reports it.
pub open spec fn lift_module(r: Result<(), LedgerError>) -> Result<(), DispatchError> {
    match r {
        Ok(_) => Ok(()),
        Err(e) => Err(DispatchError::Module(e)),
    }
}

/// Authorize and run one call against the ledger. Whatever the call and
/// its origin: the ledger stays well-formed, a balanced ledger stays
/// balanced, no dust-range account appears, and a failed call leaves the
/// ledger exactly as it was.
pub fn dispatch(ledger: &mut Ledger, origin: Origin, call: Call) -> (r: Result<
    (),
    DispatchError,
>)
    requires
        old(ledger).wf(),
    ensures
        final(ledger).wf(),
        old(ledger).balanced() ==> final(ledger).balanced(),
        old(ledger).no_dust() ==> final(ledger).no_dust(),
        r is Err ==> *final(ledger) == *old(ledger),
        ({
            let bad = Result::<(), DispatchError>::Err(
                DispatchError::Origin(OriginError::BadOrigin),
            );
            match call {
                Call::Transfer { dest, value } => (match origin {
                    Origin::Signed(sender) => {
                        &&& r == lift_module(
                            Ledger::spec_transfer_outcome(*old(ledger), sender, dest, value, false),
                        )
                        &&& (r is Ok && (value == 0 || sender == dest)) ==> *final(ledger)
                            == *old(ledger)
                        &&& (r is Ok && value > 0 && sender != dest)
                            ==> Ledger::spec_transfer_post(
                            *old(ledger),
                            *final(ledger),
                            sender,
                            dest,
                            value,
                        )
                    },
                    _ => r == bad,
                }),
                Call::TransferKeepAlive { dest, value } => (match origin {
                    Origin::Signed(sender) => {
                        &&& r == lift_module(
                            Ledger::spec_transfer_outcome(*old(ledger), sender, dest, value, true),
                        )
                        &&& (r is Ok && (value == 0 || sender == dest)) ==> *final(ledger)
                            == *old(ledger)
                        &&& (r is Ok && value > 0 && sender != dest)
                            ==> Ledger::spec_transfer_post(
                            *old(ledger),
                            *final(ledger),
                            sender,
                            dest,
                            value,
                        )
                    },
                    _ => r == bad,
                }),
                Call::TransferAll { dest, keep_alive } => (match origin {
                    Origin::Signed(sender) => ({
                        let value = old(ledger).spec_reducible_balance(sender, keep_alive);
                        &&& r == lift_module(
                            Ledger::spec_transfer_outcome(
                                *old(ledger),
                                sender,
                                dest,
                                value as u64,
                                keep_alive,
                            ),
                        )
                        &&& (r is Ok && (value == 0 || sender == dest)) ==> *final(ledger)
                            == *old(ledger)
                        &&& (r is Ok && value > 0 && sender != dest)
                            ==> Ledger::spec_transfer_post(
                            *old(ledger),
                            *final(ledger),
                            sender,
                            dest,
                            value as u64,
                        )
                    }),
                    _ => r == bad,
                }),
                Call::ForceTransfer { source, dest, value } => (match origin {
                    Origin::Root => {
                        &&& r == lift_module(
                            Ledger::spec_transfer_outcome(*old(ledger), source, dest, value, false),
                        )
                        &&& (r is Ok && (value == 0 || source == dest)) ==> *final(ledger)
                            == *old(ledger)
                        &&& (r is Ok && value > 0 && source != dest)
                            ==> Ledger::spec_transfer_post(
                            *old(ledger),
                            *final(ledger),
                            source,
                            dest,
                            value,
                        )
                    },
                    _ => r == bad,
                }),
                Call::SetBalance { who, new_free, new_reserved } => (match origin {
                    Origin::Root => {
                        &&& r == lift_module(
                            Ledger::spec_set_balance_outcome(
                                *old(ledger),
                                who,
                                new_free,
                                new_reserved,
                            ),
                        )
                        &&& r is Ok ==> Ledger::spec_set_balance_post(
                            *old(ledger),
                            *final(ledger),
                            who,
                            new_free,
                            new_reserved,
                        )
                    },
                    _ => r == bad,
                }),
                Call::ForceUnreserve { who, amount } => (match origin {
                    Origin::Root => {
                        &&& r is Ok
                        &&& (amount == 0 || old(ledger).spec_account(who).reserved == 0)
                            ==> *final(ledger) == *old(ledger)
                        &&& (amount > 0 && old(ledger).spec_account(who).reserved > 0)
                            ==> Ledger::spec_unreserve_post(
                            *old(ledger),
                            *final(ledger),
                            who,
                            amount,
                        )
                    },
                    _ => r == bad,
                }),
            }
        }),
{
    match call {
        Call::Transfer { dest, value } => {
            let who = match ensure_signed(origin) {
                Ok(who) => who,
                Err(e) => {
                    return Err(DispatchError::Origin(e));
                },
            };
            match ledger.transfer(who, dest, value, ExistenceRequirement::AllowDeath) {
                Ok(_) => Ok(()),
                Err(e) => Err(DispatchError::Module(e)),
            }
        },
        Call::SetBalance { who, new_free, new_reserved } => {
            match ensure_root(origin) {
                Ok(_) => {},
                Err(e) => {
                    return Err(DispatchError::Origin(e));
                },
            }
            match ledger.set_balance(who, new_free, new_reserved) {
                Ok(_) => Ok(()),
                Err(e) => Err(DispatchError::Module(e)),
            }
        },
        Call::ForceTransfer { source, dest, value } => {
            match ensure_root(origin) {
                Ok(_) => {},
                Err(e) => {
                    return Err(DispatchError::Origin(e));
                },
            }
            match ledger.transfer(source, dest, value, ExistenceRequirement::AllowDeath) {
                Ok(_) => Ok(()),
                Err(e) => Err(DispatchError::Module(e)),
            }
        },
        Call::TransferKeepAlive { dest, value } => {
            let who = match ensure_signed(origin) {
                Ok(who) => who,
                Err(e) => {
                    return Err(DispatchError::Origin(e));
                },
            };
            match ledger.transfer(who, dest, value, ExistenceRequirement::KeepAlive) {
                Ok(_) => Ok(()),
                Err(e) => Err(DispatchError::Module(e)),
            }
        },
        Call::TransferAll { dest, keep_alive } => {
            let who = match ensure_signed(origin) {
                Ok(who) => who,
                Err(e) => {
                    return Err(DispatchError::Origin(e));
                },
            };
            match ledger.transfer_all(who, dest, keep_alive) {
                Ok(_) => Ok(()),
                Err(e) => Err(DispatchError::Module(e)),
            }
        },
        Call::ForceUnreserve { who, amount } => {
            match ensure_root(origin) {
                Ok(_) => {},
                Err(e) => {
                    return Err(DispatchError::Origin(e));
                },
            }
            let _leftover = ledger.unreserve(who, amount);
            Ok(())
        },
    }
}

/// Run a whole sequence of calls, each under its own origin, carrying on
/// past failures as an externally sequenced block of extrinsics would.
/// Conservation and the dust policy hold after every step: starting from
/// a well-formed, balanced, dust-free ledger, the ledger is well-formed,
/// balanced and dust-free when this returns — whatever the calls were.
pub fn dispatch_sequence(ledger: &mut Ledger, calls: &Vec<(Origin, Call)>) -> (r: Vec<
    Result<(), DispatchError>,
>)
    requires
        old(ledger).wf(),
    ensures
        final(ledger).wf(),
        old(ledger).balanced() ==> final(ledger).balanced(),
        old(ledger).no_dust() ==> final(ledger).no_dust(),
        r@.len() == calls@.len(),
{
    let mut results: Vec<Result<(), DispatchError>> = Vec::new();
    let mut i: usize = 0;
    while i < calls.len()
        invariant
            i <= calls@.len(),
            results@.len() == i,
            ledger.wf(),
            old(ledger).balanced() ==> ledger.balanced(),
            old(ledger).no_dust() ==> ledger.no_dust(),
        decreases calls@.len() - i,
    {
        let (origin, call) = calls[i];
        let outcome = dispatch(ledger, origin, call);
        results.push(outcome);
        i = i + 1;
    }
    results
}

} // verus!
