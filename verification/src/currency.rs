//! The currency facade: deposits, withdrawals, transfers, slashing and
//! issuance management, each validated up front and committed atomically,
//! with every produced imbalance reconciled before the call returns.

use vstd::prelude::*;
use crate::account::AccountData;
use crate::account::Reasons;
use crate::consequence::DepositConsequence;
use crate::consequence::WithdrawConsequence;
use crate::consequence::deposit_consequence;
use crate::consequence::spec_deposit_consequence;
use crate::consequence::spec_withdraw_consequence;
use crate::consequence::withdraw_consequence;
use crate::ledger::Ledger;
use crate::ledger::account_in;
use crate::ledger::dust_of;
use crate::ledger::has_account_in;
use crate::types::Event;
use crate::types::ExistenceRequirement;
use crate::types::LedgerError;

verus! {

impl Ledger {
    /// May `new_free` remain on `who` after a withdrawal of class
    /// `reasons`, given the frozen funds? Errs with
    /// `LiquidityRestrictions` exactly when the frozen amount exceeds the
    /// proposed remainder for a nonzero withdrawal.
    pub fn ensure_can_withdraw(&self, who: u64, amount: u64, reasons: Reasons, new_free: u64)
        -> (r: Result<(), LedgerError>)
        ensures
            r == (if amount == 0 || new_free >= self.spec_account(who).spec_frozen(reasons) {
                Result::<(), LedgerError>::Ok(())
            } else {
                Result::<(), LedgerError>::Err(LedgerError::LiquidityRestrictions)
            }),
    {
        if amount == 0 {
            return Ok(());
        }
        let account = self.account(who);
        if new_free >= account.frozen(reasons) {
            Ok(())
        } else {
            Err(LedgerError::LiquidityRestrictions)
        }
    }

    /// Can `value` be slashed from `who`'s free balance?
    pub fn can_slash(&self, who: u64, value: u64) -> (r: bool)
        ensures
            r == (value == 0 || self.spec_account(who).free >= value),
    {
        value == 0 || self.account(who).free >= value
    }

    /// Remove `value` from `who`'s free balance and from circulation.
    /// `reasons` is the withdrawal's class, checked against frozen funds;
    /// with `ExistenceRequirement::KeepAlive` the account must survive.
    /// The destroyed value and any dust leave the recorded issuance
    /// before the call returns.
    pub fn withdraw(
        &mut self,
        who: u64,
        value: u64,
        reasons: Reasons,
        liveness: ExistenceRequirement,
    ) -> (r: Result<(), LedgerError>)
        requires
            old(self).wf(),
        ensures
            final(self).wf(),
            old(self).no_dust() ==> final(self).no_dust(),
            old(self).balanced() ==> final(self).balanced(),
            r is Err ==> *final(self) == *old(self),
            ({
                let c = spec_withdraw_consequence(
                    value,
                    old(self).spec_account(who),
                    old(self).existential_deposit,
                    reasons,
                    liveness == ExistenceRequirement::KeepAlive,
                );
                match r {
                    Ok(_) => value == 0 || c == WithdrawConsequence::Success,
                    Err(e) => value > 0 && (match c {
                        WithdrawConsequence::Success => false,
                        WithdrawConsequence::NoFunds => e == LedgerError::InsufficientBalance,
                        WithdrawConsequence::Frozen => e == LedgerError::LiquidityRestrictions,
                        WithdrawConsequence::WouldDie => e == LedgerError::KeepAlive,
                    }),
                }
            }),
            r is Ok && value == 0 ==> *final(self) == *old(self),
            (r is Ok && value > 0) ==> ({
                let acc = old(self).spec_account(who);
                let ed = old(self).existential_deposit;
                let new_total = acc.spec_total() - value;
                let dust = dust_of(new_total, ed);
                &&& (if new_total >= ed {
                    final(self).spec_has_account(who) && final(self).spec_account(who) == (
                    AccountData { free: (acc.free - value) as u64, ..acc })
                } else {
                    !final(self).spec_has_account(who)
                })
                &&& forall|o: u64|
                    #![trigger account_in(final(self).accounts@, o)]
                    #![trigger has_account_in(final(self).accounts@, o)]
                    o != who ==> account_in(final(self).accounts@, o) == account_in(
                        old(self).accounts@,
                        o,
                    ) && has_account_in(final(self).accounts@, o) == has_account_in(
                        old(self).accounts@,
                        o,
                    )
                &&& final(self).spec_sum() == old(self).spec_sum() - value - dust
                &&& final(self).issuance == vstd::math::max(
                    old(self).issuance - value - dust,
                    0,
                )
                &&& final(self).events@ == (if dust > 0 {
                    old(self).events@.push(
                        (Event::DustLost { account: who, amount: dust as u64 }),
                    )
                } else {
                    old(self).events@
                }).push((Event::Withdraw { who, amount: value }))
                &&& final(self).same_except_accounts(*old(self))
            }),
    {
        if value == 0 {
            return Ok(());
        }
        let acc = self.account(who);
        let keep_alive = liveness == ExistenceRequirement::KeepAlive;
        match withdraw_consequence(value, &acc, self.existential_deposit, reasons, keep_alive) {
            WithdrawConsequence::Success => {},
            WithdrawConsequence::NoFunds => {
                return Err(LedgerError::InsufficientBalance);
            },
            WithdrawConsequence::Frozen => {
                return Err(LedgerError::LiquidityRestrictions);
            },
            WithdrawConsequence::WouldDie => {
                return Err(LedgerError::KeepAlive);
            },
        }
        proof {
            self.lemma_account_bound(who);
            self.lemma_sum_covers(who);
        }
        let new = AccountData { free: acc.free - value, ..acc };
        let _dust = self.commit(who, new);
        self.settle_negative(value);
        self.deposit_event(Event::Withdraw { who, amount: value });
        Ok(())
    }

    /// Deposit `value` into `who`, who must already exist. The minted
    /// value enters the recorded issuance before the call returns.
    pub fn deposit_into_existing(&mut self, who: u64, value: u64) -> (r: Result<
        (),
        LedgerError,
    >)
        requires
            old(self).wf(),
        ensures
            final(self).wf(),
            old(self).no_dust() ==> final(self).no_dust(),
            old(self).balanced() ==> final(self).balanced(),
            r is Err ==> *final(self) == *old(self),
            ({
                let c = spec_deposit_consequence(
                    value,
                    old(self).spec_account(who),
                    old(self).issuance,
                    old(self).existential_deposit,
                    true,
                );
                match r {
                    Ok(_) => value == 0 || (old(self).spec_has_account(who) && c
                        == DepositConsequence::Success),
                    Err(e) => value > 0 && (if !old(self).spec_has_account(who) {
                        e == LedgerError::DeadAccount
                    } else {
                        match c {
                            DepositConsequence::Success => false,
                            DepositConsequence::Overflow => e == LedgerError::Overflow,
                            DepositConsequence::BelowMinimum => e
                                == LedgerError::ExistentialDeposit,
                        }
                    }),
                }
            }),
            r is Ok && value == 0 ==> *final(self) == *old(self),
            (r is Ok && value > 0) ==> ({
                let acc = old(self).spec_account(who);
                let ed = old(self).existential_deposit;
                let new_total = acc.spec_total() + value;
                let dust = dust_of(new_total, ed);
                &&& (if new_total >= ed {
                    final(self).spec_has_account(who) && final(self).spec_account(who) == (
                    AccountData { free: (acc.free + value) as u64, ..acc })
                } else {
                    !final(self).spec_has_account(who)
                })
                &&& forall|o: u64|
                    #![trigger account_in(final(self).accounts@, o)]
                    #![trigger has_account_in(final(self).accounts@, o)]
                    o != who ==> account_in(final(self).accounts@, o) == account_in(
                        old(self).accounts@,
                        o,
                    ) && has_account_in(final(self).accounts@, o) == has_account_in(
                        old(self).accounts@,
                        o,
                    )
                &&& final(self).spec_sum() == old(self).spec_sum() + value - dust
                &&& final(self).issuance == vstd::math::max(
                    old(self).issuance + value - dust,
                    0,
                )
                &&& final(self).events@ == (if dust > 0 {
                    old(self).events@.push(
                        (Event::DustLost { account: who, amount: dust as u64 }),
                    )
                } else {
                    old(self).events@
                }).push((Event::Deposit { who, amount: value }))
                &&& final(self).same_except_accounts(*old(self))
            }),
    {
        if value == 0 {
            return Ok(());
        }
        if !self.account_exists(who) {
            return Err(LedgerError::DeadAccount);
        }
        let acc = self.account(who);
        match deposit_consequence(value, &acc, self.issuance, self.existential_deposit, true) {
            DepositConsequence::Success => {},
            DepositConsequence::Overflow => {
                return Err(LedgerError::Overflow);
            },
            DepositConsequence::BelowMinimum => {
                return Err(LedgerError::ExistentialDeposit);
            },
        }
        proof {
            self.lemma_account_bound(who);
            self.lemma_sum_covers(who);
        }
        self.settle_positive(value);
        let new = AccountData { free: acc.free + value, ..acc };
        let _dust = self.commit(who, new);
        self.deposit_event(Event::Deposit { who, amount: value });
        Ok(())
    }

    /// Does `deposit_creating` mutate anything for these arguments? It
    /// silently does nothing for a zero value, for a new account funded
    /// below the existential deposit, and on arithmetic overflow.
    pub open spec fn spec_deposit_creating_applies(self, who: u64, value: u64) -> bool {
        &&& value > 0
        &&& self.spec_has_account(who) || value >= self.existential_deposit
        &&& self.issuance + value <= u64::MAX
        &&& self.spec_account(who).spec_total() + value <= u64::MAX
    }

    /// Deposit `value` into `who`, creating the account if needed. A
    /// deposit that cannot apply (zero, too small to create the account,
    /// or overflowing) is silently dropped; the returned amount is what
    /// was actually minted. An existing record left below the existential
    /// deposit by the ledger's past is swept out as dust here.
    pub fn deposit_creating(&mut self, who: u64, value: u64) -> (r: u64)
        requires
            old(self).wf(),
        ensures
            final(self).wf(),
            old(self).no_dust() ==> final(self).no_dust(),
            old(self).balanced() ==> final(self).balanced(),
            r == (if old(self).spec_deposit_creating_applies(who, value) {
                value
            } else {
                0
            }),
            !old(self).spec_deposit_creating_applies(who, value) ==> *final(self) == *old(self),
            old(self).spec_deposit_creating_applies(who, value) ==> ({
                let acc = old(self).spec_account(who);
                let ed = old(self).existential_deposit;
                let is_new = !old(self).spec_has_account(who);
                let new_total = acc.spec_total() + value;
                let dust = dust_of(new_total, ed);
                &&& (if new_total >= ed {
                    final(self).spec_has_account(who) && final(self).spec_account(who) == (
                    AccountData { free: (acc.free + value) as u64, ..acc })
                } else {
                    !final(self).spec_has_account(who)
                })
                &&& forall|o: u64|
                    #![trigger account_in(final(self).accounts@, o)]
                    #![trigger has_account_in(final(self).accounts@, o)]
                    o != who ==> account_in(final(self).accounts@, o) == account_in(
                        old(self).accounts@,
                        o,
                    ) && has_account_in(final(self).accounts@, o) == has_account_in(
                        old(self).accounts@,
                        o,
                    )
                &&& final(self).spec_sum() == old(self).spec_sum() + value - dust
                &&& final(self).issuance == vstd::math::max(
                    old(self).issuance + value - dust,
                    0,
                )
                &&& final(self).events@ == (if is_new {
                    old(self).events@.push((Event::Endowed { account: who, free_balance: value }))
                } else if dust > 0 {
                    old(self).events@.push(
                        (Event::DustLost { account: who, amount: dust as u64 }),
                    )
                } else {
                    old(self).events@
                }).push((Event::Deposit { who, amount: value }))
                &&& final(self).same_except_accounts(*old(self))
            }),
    {
        if value == 0 {
            return 0;
        }
        let is_new = !self.account_exists(who);
        if is_new && value < self.existential_deposit {
            return 0;
        }
        let acc = self.account(who);
        match deposit_consequence(value, &acc, self.issuance, self.existential_deposit, true) {
            DepositConsequence::Success => {},
            DepositConsequence::Overflow => {
                return 0;
            },
            DepositConsequence::BelowMinimum => {},
        }
        proof {
            self.lemma_account_bound(who);
            self.lemma_sum_covers(who);
        }
        self.settle_positive(value);
        let new = AccountData { free: acc.free + value, ..acc };
        if is_new {
            self.deposit_event(Event::Endowed { account: who, free_balance: value });
        }
        let _dust = self.commit(who, new);
        self.deposit_event(Event::Deposit { who, amount: value });
        value
    }

    /// What a transfer of `value` from `from` to `to` returns, decided
    /// entirely on the pre-state: trivial transfers succeed doing
    /// nothing, then the recipient's deposit consequence and the
    /// sender's withdraw consequence are consulted in that order.
    pub open spec fn spec_transfer_outcome(
        pre: Ledger,
        from: u64,
        to: u64,
        value: u64,
        keep_alive: bool,
    ) -> Result<(), LedgerError> {
        let c_dep = spec_deposit_consequence(
            value,
            pre.spec_account(to),
            pre.issuance,
            pre.existential_deposit,
            false,
        );
        let c_wd = spec_withdraw_consequence(
            value,
            pre.spec_account(from),
            pre.existential_deposit,
            Reasons::Misc,
            keep_alive,
        );
        if value == 0 || from == to {
            Ok(())
        } else {
            match c_dep {
                DepositConsequence::Overflow => Err(LedgerError::Overflow),
                DepositConsequence::BelowMinimum => Err(LedgerError::ExistentialDeposit),
                DepositConsequence::Success => match c_wd {
                    WithdrawConsequence::NoFunds => Err(LedgerError::InsufficientBalance),
                    WithdrawConsequence::Frozen => Err(LedgerError::LiquidityRestrictions),
                    WithdrawConsequence::WouldDie => Err(LedgerError::KeepAlive),
                    WithdrawConsequence::Success => Ok(()),
                },
            }
        }
    }

    /// The state change a successful transfer of `value` from `from` to
    /// `to` brings about, relating the pre- and post-states: `to` is
    /// credited, `from` is debited and possibly dusted, nobody else moves,
    /// and total issuance changes only by the dust swept from `from`.
    pub open spec fn spec_transfer_post(
        pre: Ledger,
        post: Ledger,
        from: u64,
        to: u64,
        value: u64,
    ) -> bool {
        let from_acc = pre.spec_account(from);
        let to_acc = pre.spec_account(to);
        let ed = pre.existential_deposit;
        let new_from_total = from_acc.spec_total() - value;
        let dust = dust_of(new_from_total, ed);
        &&& post.spec_has_account(to) && post.spec_account(to) == (AccountData {
            free: (to_acc.free + value) as u64,
            ..to_acc
        })
        &&& (if new_from_total >= ed {
            post.spec_has_account(from) && post.spec_account(from) == (AccountData {
                free: (from_acc.free - value) as u64,
                ..from_acc
            })
        } else {
            !post.spec_has_account(from)
        })
        &&& forall|o: u64|
            #![trigger account_in(post.accounts@, o)]
            #![trigger has_account_in(post.accounts@, o)]
            o != from && o != to ==> account_in(post.accounts@, o) == account_in(
                pre.accounts@,
                o,
            ) && has_account_in(post.accounts@, o) == has_account_in(pre.accounts@, o)
        &&& post.spec_sum() == pre.spec_sum() - dust
        &&& post.issuance == vstd::math::max(pre.issuance - dust, 0)
        &&& post.events@ == ({
            let after_endow = if !pre.spec_has_account(to) {
                pre.events@.push((Event::Endowed { account: to, free_balance: value }))
            } else {
                pre.events@
            };
            let after_dust = if dust > 0 {
                after_endow.push((Event::DustLost { account: from, amount: dust as u64 }))
            } else {
                after_endow
            };
            after_dust.push((Event::Transfer { from, to, amount: value }))
        })
        &&& post.same_except_accounts(pre)
    }

    /// Move `value` of free balance from `from` to `to`. The recipient
    /// must end at or above the existential deposit; the sender's frozen
    /// funds and, under `ExistenceRequirement::KeepAlive`, its survival
    /// are checked before anything moves. A transfer never changes the
    /// total issuance except for dust swept from the sender.
    pub fn transfer(
        &mut self,
        from: u64,
        to: u64,
        value: u64,
        existence_requirement: ExistenceRequirement,
    ) -> (r: Result<(), LedgerError>)
        requires
            old(self).wf(),
        ensures
            final(self).wf(),
            old(self).no_dust() ==> final(self).no_dust(),
            old(self).balanced() ==> final(self).balanced(),
            r is Err ==> *final(self) == *old(self),
            r == Ledger::spec_transfer_outcome(
                *old(self),
                from,
                to,
                value,
                existence_requirement == ExistenceRequirement::KeepAlive,
            ),
            (r is Ok && (value == 0 || from == to)) ==> *final(self) == *old(self),
            (r is Ok && value > 0 && from != to) ==> Ledger::spec_transfer_post(
                *old(self),
                *final(self),
                from,
                to,
                value,
            ),
    {
        if value == 0 || from == to {
            return Ok(());
        }
        let from_acc = self.account(from);
        let to_acc = self.account(to);
        let to_is_new = !self.account_exists(to);
        match deposit_consequence(value, &to_acc, self.issuance, self.existential_deposit, false) {
            DepositConsequence::Success => {},
            DepositConsequence::Overflow => {
                return Err(LedgerError::Overflow);
            },
            DepositConsequence::BelowMinimum => {
                return Err(LedgerError::ExistentialDeposit);
            },
        }
        let keep_alive = existence_requirement == ExistenceRequirement::KeepAlive;
        match withdraw_consequence(
            value,
            &from_acc,
            self.existential_deposit,
            Reasons::Misc,
            keep_alive,
        ) {
            WithdrawConsequence::Success => {},
            WithdrawConsequence::NoFunds => {
                return Err(LedgerError::InsufficientBalance);
            },
            WithdrawConsequence::Frozen => {
                return Err(LedgerError::LiquidityRestrictions);
            },
            WithdrawConsequence::WouldDie => {
                return Err(LedgerError::KeepAlive);
            },
        }
        proof {
            self.lemma_account_bound(from);
            self.lemma_account_bound(to);
            self.lemma_sum_covers(from);
        }
        if to_is_new {
            self.deposit_event(Event::Endowed { account: to, free_balance: value });
        }
        let new_to = AccountData { free: to_acc.free + value, ..to_acc };
        let _no_dust = self.commit(to, new_to);
        let new_from = AccountData { free: from_acc.free - value, ..from_acc };
        let _dust = self.commit(from, new_from);
        self.deposit_event(Event::Transfer { from, to, amount: value });
        Ok(())
    }

    /// Forcibly remove up to `value` from `who`, taking free balance
    /// first and dipping into the reserved balance for the rest; frozen
    /// funds offer no protection. Returns the amount actually slashed and
    /// the unfulfilled remainder; the slashed value and any dust leave
    /// the recorded issuance before the call returns.
    pub fn slash(&mut self, who: u64, value: u64) -> (r: (u64, u64))
        requires
            old(self).wf(),
        ensures
            final(self).wf(),
            old(self).no_dust() ==> final(self).no_dust(),
            old(self).balanced() ==> final(self).balanced(),
            (value == 0 || !old(self).spec_has_account(who)) ==> *final(self) == *old(self) && r
                == (0u64, value),
            (value > 0 && old(self).spec_has_account(who)) ==> ({
                let acc = old(self).spec_account(who);
                let ed = old(self).existential_deposit;
                let free_slash = vstd::math::min(acc.free as int, value as int);
                let reserved_slash = vstd::math::min(
                    acc.reserved as int,
                    value - free_slash,
                );
                let actual = free_slash + reserved_slash;
                let new_total = acc.spec_total() - actual;
                let dust = dust_of(new_total, ed);
                &&& r.0 == actual && r.1 == value - actual
                &&& (if new_total >= ed {
                    final(self).spec_has_account(who) && final(self).spec_account(who) == (
                    AccountData {
                        free: (acc.free - free_slash) as u64,
                        reserved: (acc.reserved - reserved_slash) as u64,
                        ..acc
                    })
                } else {
                    !final(self).spec_has_account(who)
                })
                &&& forall|o: u64|
                    #![trigger account_in(final(self).accounts@, o)]
                    #![trigger has_account_in(final(self).accounts@, o)]
                    o != who ==> account_in(final(self).accounts@, o) == account_in(
                        old(self).accounts@,
                        o,
                    ) && has_account_in(final(self).accounts@, o) == has_account_in(
                        old(self).accounts@,
                        o,
                    )
                &&& final(self).spec_sum() == old(self).spec_sum() - actual - dust
                &&& final(self).issuance == vstd::math::max(
                    old(self).issuance - actual - dust,
                    0,
                )
                &&& final(self).events@ == (if dust > 0 {
                    old(self).events@.push(
                        (Event::DustLost { account: who, amount: dust as u64 }),
                    )
                } else {
                    old(self).events@
                }).push((Event::Slashed { who, amount: (actual) as u64 }))
                &&& final(self).same_except_accounts(*old(self))
            }),
    {
        if value == 0 {
            return (0, value);
        }
        if !self.account_exists(who) {
            return (0, value);
        }
        let acc = self.account(who);
        let free_slash = if acc.free < value {
            acc.free
        } else {
            value
        };
        let rest = value - free_slash;
        let reserved_slash = if acc.reserved < rest {
            acc.reserved
        } else {
            rest
        };
        let actual = free_slash + reserved_slash;
        proof {
            self.lemma_account_bound(who);
            self.lemma_sum_covers(who);
        }
        let new = AccountData {
            free: acc.free - free_slash,
            reserved: acc.reserved - reserved_slash,
            ..acc
        };
        let _dust = self.commit(who, new);
        self.settle_negative(actual);
        self.deposit_event(Event::Slashed { who, amount: actual });
        (actual, value - actual)
    }

    /// Mint `amount` new units into the recorded issuance, saturating at
    /// the balance limit, and hand back the negative imbalance: the
    /// minted value exists in the issuance but in no account until the
    /// caller deposits it somewhere and settles, or settles the receipt
    /// directly to revert the mint.
    pub fn issue(&mut self, amount: u64) -> (r: crate::imbalance::Imbalance)
        requires
            old(self).wf(),
        ensures
            final(self).wf(),
            old(self).no_dust() ==> final(self).no_dust(),
            ({
                let actual = vstd::math::min(amount as int, u64::MAX - old(self).issuance);
                r == crate::imbalance::Imbalance::Negative(actual as u64) && final(self).issuance
                    == old(self).issuance + actual
            }),
            final(self).accounts == old(self).accounts,
            final(self).events == old(self).events,
            final(self).same_except_accounts(*old(self)),
    {
        let actual = if amount <= u64::MAX - self.issuance {
            amount
        } else {
            u64::MAX - self.issuance
        };
        self.settle_positive(actual);
        crate::imbalance::Imbalance::Negative(actual)
    }

    /// Destroy `amount` units of recorded issuance, at most what exists,
    /// and hand back the positive imbalance: the accounts now hold more
    /// than the issuance records until the caller withdraws the value
    /// from an account and settles, or settles the receipt directly to
    /// revert the burn.
    pub fn burn(&mut self, amount: u64) -> (r: crate::imbalance::Imbalance)
        requires
            old(self).wf(),
        ensures
            final(self).wf(),
            old(self).no_dust() ==> final(self).no_dust(),
            ({
                let actual = vstd::math::min(amount as int, old(self).issuance as int);
                r == crate::imbalance::Imbalance::Positive(actual as u64) && final(self).issuance
                    == old(self).issuance - actual
            }),
            final(self).accounts == old(self).accounts,
            final(self).events == old(self).events,
            final(self).same_except_accounts(*old(self)),
    {
        let actual = if amount <= self.issuance {
            amount
        } else {
            self.issuance
        };
        self.settle_negative(actual);
        crate::imbalance::Imbalance::Positive(actual)
    }

    /// The free balance of `who`.
    pub fn free_balance(&self, who: u64) -> (r: u64)
        ensures
            r == self.spec_account(who).free,
    {
        self.account(who).free
    }

    /// The free balance of `who` spendable on anything but fees.
    pub fn usable_balance(&self, who: u64) -> (r: u64)
        ensures
            r == self.spec_account(who).spec_usable(Reasons::Misc),
    {
        self.account(who).usable(Reasons::Misc)
    }

    /// The free balance of `who` spendable on fees.
    pub fn usable_balance_for_fees(&self, who: u64) -> (r: u64)
        ensures
            r == self.spec_account(who).spec_usable(Reasons::Fee),
    {
        self.account(who).usable(Reasons::Fee)
    }

    /// The reserved balance of `who`.
    pub fn reserved_balance(&self, who: u64) -> (r: u64)
        ensures
            r == self.spec_account(who).reserved,
    {
        self.account(who).reserved
    }

    /// The total balance of `who`, saturating at the balance limit.
    pub fn total_balance(&self, who: u64) -> (r: u64)
        ensures
            r == vstd::math::min(self.spec_account(who).spec_total(), u64::MAX as int),
    {
        self.account(who).total()
    }

    /// How much of `who`'s balance a transfer may take: the unfrozen free
    /// balance, further capped so the account keeps the existential
    /// deposit when `keep_alive` asks for it.
    pub open spec fn spec_reducible_balance(self, who: u64, keep_alive: bool) -> int {
        let acc = self.spec_account(who);
        let liquid = acc.spec_usable(Reasons::All);
        if keep_alive {
            let must_remain = vstd::math::max(self.existential_deposit - acc.reserved, 0);
            vstd::math::min(liquid, vstd::math::max(acc.free - must_remain, 0))
        } else {
            liquid
        }
    }

    /// The balance of `who` a transfer may move, per `keep_alive`.
    pub fn reducible_balance(&self, who: u64, keep_alive: bool) -> (r: u64)
        ensures
            r == self.spec_reducible_balance(who, keep_alive),
    {
        let acc = self.account(who);
        let liquid = acc.usable(Reasons::All);
        if keep_alive {
            let must_remain = if self.existential_deposit >= acc.reserved {
                self.existential_deposit - acc.reserved
            } else {
                0
            };
            let headroom = if acc.free >= must_remain {
                acc.free - must_remain
            } else {
                0
            };
            if liquid <= headroom {
                liquid
            } else {
                headroom
            }
        } else {
            liquid
        }
    }

    /// Transfer everything `who` can part with to `dest`: the reducible
    /// balance under `keep_alive`, which also picks the existence
    /// requirement of the underlying transfer.
    pub fn transfer_all(&mut self, who: u64, dest: u64, keep_alive: bool) -> (r: Result<
        (),
        LedgerError,
    >)
        requires
            old(self).wf(),
        ensures
            final(self).wf(),
            old(self).no_dust() ==> final(self).no_dust(),
            old(self).balanced() ==> final(self).balanced(),
            r is Err ==> *final(self) == *old(self),
            ({
                let value = old(self).spec_reducible_balance(who, keep_alive);
                let trivial = value == 0 || who == dest;
                &&& r == Ledger::spec_transfer_outcome(
                    *old(self),
                    who,
                    dest,
                    value as u64,
                    keep_alive,
                )
                &&& (r is Ok && trivial) ==> *final(self) == *old(self)
                &&& (r is Ok && !trivial) ==> Ledger::spec_transfer_post(
                    *old(self),
                    *final(self),
                    who,
                    dest,
                    value as u64,
                )
            }),
    {
        let value = self.reducible_balance(who, keep_alive);
        let existence_requirement = if keep_alive {
            ExistenceRequirement::KeepAlive
        } else {
            ExistenceRequirement::AllowDeath
        };
        self.transfer(who, dest, value, existence_requirement)
    }

    /// Does `make_free_balance_be` mutate anything for these arguments?
    /// It silently does nothing when the account would have to be created
    /// below the existential deposit or when the new balances would
    /// overflow the balance type or the issuance.
    pub open spec fn spec_set_free_applies(self, who: u64, value: u64) -> bool {
        let acc = self.spec_account(who);
        &&& self.spec_has_account(who) || value + acc.reserved >= self.existential_deposit
        &&& value + acc.reserved <= u64::MAX
        &&& (value > acc.free ==> self.issuance + (value - acc.free) <= u64::MAX)
    }

    /// Force `who`'s free balance to exactly `value`, minting or burning
    /// the difference in the recorded issuance. A setting that cannot
    /// apply is silently dropped; one that leaves the account below the
    /// existential deposit removes it as dust.
    pub fn make_free_balance_be(&mut self, who: u64, value: u64)
        requires
            old(self).wf(),
        ensures
            final(self).wf(),
            old(self).no_dust() ==> final(self).no_dust(),
            old(self).balanced() ==> final(self).balanced(),
            !old(self).spec_set_free_applies(who, value) ==> *final(self) == *old(self),
            old(self).spec_set_free_applies(who, value) ==> ({
                let acc = old(self).spec_account(who);
                let ed = old(self).existential_deposit;
                let is_new = !old(self).spec_has_account(who);
                let new_total = value + acc.reserved;
                let dust = dust_of(new_total, ed);
                &&& (if new_total >= ed {
                    final(self).spec_has_account(who) && final(self).spec_account(who) == (
                    AccountData { free: value, ..acc })
                } else {
                    !final(self).spec_has_account(who)
                })
                &&& forall|o: u64|
                    #![trigger account_in(final(self).accounts@, o)]
                    #![trigger has_account_in(final(self).accounts@, o)]
                    o != who ==> account_in(final(self).accounts@, o) == account_in(
                        old(self).accounts@,
                        o,
                    ) && has_account_in(final(self).accounts@, o) == has_account_in(
                        old(self).accounts@,
                        o,
                    )
                &&& final(self).spec_sum() == old(self).spec_sum() - acc.free + value - dust
                &&& final(self).issuance == vstd::math::max(
                    old(self).issuance + value - acc.free - dust,
                    0,
                )
                &&& final(self).events@ == (if is_new && value > 0 {
                    old(self).events@.push((Event::Endowed { account: who, free_balance: value }))
                } else if dust > 0 {
                    old(self).events@.push(
                        (Event::DustLost { account: who, amount: dust as u64 }),
                    )
                } else {
                    old(self).events@
                })
                &&& final(self).same_except_accounts(*old(self))
            }),
    {
        let acc = self.account(who);
        let is_new = !self.account_exists(who);
        proof {
            self.lemma_account_bound(who);
            self.lemma_sum_covers(who);
        }
        if value > u64::MAX - acc.reserved {
            return;
        }
        if is_new && value + acc.reserved < self.existential_deposit {
            return;
        }
        if value > acc.free {
            let minted = value - acc.free;
            if self.issuance > u64::MAX - minted {
                return;
            }
            self.settle_positive(minted);
        } else {
            self.settle_negative(acc.free - value);
        }
        if is_new && value > 0 {
            self.deposit_event(Event::Endowed { account: who, free_balance: value });
        }
        let new = AccountData { free: value, ..acc };
        let _dust = self.commit(who, new);
    }

    /// The free balance `set_balance` actually writes: the requested one,
    /// or zero when the requested pair sums below the existential
    /// deposit.
    pub open spec fn spec_set_balance_free(pre: Ledger, new_free: u64, new_reserved: u64) -> u64 {
        if new_free + new_reserved < pre.existential_deposit {
            0u64
        } else {
            new_free
        }
    }

    /// The reserved balance `set_balance` actually writes, zeroed like
    /// the free side on a pair below the existential deposit.
    pub open spec fn spec_set_balance_reserved(
        pre: Ledger,
        new_free: u64,
        new_reserved: u64,
    ) -> u64 {
        if new_free + new_reserved < pre.existential_deposit {
            0u64
        } else {
            new_reserved
        }
    }

    /// What overwriting `who`'s balances returns, decided entirely on the
    /// pre-state: it fails exactly when the written total or the adjusted
    /// issuance would overflow the balance type.
    pub open spec fn spec_set_balance_outcome(
        pre: Ledger,
        who: u64,
        new_free: u64,
        new_reserved: u64,
    ) -> Result<(), LedgerError> {
        let acc = pre.spec_account(who);
        let f = Ledger::spec_set_balance_free(pre, new_free, new_reserved);
        let rs = Ledger::spec_set_balance_reserved(pre, new_free, new_reserved);
        let new_total = f + rs;
        if new_total > u64::MAX || (new_total > acc.spec_total() && pre.issuance + (new_total
            - acc.spec_total()) > u64::MAX) {
            Err(LedgerError::Overflow)
        } else {
            Ok(())
        }
    }

    /// The state change a successful `set_balance` brings about: the
    /// written pair persisted (or the account removed when it was wiped),
    /// the issuance adjusted by the difference of the totals, and the
    /// overwrite notified.
    pub open spec fn spec_set_balance_post(
        pre: Ledger,
        post: Ledger,
        who: u64,
        new_free: u64,
        new_reserved: u64,
    ) -> bool {
        let acc = pre.spec_account(who);
        let ed = pre.existential_deposit;
        let f = Ledger::spec_set_balance_free(pre, new_free, new_reserved);
        let rs = Ledger::spec_set_balance_reserved(pre, new_free, new_reserved);
        let new_total = f + rs;
        let is_new = !pre.spec_has_account(who);
        &&& (if new_total >= ed {
            post.spec_has_account(who) && post.spec_account(who) == (AccountData {
                free: f,
                reserved: rs,
                ..acc
            })
        } else {
            !post.spec_has_account(who)
        })
        &&& forall|o: u64|
            #![trigger account_in(post.accounts@, o)]
            #![trigger has_account_in(post.accounts@, o)]
            o != who ==> account_in(post.accounts@, o) == account_in(pre.accounts@, o)
                && has_account_in(post.accounts@, o) == has_account_in(pre.accounts@, o)
        &&& post.spec_sum() == pre.spec_sum() - acc.spec_total() + new_total
        &&& post.issuance as int == vstd::math::max(
            pre.issuance + new_total - acc.spec_total(),
            0,
        )
        &&& post.events@ == (if is_new && new_total >= ed && f > 0 {
            pre.events@.push((Event::Endowed { account: who, free_balance: f }))
        } else {
            pre.events@
        }).push((Event::BalanceSet { who, free: f, reserved: rs }))
        &&& post.same_except_accounts(pre)
    }

    /// Overwrite both balances of `who` with privileged authority. A pair
    /// summing below the existential deposit wipes the account to zero;
    /// the issuance absorbs the difference. Fails only on arithmetic
    /// overflow, with nothing changed.
    pub fn set_balance(&mut self, who: u64, new_free: u64, new_reserved: u64) -> (r: Result<
        (),
        LedgerError,
    >)
        requires
            old(self).wf(),
        ensures
            final(self).wf(),
            old(self).no_dust() ==> final(self).no_dust(),
            old(self).balanced() ==> final(self).balanced(),
            r is Err ==> *final(self) == *old(self),
            r == Ledger::spec_set_balance_outcome(*old(self), who, new_free, new_reserved),
            r is Ok ==> Ledger::spec_set_balance_post(
                *old(self),
                *final(self),
                who,
                new_free,
                new_reserved,
            ),
    {
        let acc = self.account(who);
        let is_new = !self.account_exists(who);
        proof {
            self.lemma_account_bound(who);
            self.lemma_sum_covers(who);
        }
        let ed = self.existential_deposit;
        let wipeout = if new_free > u64::MAX - new_reserved {
            false
        } else {
            new_free + new_reserved < ed
        };
        let f = if wipeout {
            0
        } else {
            new_free
        };
        let rs = if wipeout {
            0
        } else {
            new_reserved
        };
        if f > u64::MAX - rs {
            return Err(LedgerError::Overflow);
        }
        let new_total = f + rs;
        let old_total = acc.total();
        if new_total > old_total {
            let minted = new_total - old_total;
            if self.issuance > u64::MAX - minted {
                return Err(LedgerError::Overflow);
            }
            self.settle_positive(minted);
        } else {
            self.settle_negative(old_total - new_total);
        }
        if is_new && new_total >= ed && f > 0 {
            self.deposit_event(Event::Endowed { account: who, free_balance: f });
        }
        let new = AccountData { free: f, reserved: rs, ..acc };
        let _dust = self.commit(who, new);
        self.deposit_event(Event::BalanceSet { who, free: f, reserved: rs });
        Ok(())
    }
}

} // verus!
