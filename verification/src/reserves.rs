//! The reserve manager: moving value between the free and the reserved
//! side of an account, slashing reserved value, and repatriating reserved
//! value from one account to another.

use vstd::prelude::*;
use crate::account::AccountData;
use crate::account::Reasons;
use crate::ledger::Ledger;
use crate::ledger::account_in;
use crate::ledger::dust_of;
use crate::ledger::has_account_in;
use crate::types::BalanceStatus;
use crate::types::Event;
use crate::types::LedgerError;

verus! {

impl Ledger {
    /// Can `value` move from free to reserved on `who`? Mirrors exactly
    /// the success condition of [`Self::reserve`].
    pub fn can_reserve(&self, who: u64, value: u64) -> (r: bool)
        ensures
            r == (value == 0 || (self.spec_account(who).spec_usable(Reasons::All) >= value
                && self.spec_account(who).spec_total() >= self.existential_deposit)),
    {
        if value == 0 {
            return true;
        }
        let acc = self.account(who);
        acc.usable(Reasons::All) >= value && acc.total() >= self.existential_deposit
    }

    /// Move `value` from `who`'s free balance into its reserved balance.
    /// Succeeds exactly when the unfrozen free balance covers `value` and
    /// the account's total already meets the existential deposit; fails
    /// with `InsufficientBalance` otherwise. Total balance and issuance
    /// are untouched.
    pub fn reserve(&mut self, who: u64, value: u64) -> (r: Result<(), LedgerError>)
        requires
            old(self).wf(),
        ensures
            final(self).wf(),
            old(self).no_dust() ==> final(self).no_dust(),
            old(self).balanced() ==> final(self).balanced(),
            r is Err ==> *final(self) == *old(self) && r == Result::<(), LedgerError>::Err(
                LedgerError::InsufficientBalance,
            ),
            r is Ok <==> (value == 0 || (old(self).spec_account(who).spec_usable(Reasons::All)
                >= value && old(self).spec_account(who).spec_total() >= old(
                self,
            ).existential_deposit)),
            r is Ok && value == 0 ==> *final(self) == *old(self),
            (r is Ok && value > 0) ==> ({
                let acc = old(self).spec_account(who);
                &&& final(self).spec_has_account(who) && final(self).spec_account(who) == (
                AccountData {
                    free: (acc.free - value) as u64,
                    reserved: (acc.reserved + value) as u64,
                    ..acc
                })
                &&& forall|o: u64|
                    #![trigger account_in(final(self).accounts@, o)]
                    #![trigger has_account_in(final(self).accounts@, o)]
                    o != who ==> account_in(final(self).accounts@, o) == account_in(
                        old(self).accounts@,
                        o,
                    ) && has_account_in(final(self).accounts@, o) == has_account_in(
                        old(self).accounts@,
                        o,
                    )
                &&& final(self).spec_sum() == old(self).spec_sum()
                &&& final(self).issuance == old(self).issuance
                &&& final(self).events@ == old(self).events@.push(
                    (Event::Reserved { who, amount: value }),
                )
                &&& final(self).same_except_accounts(*old(self))
            }),
    {
        if value == 0 {
            return Ok(());
        }
        let acc = self.account(who);
        if !(acc.usable(Reasons::All) >= value && acc.total() >= self.existential_deposit) {
            return Err(LedgerError::InsufficientBalance);
        }
        proof {
            self.lemma_account_bound(who);
        }
        let new = AccountData { free: acc.free - value, reserved: acc.reserved + value, ..acc };
        let _dust = self.commit(who, new);
        self.deposit_event(Event::Reserved { who, amount: value });
        Ok(())
    }

    /// The state change of a successful, effective unreserve: the lesser
    /// of `value` and the reserved balance moves back to free, the total
    /// is untouched, and a record already below the existential deposit
    /// is swept out as dust.
    pub open spec fn spec_unreserve_post(pre: Ledger, post: Ledger, who: u64, value: u64) -> bool {
        let acc = pre.spec_account(who);
        let ed = pre.existential_deposit;
        let actual = vstd::math::min(acc.reserved as int, value as int);
        let dust = dust_of(acc.spec_total(), ed);
        &&& (if acc.spec_total() >= ed {
            post.spec_has_account(who) && post.spec_account(who) == (AccountData {
                free: (acc.free + actual) as u64,
                reserved: (acc.reserved - actual) as u64,
                ..acc
            })
        } else {
            !post.spec_has_account(who)
        })
        &&& forall|o: u64|
            #![trigger account_in(post.accounts@, o)]
            #![trigger has_account_in(post.accounts@, o)]
            o != who ==> account_in(post.accounts@, o) == account_in(pre.accounts@, o)
                && has_account_in(post.accounts@, o) == has_account_in(pre.accounts@, o)
        &&& post.spec_sum() == pre.spec_sum() - dust
        &&& post.issuance == vstd::math::max(pre.issuance - dust, 0)
        &&& post.events@ == (if dust > 0 {
            pre.events@.push((Event::DustLost { account: who, amount: dust as u64 }))
        } else {
            pre.events@
        }).push((Event::Unreserved { who, amount: (actual) as u64 }))
        &&& post.same_except_accounts(pre)
    }

    /// Move up to `value` from `who`'s reserved balance back to free,
    /// best effort, and return the unfulfilled remainder. Unreserving
    /// zero, or from an empty reserve, is a no-op; unreserving more than
    /// is reserved empties the reserve and reports the shortfall.
    pub fn unreserve(&mut self, who: u64, value: u64) -> (r: u64)
        requires
            old(self).wf(),
        ensures
            final(self).wf(),
            old(self).no_dust() ==> final(self).no_dust(),
            old(self).balanced() ==> final(self).balanced(),
            r as int == value - vstd::math::min(
                old(self).spec_account(who).reserved as int,
                value as int,
            ),
            value == 0 ==> *final(self) == *old(self),
            old(self).spec_account(who).reserved == 0 ==> *final(self) == *old(self),
            value >= old(self).spec_account(who).reserved ==> r as int == value - old(
                self,
            ).spec_account(who).reserved && final(self).spec_account(who).reserved == 0,
            (value > 0 && old(self).spec_account(who).reserved > 0) ==> Ledger::spec_unreserve_post(
                *old(self),
                *final(self),
                who,
                value,
            ),
    {
        if value == 0 {
            return value;
        }
        let acc = self.account(who);
        if acc.reserved == 0 {
            return value;
        }
        let actual = if acc.reserved < value {
            acc.reserved
        } else {
            value
        };
        proof {
            self.lemma_account_bound(who);
            self.lemma_sum_covers(who);
        }
        let new = AccountData { free: acc.free + actual, reserved: acc.reserved - actual, ..acc };
        let _dust = self.commit(who, new);
        self.deposit_event(Event::Unreserved { who, amount: actual });
        value - actual
    }

    /// Destroy up to `value` of `who`'s reserved balance. Returns the
    /// amount removed and the unfulfilled remainder; the removed value
    /// and any dust leave the recorded issuance before the call returns.
    pub fn slash_reserved(&mut self, who: u64, value: u64) -> (r: (u64, u64))
        requires
            old(self).wf(),
        ensures
            final(self).wf(),
            old(self).no_dust() ==> final(self).no_dust(),
            old(self).balanced() ==> final(self).balanced(),
            (value == 0 || !old(self).spec_has_account(who)) ==> *final(self) == *old(self) && r
                == (0u64, value),
            (value > 0 && old(self).spec_has_account(who)) ==> ({
                let acc = old(self).spec_account(who);
                let ed = old(self).existential_deposit;
                let actual = vstd::math::min(acc.reserved as int, value as int);
                let new_total = acc.spec_total() - actual;
                let dust = dust_of(new_total, ed);
                &&& r.0 == actual && r.1 == value - actual
                &&& (if new_total >= ed {
                    final(self).spec_has_account(who) && final(self).spec_account(who) == (
                    AccountData { reserved: (acc.reserved - actual) as u64, ..acc })
                } else {
                    !final(self).spec_has_account(who)
                })
                &&& forall|o: u64|
                    #![trigger account_in(final(self).accounts@, o)]
                    #![trigger has_account_in(final(self).accounts@, o)]
                    o != who ==> account_in(final(self).accounts@, o) == account_in(
                        old(self).accounts@,
                        o,
                    ) && has_account_in(final(self).accounts@, o) == has_account_in(
                        old(self).accounts@,
                        o,
                    )
                &&& final(self).spec_sum() == old(self).spec_sum() - actual - dust
                &&& final(self).issuance == vstd::math::max(
                    old(self).issuance - actual - dust,
                    0,
                )
                &&& final(self).events@ == (if dust > 0 {
                    old(self).events@.push(
                        (Event::DustLost { account: who, amount: dust as u64 }),
                    )
                } else {
                    old(self).events@
                }).push((Event::Slashed { who, amount: (actual) as u64 }))
                &&& final(self).same_except_accounts(*old(self))
            }),
    {
        if value == 0 {
            return (0, value);
        }
        if !self.account_exists(who) {
            return (0, value);
        }
        let acc = self.account(who);
        let actual = if acc.reserved < value {
            acc.reserved
        } else {
            value
        };
        proof {
            self.lemma_account_bound(who);
            self.lemma_sum_covers(who);
        }
        let new = AccountData { reserved: acc.reserved - actual, ..acc };
        let _dust = self.commit(who, new);
        self.settle_negative(actual);
        self.deposit_event(Event::Slashed { who, amount: actual });
        (actual, value - actual)
    }

    /// Move up to `value` of `slashed`'s reserved balance onto
    /// `beneficiary`, landing it as free or reserved balance per
    /// `status`. The two account mutations happen as one atomic unit.
    /// Returns the unfulfilled remainder.
    ///
    /// Same-account calls degenerate: with `BalanceStatus::Free` this is
    /// an unreserve, with `BalanceStatus::Reserved` a no-op reporting the
    /// shortfall. Across accounts the beneficiary must exist, and unless
    /// `best_effort` is set the reserved balance must cover `value`
    /// entirely.
    pub fn repatriate_reserved(
        &mut self,
        slashed: u64,
        beneficiary: u64,
        value: u64,
        best_effort: bool,
        status: BalanceStatus,
    ) -> (r: Result<u64, LedgerError>)
        requires
            old(self).wf(),
        ensures
            final(self).wf(),
            old(self).no_dust() ==> final(self).no_dust(),
            old(self).balanced() ==> final(self).balanced(),
            r is Err ==> *final(self) == *old(self),
            value == 0 ==> r == Result::<u64, LedgerError>::Ok(0u64) && *final(self) == *old(
                self,
            ),
            (value > 0 && slashed == beneficiary) ==> ({
                let acc = old(self).spec_account(slashed);
                let actual = vstd::math::min(acc.reserved as int, value as int);
                match status {
                    BalanceStatus::Free => {
                        &&& r == Result::<u64, LedgerError>::Ok((value - actual) as u64)
                        &&& actual == 0 ==> *final(self) == *old(self)
                        &&& actual > 0 ==> Ledger::spec_unreserve_post(
                            *old(self),
                            *final(self),
                            slashed,
                            value,
                        )
                    },
                    BalanceStatus::Reserved => r == Result::<u64, LedgerError>::Ok(
                        (value - actual) as u64,
                    ) && *final(self) == *old(self),
                }
            }),
            (value > 0 && slashed != beneficiary) ==> ({
                let s_acc = old(self).spec_account(slashed);
                let b_acc = old(self).spec_account(beneficiary);
                let ed = old(self).existential_deposit;
                let actual = vstd::math::min(s_acc.reserved as int, value as int);
                let overflow = b_acc.spec_total() + actual > u64::MAX;
                match r {
                    Err(e) => (if !old(self).spec_has_account(beneficiary) {
                        e == LedgerError::DeadAccount
                    } else if !best_effort && actual != value {
                        e == LedgerError::InsufficientBalance
                    } else {
                        overflow && e == LedgerError::Overflow
                    }),
                    Ok(rem) => {
                        let b_new = (match status {
                            BalanceStatus::Free => (AccountData {
                                free: (b_acc.free + actual) as u64,
                                ..b_acc
                            }),
                            BalanceStatus::Reserved => (AccountData {
                                reserved: (b_acc.reserved + actual) as u64,
                                ..b_acc
                            }),
                        });
                        let b_new_total = b_acc.spec_total() + actual;
                        let b_dust = dust_of(b_new_total, ed);
                        let s_new_total = s_acc.spec_total() - actual;
                        let s_dust = dust_of(s_new_total, ed);
                        &&& old(self).spec_has_account(beneficiary)
                        &&& best_effort || actual == value
                        &&& !overflow
                        &&& rem as int == value - actual
                        &&& (if b_new_total >= ed {
                            final(self).spec_has_account(beneficiary) && final(self).spec_account(
                                beneficiary,
                            ) == b_new
                        } else {
                            !final(self).spec_has_account(beneficiary)
                        })
                        &&& (if s_new_total >= ed {
                            final(self).spec_has_account(slashed) && final(self).spec_account(
                                slashed,
                            ) == (AccountData {
                                reserved: (s_acc.reserved - actual) as u64,
                                ..s_acc
                            })
                        } else {
                            !final(self).spec_has_account(slashed)
                        })
                        &&& forall|o: u64|
                            #![trigger account_in(final(self).accounts@, o)]
                            #![trigger has_account_in(final(self).accounts@, o)]
                            o != slashed && o != beneficiary ==> account_in(
                                final(self).accounts@,
                                o,
                            ) == account_in(old(self).accounts@, o) && has_account_in(
                                final(self).accounts@,
                                o,
                            ) == has_account_in(old(self).accounts@, o)
                        &&& final(self).spec_sum() == old(self).spec_sum() - b_dust - s_dust
                        &&& final(self).issuance == vstd::math::max(
                            old(self).issuance - b_dust - s_dust,
                            0,
                        )
                        &&& final(self).events@ == ({
                            let after_b = if b_dust > 0 {
                                old(self).events@.push(
                                    (Event::DustLost {
                                        account: beneficiary,
                                        amount: b_dust as u64,
                                    }),
                                )
                            } else {
                                old(self).events@
                            };
                            let after_s = if s_dust > 0 {
                                after_b.push(
                                    (Event::DustLost { account: slashed, amount: s_dust as u64 }),
                                )
                            } else {
                                after_b
                            };
                            after_s.push(
                                (Event::ReserveRepatriated {
                                    from: slashed,
                                    to: beneficiary,
                                    amount: (actual) as u64,
                                    destination_status: status,
                                }),
                            )
                        })
                        &&& final(self).same_except_accounts(*old(self))
                    },
                }
            }),
    {
        if value == 0 {
            return Ok(0);
        }
        if slashed == beneficiary {
            let acc = self.account(slashed);
            let actual = if acc.reserved < value {
                acc.reserved
            } else {
                value
            };
            return match status {
                BalanceStatus::Free => Ok(self.unreserve(slashed, value)),
                BalanceStatus::Reserved => Ok(value - actual),
            };
        }
        if !self.account_exists(beneficiary) {
            return Err(LedgerError::DeadAccount);
        }
        let s_acc = self.account(slashed);
        let b_acc = self.account(beneficiary);
        let actual = if s_acc.reserved < value {
            s_acc.reserved
        } else {
            value
        };
        if !best_effort && actual != value {
            return Err(LedgerError::InsufficientBalance);
        }
        proof {
            self.lemma_account_bound(slashed);
            self.lemma_account_bound(beneficiary);
            crate::ledger::lemma_sum_covers_two_keys(self.accounts@, slashed, beneficiary);
        }
        let b_total = b_acc.total();
        if b_total > u64::MAX - actual {
            return Err(LedgerError::Overflow);
        }
        let b_new = match status {
            BalanceStatus::Free => AccountData { free: b_acc.free + actual, ..b_acc },
            BalanceStatus::Reserved => AccountData { reserved: b_acc.reserved + actual, ..b_acc },
        };
        let _b_dust = self.commit(beneficiary, b_new);
        let s_new = AccountData { reserved: s_acc.reserved - actual, ..s_acc };
        let _s_dust = self.commit(slashed, s_new);
        self.deposit_event(
            Event::ReserveRepatriated {
                from: slashed,
                to: beneficiary,
                amount: actual,
                destination_status: status,
            },
        );
        Ok(value - actual)
    }
}

} // verus!
