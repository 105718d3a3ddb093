//! The ledger engine: the persisted state, its well-formedness, the
//! conservation bookkeeping, and the atomic account-commit primitive with
//! existential-deposit dust collection that every operation goes through.

use vstd::prelude::*;
use crate::account::AccountData;
use crate::account::BalanceLock;
use crate::account::ReserveData;
use crate::imbalance::Imbalance;
use crate::store::Store;
use crate::store::keys_unique;
use crate::store::lemma_sget_push;
use crate::store::lemma_sget_remove;
use crate::store::lemma_sget_update;
use crate::store::sget;
use crate::types::Event;

verus! {

/// Sum of the account totals of all persisted records.
pub open spec fn sum_totals(s: Seq<(u64, AccountData)>) -> int
    decreases s.len(),
{
    if s.len() == 0 {
        0
    } else {
        s[0].1.spec_total() + sum_totals(s.subrange(1, s.len() as int))
    }
}

/// The sum is never negative.
pub proof fn lemma_sum_nonneg(s: Seq<(u64, AccountData)>)
    ensures
        sum_totals(s) >= 0,
    decreases s.len(),
{
    if s.len() > 0 {
        lemma_sum_nonneg(s.subrange(1, s.len() as int));
    }
}

/// Each persisted record contributes at most the whole sum.
pub proof fn lemma_sum_entry(s: Seq<(u64, AccountData)>, i: int)
    requires
        0 <= i < s.len(),
    ensures
        sum_totals(s) >= s[i].1.spec_total(),
    decreases i,
{
    let t = s.subrange(1, s.len() as int);
    if i == 0 {
        lemma_sum_nonneg(t);
    } else {
        assert(t[i - 1] == s[i]);
        lemma_sum_entry(t, i - 1);
    }
}

/// Replacing one record changes the sum by the difference of its totals.
pub proof fn lemma_sum_update(s: Seq<(u64, AccountData)>, i: int, e: (u64, AccountData))
    requires
        0 <= i < s.len(),
    ensures
        sum_totals(s.update(i, e)) == sum_totals(s) - s[i].1.spec_total() + e.1.spec_total(),
    decreases i,
{
    let s2 = s.update(i, e);
    if i == 0 {
        assert(s2.subrange(1, s2.len() as int) =~= s.subrange(1, s.len() as int));
    } else {
        let t = s.subrange(1, s.len() as int);
        assert(s2.subrange(1, s2.len() as int) =~= t.update(i - 1, e));
        assert(t[i - 1] == s[i]);
        lemma_sum_update(t, i - 1, e);
        assert(s2[0] == s[0]);
    }
}

/// Appending a record adds its total to the sum.
pub proof fn lemma_sum_push(s: Seq<(u64, AccountData)>, e: (u64, AccountData))
    ensures
        sum_totals(s.push(e)) == sum_totals(s) + e.1.spec_total(),
    decreases s.len(),
{
    let s2 = s.push(e);
    if s.len() == 0 {
        assert(s2.subrange(1, s2.len() as int) =~= Seq::<(u64, AccountData)>::empty());
        assert(s2[0] == e);
        assert(sum_totals(Seq::<(u64, AccountData)>::empty()) == 0);
    } else {
        let t = s.subrange(1, s.len() as int);
        assert(s2.subrange(1, s2.len() as int) =~= t.push(e));
        lemma_sum_push(t, e);
        assert(s2[0] == s[0]);
    }
}

/// Removing a record subtracts its total from the sum.
pub proof fn lemma_sum_remove(s: Seq<(u64, AccountData)>, i: int)
    requires
        0 <= i < s.len(),
    ensures
        sum_totals(s.remove(i)) == sum_totals(s) - s[i].1.spec_total(),
    decreases i,
{
    let s2 = s.remove(i);
    if i == 0 {
        assert(s2 =~= s.subrange(1, s.len() as int));
    } else {
        let t = s.subrange(1, s.len() as int);
        assert(s2.subrange(1, s2.len() as int) =~= t.remove(i - 1));
        assert(t[i - 1] == s[i]);
        lemma_sum_remove(t, i - 1);
        assert(s2[0] == s[0]);
    }
}

/// A persisted record's total is bounded by the whole sum.
pub proof fn lemma_sum_covers_key(s: Seq<(u64, AccountData)>, id: u64)
    requires
        keys_unique(s),
    ensures
        sum_totals(s) >= 0,
        (match sget(s, id) {
            Some(a) => sum_totals(s) >= a.spec_total(),
            None => true,
        }),
{
    lemma_sum_nonneg(s);
    crate::store::lemma_sget_none(s, id);
    if sget(s, id) is Some {
        let i = choose|i: int| 0 <= i < s.len() && s[i].0 == id;
        assert forall|j: int| 0 <= j < i implies s[j].0 != id by {
            assert(s[j].0 != s[i].0);
        }
        crate::store::lemma_sget_first_match(s, id, i);
        lemma_sum_entry(s, i);
    }
}

/// Two distinct records together contribute at most the whole sum.
pub proof fn lemma_sum_two_entries(s: Seq<(u64, AccountData)>, i: int, j: int)
    requires
        0 <= i < j < s.len(),
    ensures
        sum_totals(s) >= s[i].1.spec_total() + s[j].1.spec_total(),
    decreases i,
{
    let t = s.subrange(1, s.len() as int);
    if i == 0 {
        assert(t[j - 1] == s[j]);
        lemma_sum_entry(t, j - 1);
    } else {
        assert(t[i - 1] == s[i]);
        assert(t[j - 1] == s[j]);
        lemma_sum_two_entries(t, i - 1, j - 1);
    }
}

/// Two distinct persisted accounts together are covered by the sum.
pub proof fn lemma_sum_covers_two_keys(s: Seq<(u64, AccountData)>, id1: u64, id2: u64)
    requires
        keys_unique(s),
        id1 != id2,
    ensures
        sum_totals(s) >= account_in(s, id1).spec_total() + account_in(s, id2).spec_total(),
{
    crate::store::lemma_sget_none(s, id1);
    crate::store::lemma_sget_none(s, id2);
    if sget(s, id1) is Some && sget(s, id2) is Some {
        let i = choose|i: int| 0 <= i < s.len() && s[i].0 == id1;
        let j = choose|j: int| 0 <= j < s.len() && s[j].0 == id2;
        assert forall|k: int| 0 <= k < i implies s[k].0 != id1 by {
            assert(s[k].0 != s[i].0);
        }
        assert forall|k: int| 0 <= k < j implies s[k].0 != id2 by {
            assert(s[k].0 != s[j].0);
        }
        crate::store::lemma_sget_first_match(s, id1, i);
        crate::store::lemma_sget_first_match(s, id2, j);
        if i < j {
            lemma_sum_two_entries(s, i, j);
        } else {
            lemma_sum_two_entries(s, j, i);
        }
    } else {
        lemma_sum_covers_key(s, id1);
        lemma_sum_covers_key(s, id2);
    }
}

/// The account balance ledger: every persisted record, the lock
/// and named-reserve registries, the recorded total issuance, the
/// configuration constants, and the log of emitted notifications.
pub struct Ledger {
    /// Minimum total balance an account record needs to persist.
    pub existential_deposit: u64,
    /// Most locks one account may carry.
    pub max_locks: u32,
    /// Most named reserves one account may carry.
    pub max_reserves: u32,
    /// Recorded total issuance: the money supply the ledger accounts for.
    pub issuance: u64,
    /// Persisted account records.
    pub accounts: Store<AccountData>,
    /// Active locks, per account.
    pub locks: Store<Vec<BalanceLock>>,
    /// Named reserves, per account.
    pub reserves: Store<Vec<ReserveData>>,
    /// Notifications emitted so far, oldest first.
    pub events: Vec<Event>,
}

/// No two locks in one account's list share an id.
pub open spec fn lock_ids_unique(s: Seq<BalanceLock>) -> bool {
    forall|i: int, j: int| 0 <= i < j < s.len() ==> s[i].id != s[j].id
}

/// No two named reserves in one account's list share an id.
pub open spec fn reserve_ids_unique(s: Seq<ReserveData>) -> bool {
    forall|i: int, j: int| 0 <= i < j < s.len() ==> s[i].id != s[j].id
}

/// The dust a record with this total leaves behind when committed under
/// existential deposit `ed`: nothing if it survives, its whole total
/// otherwise.
pub open spec fn dust_of(total: int, ed: u64) -> int {
    if total >= ed {
        0
    } else {
        total
    }
}

/// The record persisted for `who` in an account sequence, or the all-zero
/// default.
pub open spec fn account_in(s: Seq<(u64, AccountData)>, who: u64) -> AccountData {
    match sget(s, who) {
        Some(a) => a,
        None => AccountData::spec_zero(),
    }
}

/// Is a record persisted for `who` in an account sequence?
pub open spec fn has_account_in(s: Seq<(u64, AccountData)>, who: u64) -> bool {
    sget(s, who) is Some
}

/// The lock list registered for `who`, empty if none.
pub open spec fn locks_in(s: Seq<(u64, Vec<BalanceLock>)>, who: u64) -> Seq<BalanceLock> {
    match sget(s, who) {
        Some(l) => l@,
        None => Seq::<BalanceLock>::empty(),
    }
}

/// The named-reserve list registered for `who`, empty if none.
pub open spec fn reserves_in(s: Seq<(u64, Vec<ReserveData>)>, who: u64) -> Seq<ReserveData> {
    match sget(s, who) {
        Some(l) => l@,
        None => Seq::<ReserveData>::empty(),
    }
}

impl Ledger {
    /// The record persisted for `who`, or the all-zero default.
    #[verifier::inline]
    pub open spec fn spec_account(self, who: u64) -> AccountData {
        account_in(self.accounts@, who)
    }

    /// Is a record persisted for `who`?
    #[verifier::inline]
    pub open spec fn spec_has_account(self, who: u64) -> bool {
        has_account_in(self.accounts@, who)
    }

    /// The locks registered on `who`, empty if none.
    #[verifier::inline]
    pub open spec fn spec_locks(self, who: u64) -> Seq<BalanceLock> {
        locks_in(self.locks@, who)
    }

    /// The named reserves registered on `who`, empty if none.
    #[verifier::inline]
    pub open spec fn spec_reserves(self, who: u64) -> Seq<ReserveData> {
        reserves_in(self.reserves@, who)
    }

    /// Sum of all persisted account totals.
    #[verifier::inline]
    pub open spec fn spec_sum(self) -> int {
        sum_totals(self.accounts@)
    }

    /// Conservation: the recorded issuance equals the money actually held
    /// in accounts. Holds whenever no imbalance is outstanding.
    pub open spec fn balanced(self) -> bool {
        self.issuance as int == self.spec_sum()
    }

    /// Dust policy honoured: no persisted account sits below the
    /// existential deposit.
    pub open spec fn no_dust(self) -> bool {
        forall|i: int|
            0 <= i < self.accounts@.len() ==> (#[trigger] self.accounts@[i]).1.spec_total()
                >= self.existential_deposit
    }

    /// Structural well-formedness: unique keys everywhere, account totals
    /// representable, lock and reserve lists non-empty, within their
    /// bounds and without duplicate ids.
    pub open spec fn wf(self) -> bool {
        &&& keys_unique(self.accounts@)
        &&& keys_unique(self.locks@)
        &&& keys_unique(self.reserves@)
        &&& forall|i: int|
            0 <= i < self.accounts@.len() ==> (#[trigger] self.accounts@[i]).1.spec_total()
                <= u64::MAX
        &&& forall|i: int|
            0 <= i < self.locks@.len() ==> {
                let l = (#[trigger] self.locks@[i]).1@;
                1 <= l.len() <= self.max_locks && lock_ids_unique(l)
            }
        &&& forall|i: int|
            0 <= i < self.reserves@.len() ==> {
                let l = (#[trigger] self.reserves@[i]).1@;
                1 <= l.len() <= self.max_reserves && reserve_ids_unique(l)
            }
    }

    /// Everything but the account records and the issuance is unchanged.
    pub open spec fn same_except_accounts(self, other: Ledger) -> bool {
        &&& self.existential_deposit == other.existential_deposit
        &&& self.max_locks == other.max_locks
        &&& self.max_reserves == other.max_reserves
        &&& self.locks == other.locks
        &&& self.reserves == other.reserves
    }

    /// A fresh ledger: no accounts, no locks, no reserves, zero issuance.
    pub fn new(existential_deposit: u64, max_locks: u32, max_reserves: u32) -> (r: Ledger)
        ensures
            r.wf(),
            r.balanced(),
            r.no_dust(),
            r.existential_deposit == existential_deposit,
            r.max_locks == max_locks,
            r.max_reserves == max_reserves,
            r.issuance == 0,
            r.accounts@ == Seq::<(u64, AccountData)>::empty(),
            r.locks@ == Seq::<(u64, Vec<BalanceLock>)>::empty(),
            r.reserves@ == Seq::<(u64, Vec<ReserveData>)>::empty(),
            r.events@ == Seq::<Event>::empty(),
    {
        Ledger {
            existential_deposit,
            max_locks,
            max_reserves,
            issuance: 0,
            accounts: Store::new(),
            locks: Store::new(),
            reserves: Store::new(),
            events: Vec::new(),
        }
    }

    /// Read the persisted record of `who`, or the zero default. No side
    /// effect.
    pub fn account(&self, who: u64) -> (r: AccountData)
        ensures
            r == self.spec_account(who),
    {
        match self.accounts.find(who) {
            Some(i) => self.accounts.entries[i].1,
            None => AccountData::zero(),
        }
    }

    /// Is a record persisted for `who`?
    pub fn account_exists(&self, who: u64) -> (r: bool)
        ensures
            r == self.spec_has_account(who),
    {
        self.accounts.contains(who)
    }

    /// The recorded total issuance.
    pub fn total_issuance(&self) -> (r: u64)
        ensures
            r == self.issuance,
    {
        self.issuance
    }

    /// The existential deposit: the minimum total balance that keeps an
    /// account alive.
    pub fn minimum_balance(&self) -> (r: u64)
        ensures
            r == self.existential_deposit,
    {
        self.existential_deposit
    }

    /// Record a notification.
    pub(crate) fn deposit_event(&mut self, event: Event)
        ensures
            final(self).events@ == old(self).events@.push(event),
            final(self).accounts == old(self).accounts,
            final(self).locks == old(self).locks,
            final(self).reserves == old(self).reserves,
            final(self).issuance == old(self).issuance,
            final(self).existential_deposit == old(self).existential_deposit,
            final(self).max_locks == old(self).max_locks,
            final(self).max_reserves == old(self).max_reserves,
    {
        self.events.push(event);
    }

    /// Raise the recorded issuance, saturating at the balance limit.
    pub(crate) fn settle_positive(&mut self, amount: u64)
        ensures
            final(self).issuance == vstd::math::min(
                old(self).issuance + amount,
                u64::MAX as int,
            ),
            final(self).accounts == old(self).accounts,
            final(self).locks == old(self).locks,
            final(self).reserves == old(self).reserves,
            final(self).events == old(self).events,
            final(self).existential_deposit == old(self).existential_deposit,
            final(self).max_locks == old(self).max_locks,
            final(self).max_reserves == old(self).max_reserves,
    {
        if self.issuance <= u64::MAX - amount {
            self.issuance = self.issuance + amount;
        } else {
            self.issuance = u64::MAX;
        }
    }

    /// Lower the recorded issuance, saturating at zero.
    pub(crate) fn settle_negative(&mut self, amount: u64)
        ensures
            final(self).issuance == vstd::math::max(old(self).issuance - amount, 0),
            final(self).accounts == old(self).accounts,
            final(self).locks == old(self).locks,
            final(self).reserves == old(self).reserves,
            final(self).events == old(self).events,
            final(self).existential_deposit == old(self).existential_deposit,
            final(self).max_locks == old(self).max_locks,
            final(self).max_reserves == old(self).max_reserves,
    {
        if self.issuance >= amount {
            self.issuance = self.issuance - amount;
        } else {
            self.issuance = 0;
        }
    }

    /// Merge an outstanding imbalance into the recorded issuance,
    /// saturating at the representable bounds. This consumes the receipt:
    /// the adjustment it stood for is now accounted for.
    pub fn settle(&mut self, imbalance: Imbalance)
        ensures
            final(self).issuance as int == vstd::math::max(
                vstd::math::min(old(self).issuance + imbalance.spec_signed(), u64::MAX as int),
                0,
            ),
            final(self).accounts == old(self).accounts,
            final(self).locks == old(self).locks,
            final(self).reserves == old(self).reserves,
            final(self).events == old(self).events,
            final(self).existential_deposit == old(self).existential_deposit,
            final(self).max_locks == old(self).max_locks,
            final(self).max_reserves == old(self).max_reserves,
    {
        match imbalance {
            Imbalance::Positive(a) => self.settle_positive(a),
            Imbalance::Negative(a) => self.settle_negative(a),
        }
    }

    /// The post-mutation policy: keep the record only when its total
    /// reaches the existential deposit.
    pub open spec fn spec_post_mutation(self, new: AccountData) -> Option<AccountData> {
        if new.spec_total() >= self.existential_deposit {
            Some(new)
        } else {
            None
        }
    }

    /// Apply the dust policy to a mutated record: keep it if its total
    /// reaches the existential deposit; otherwise drop it, and if a
    /// nonzero residue is lost, report it as a negative imbalance.
    pub fn post_mutation(&self, new: AccountData) -> (r: (Option<AccountData>, Option<
        Imbalance,
    >))
        requires
            new.spec_total() <= u64::MAX,
        ensures
            r.0 == self.spec_post_mutation(new),
            (match r.1 {
                Some(dust) => dust == Imbalance::Negative((new.spec_total()) as u64) && 0
                    < new.spec_total() < self.existential_deposit,
                None => new.spec_total() == 0 || new.spec_total() >= self.existential_deposit,
            }),
    {
        let total = new.total();
        if total < self.existential_deposit {
            if total == 0 {
                (None, None)
            } else {
                (None, Some(Imbalance::Negative(total)))
            }
        } else {
            (Some(new), None)
        }
    }

    /// Persist `Some` record for `who`, or remove the record on `None`.
    /// The raw storage step: callers run [`Self::post_mutation`] first.
    pub(crate) fn write_account(&mut self, who: u64, maybe: Option<AccountData>)
        requires
            old(self).wf(),
            (match maybe {
                Some(a) => a.spec_total() <= u64::MAX,
                None => true,
            }),
        ensures
            final(self).wf(),
            (match maybe {
                Some(a) => final(self).spec_has_account(who) && final(self).spec_account(who)
                    == a,
                None => !final(self).spec_has_account(who) && final(self).spec_account(who)
                    == AccountData::spec_zero(),
            }),
            forall|other: u64|
                #![trigger account_in(final(self).accounts@, other)]
                #![trigger has_account_in(final(self).accounts@, other)]
                other != who ==> account_in(final(self).accounts@, other) == account_in(
                    old(self).accounts@,
                    other,
                ) && has_account_in(final(self).accounts@, other) == has_account_in(
                    old(self).accounts@,
                    other,
                ),
            final(self).spec_sum() == old(self).spec_sum() - old(self).spec_account(
                who,
            ).spec_total() + (match maybe {
                Some(a) => a.spec_total(),
                None => 0,
            }),
            old(self).no_dust() && (match maybe {
                Some(a) => a.spec_total() >= old(self).existential_deposit,
                None => true,
            }) ==> final(self).no_dust(),
            final(self).same_except_accounts(*old(self)),
            final(self).issuance == old(self).issuance,
            final(self).events == old(self).events,
    {
        let ghost s0 = self.accounts@;
        match self.accounts.find(who) {
            Some(i) => {
                match maybe {
                    Some(a) => {
                        self.accounts.set_at(i, a);
                        proof {
                            lemma_sget_update(s0, i as int, (who, a));
                            lemma_sum_update(s0, i as int, (who, a));
                            assert forall|k: int|
                                0 <= k < self.accounts@.len() implies (
                            #[trigger] self.accounts@[k]).1.spec_total() <= u64::MAX by {
                                if k != i {
                                    assert(self.accounts@[k] == s0[k]);
                                }
                            }
                            if old(self).no_dust() && a.spec_total()
                                >= old(self).existential_deposit {
                                assert forall|k: int|
                                    0 <= k < self.accounts@.len() implies (
                                #[trigger] self.accounts@[k]).1.spec_total() >= old(
                                    self,
                                ).existential_deposit by {
                                    if k != i {
                                        assert(self.accounts@[k] == s0[k]);
                                    }
                                }
                            }
                        }
                    },
                    None => {
                        self.accounts.remove_at(i);
                        proof {
                            lemma_sget_remove(s0, i as int);
                            lemma_sum_remove(s0, i as int);
                            assert forall|k: int|
                                0 <= k < self.accounts@.len() implies (
                            #[trigger] self.accounts@[k]).1.spec_total() <= u64::MAX by {
                                let k0: int = if k < i { k } else { k + 1 };
                                assert(self.accounts@[k] == s0[k0]);
                            }
                            if old(self).no_dust() {
                                assert forall|k: int|
                                    0 <= k < self.accounts@.len() implies (
                                #[trigger] self.accounts@[k]).1.spec_total() >= old(
                                    self,
                                ).existential_deposit by {
                                    let k0: int = if k < i { k } else { k + 1 };
                                    assert(self.accounts@[k] == s0[k0]);
                                }
                            }
                        }
                    },
                }
            },
            None => {
                match maybe {
                    Some(a) => {
                        self.accounts.push_entry(who, a);
                        proof {
                            lemma_sget_push(s0, (who, a));
                            lemma_sum_push(s0, (who, a));
                            assert forall|k: int|
                                0 <= k < self.accounts@.len() implies (
                            #[trigger] self.accounts@[k]).1.spec_total() <= u64::MAX by {
                                if k < s0.len() {
                                    assert(self.accounts@[k] == s0[k]);
                                }
                            }
                            if old(self).no_dust() && a.spec_total()
                                >= old(self).existential_deposit {
                                assert forall|k: int|
                                    0 <= k < self.accounts@.len() implies (
                                #[trigger] self.accounts@[k]).1.spec_total() >= old(
                                    self,
                                ).existential_deposit by {
                                    if k < s0.len() {
                                        assert(self.accounts@[k] == s0[k]);
                                    }
                                }
                            }
                        }
                    },
                    None => {},
                }
            },
        }
    }

    /// In a well-formed ledger every account read is representable.
    pub proof fn lemma_account_bound(self, who: u64)
        requires
            self.wf(),
        ensures
            self.spec_account(who).spec_total() <= u64::MAX,
            self.spec_account(who).free + self.spec_account(who).reserved <= u64::MAX,
    {
        crate::store::lemma_sget_none(self.accounts@, who);
        if self.spec_has_account(who) {
            let s = self.accounts@;
            let i = choose|i: int| 0 <= i < s.len() && s[i].0 == who;
            assert forall|j: int| 0 <= j < i implies s[j].0 != who by {
                assert(s[j].0 != s[i].0);
            }
            crate::store::lemma_sget_first_match(s, who, i);
        }
    }

    /// In a well-formed ledger no account holds more than the sum, so a
    /// balanced ledger's issuance covers every single account.
    pub proof fn lemma_sum_covers(self, who: u64)
        requires
            self.wf(),
        ensures
            self.spec_sum() >= self.spec_account(who).spec_total(),
            self.spec_sum() >= 0,
    {
        lemma_sum_covers_key(self.accounts@, who);
    }

    /// Commit a mutated record for `who`: apply the dust policy, persist
    /// or drop the record, take any dust residue out of the recorded
    /// issuance and report it. Returns the dust amount (zero when the
    /// record survived or was exactly empty).
    pub(crate) fn commit(&mut self, who: u64, new: AccountData) -> (dust: u64)
        requires
            old(self).wf(),
            new.spec_total() <= u64::MAX,
        ensures
            final(self).wf(),
            old(self).no_dust() ==> final(self).no_dust(),
            dust as int == dust_of(new.spec_total(), old(self).existential_deposit),
            (if new.spec_total() >= old(self).existential_deposit {
                final(self).spec_has_account(who) && final(self).spec_account(who) == new
            } else {
                !final(self).spec_has_account(who) && final(self).spec_account(who)
                    == AccountData::spec_zero()
            }),
            forall|other: u64|
                #![trigger account_in(final(self).accounts@, other)]
                #![trigger has_account_in(final(self).accounts@, other)]
                other != who ==> account_in(final(self).accounts@, other) == account_in(
                    old(self).accounts@,
                    other,
                ) && has_account_in(final(self).accounts@, other) == has_account_in(
                    old(self).accounts@,
                    other,
                ),
            final(self).spec_sum() == old(self).spec_sum() - old(self).spec_account(
                who,
            ).spec_total() + new.spec_total() - dust,
            final(self).issuance == vstd::math::max(old(self).issuance - dust, 0),
            final(self).events@ == (if dust > 0 {
                old(self).events@.push(Event::DustLost { account: who, amount: dust })
            } else {
                old(self).events@
            }),
            final(self).same_except_accounts(*old(self)),
    {
        let (maybe, dust_imbalance) = self.post_mutation(new);
        self.write_account(who, maybe);
        match dust_imbalance {
            Some(imbalance) => {
                let amount = imbalance.peek();
                self.settle_negative(amount);
                self.deposit_event(Event::DustLost { account: who, amount });
                amount
            },
            None => 0,
        }
    }
}

} // verus!
