//! The lock manager: named locks freeze parts of an account's free
//! balance. The effective freeze per reason class is the maximum over the
//! active locks, recomputed and persisted after every lock mutation.

use vstd::prelude::*;
use crate::account::AccountData;
use crate::account::BalanceLock;
use crate::account::Reasons;
use crate::ledger::Ledger;
use crate::ledger::account_in;
use crate::ledger::dust_of;
use crate::ledger::has_account_in;
use crate::ledger::lock_ids_unique;
use crate::ledger::locks_in;
use crate::store::lemma_sget_push;
use crate::store::lemma_sget_remove;
use crate::store::lemma_sget_update;
use crate::types::Event;
use crate::types::LedgerError;

verus! {

/// The effective freeze a lock list imposes on withdrawals of `class`:
/// the maximum amount over the locks whose reasons cover the class.
pub open spec fn frozen_fold(s: Seq<BalanceLock>, class: Reasons) -> int
    decreases s.len(),
{
    if s.len() == 0 {
        0
    } else {
        let rest = frozen_fold(s.subrange(1, s.len() as int), class);
        if s[0].reasons.covers(class) && s[0].amount > rest {
            s[0].amount as int
        } else {
            rest
        }
    }
}

/// The effective freeze is never negative and never beyond the balance
/// type.
pub proof fn lemma_frozen_fold_bounds(s: Seq<BalanceLock>, class: Reasons)
    ensures
        0 <= frozen_fold(s, class) <= u64::MAX,
    decreases s.len(),
{
    if s.len() > 0 {
        lemma_frozen_fold_bounds(s.subrange(1, s.len() as int), class);
    }
}

/// If every lock of `s2` covers at least what the matching lock of `s1`
/// covers, with at least its amount, the effective freeze cannot drop.
pub proof fn lemma_frozen_fold_pointwise(s1: Seq<BalanceLock>, s2: Seq<BalanceLock>, class: Reasons)
    requires
        s1.len() == s2.len(),
        forall|i: int|
            0 <= i < s1.len() ==> ((#[trigger] s1[i]).reasons.covers(class) ==> (
            #[trigger] s2[i]).reasons.covers(class) && s2[i].amount >= s1[i].amount),
    ensures
        frozen_fold(s2, class) >= frozen_fold(s1, class),
    decreases s1.len(),
{
    if s1.len() > 0 {
        let t1 = s1.subrange(1, s1.len() as int);
        let t2 = s2.subrange(1, s2.len() as int);
        assert forall|i: int|
            0 <= i < t1.len() implies ((#[trigger] t1[i]).reasons.covers(class) ==> (
        #[trigger] t2[i]).reasons.covers(class) && t2[i].amount >= t1[i].amount) by {
            assert(t1[i] == s1[i + 1] && t2[i] == s2[i + 1]);
        }
        lemma_frozen_fold_pointwise(t1, t2, class);
    }
}

/// Does the list carry a lock registered under `id`?
pub open spec fn has_lock_id(s: Seq<BalanceLock>, id: u64) -> bool {
    exists|i: int| 0 <= i < s.len() && s[i].id == id
}

/// The list with every lock registered under `id` taken out, order kept.
pub open spec fn locks_without(s: Seq<BalanceLock>, id: u64) -> Seq<BalanceLock>
    decreases s.len(),
{
    if s.len() == 0 {
        s
    } else {
        let rest = locks_without(s.subrange(1, s.len() as int), id);
        if s[0].id == id {
            rest
        } else {
            seq![s[0]] + rest
        }
    }
}

/// Removal commutes with appending one lock at the end.
pub proof fn lemma_locks_without_push(s: Seq<BalanceLock>, id: u64, e: BalanceLock)
    ensures
        locks_without(s.push(e), id) == (if e.id == id {
            locks_without(s, id)
        } else {
            locks_without(s, id).push(e)
        }),
    decreases s.len(),
{
    let s2 = s.push(e);
    if s.len() == 0 {
        assert(s2.subrange(1, s2.len() as int) =~= Seq::<BalanceLock>::empty());
        assert(s2[0] == e);
        assert(locks_without(Seq::<BalanceLock>::empty(), id) =~= Seq::<BalanceLock>::empty());
        if e.id != id {
            assert(locks_without(s2, id) =~= locks_without(s, id).push(e));
        } else {
            assert(locks_without(s2, id) =~= locks_without(s, id));
        }
    } else {
        let t = s.subrange(1, s.len() as int);
        assert(s2.subrange(1, s2.len() as int) =~= t.push(e));
        lemma_locks_without_push(t, id, e);
        assert(s2[0] == s[0]);
        if s[0].id != id && e.id != id {
            assert(seq![s[0]] + locks_without(t, id).push(e) =~= (seq![s[0]] + locks_without(
                t,
                id,
            )).push(e));
        }
    }
}

/// What removal leaves behind: no lock under `id`, no new ids, unique ids
/// kept unique, and a list no longer than before.
pub proof fn lemma_locks_without_props(s: Seq<BalanceLock>, id: u64)
    requires
        lock_ids_unique(s),
    ensures
        lock_ids_unique(locks_without(s, id)),
        !has_lock_id(locks_without(s, id), id),
        locks_without(s, id).len() <= s.len(),
        forall|k: int|
            0 <= k < locks_without(s, id).len() ==> #[trigger] has_lock_id(
                s,
                locks_without(s, id)[k].id,
            ),
    decreases s.len(),
{
    let out = locks_without(s, id);
    if s.len() > 0 {
        let t = s.subrange(1, s.len() as int);
        assert forall|p: int, q: int| 0 <= p < q < t.len() implies t[p].id != t[q].id by {
            assert(t[p] == s[p + 1] && t[q] == s[q + 1]);
        }
        lemma_locks_without_props(t, id);
        let rest = locks_without(t, id);
        assert forall|k: int|
            0 <= k < rest.len() implies #[trigger] has_lock_id(s, rest[k].id) by {
            assert(has_lock_id(t, rest[k].id));
            let m = choose|m: int| 0 <= m < t.len() && t[m].id == rest[k].id;
            assert(s[m + 1] == t[m]);
        }
        if s[0].id != id {
            assert(out == seq![s[0]] + rest);
            assert forall|p: int, q: int| 0 <= p < q < out.len() implies out[p].id != out[q].id by {
                if p == 0 {
                    assert(out[q] == rest[q - 1]);
                    assert(has_lock_id(t, rest[q - 1].id));
                    let m = choose|m: int| 0 <= m < t.len() && t[m].id == rest[q - 1].id;
                    assert(s[m + 1] == t[m]);
                    assert(s[0].id != t[m].id);
                } else {
                    assert(out[p] == rest[p - 1] && out[q] == rest[q - 1]);
                }
            }
            if has_lock_id(out, id) {
                let w = choose|w: int| 0 <= w < out.len() && out[w].id == id;
                assert(w > 0 ==> out[w] == rest[w - 1]);
            }
            assert forall|k: int|
                0 <= k < out.len() implies #[trigger] has_lock_id(s, out[k].id) by {
                if k == 0 {
                    assert(s[0].id == out[0].id);
                } else {
                    assert(out[k] == rest[k - 1]);
                }
            }
        }
    }
}

/// Compute the effective freeze of `class` over a lock list.
pub fn frozen_fold_of(locks: &Vec<BalanceLock>, class: Reasons) -> (r: u64)
    ensures
        r as int == frozen_fold(locks@, class),
{
    let ghost s = locks@;
    let mut m: u64 = 0;
    let mut i: usize = locks.len();
    proof {
        assert(s.subrange(i as int, s.len() as int) =~= Seq::<BalanceLock>::empty());
    }
    while i > 0
        invariant
            i <= s.len(),
            locks@ == s,
            m as int == frozen_fold(s.subrange(i as int, s.len() as int), class),
        decreases i,
    {
        i = i - 1;
        let lock = locks[i];
        let covers = match (lock.reasons, class) {
            (Reasons::All, _) => true,
            (_, Reasons::All) => true,
            (Reasons::Misc, Reasons::Misc) => true,
            (Reasons::Fee, Reasons::Fee) => true,
            _ => false,
        };
        proof {
            let sub = s.subrange(i as int, s.len() as int);
            assert(sub[0] == s[i as int]);
            assert(sub.subrange(1, sub.len() as int) =~= s.subrange(
                i as int + 1,
                s.len() as int,
            ));
        }
        if covers && lock.amount > m {
            m = lock.amount;
        }
    }
    proof {
        assert(s.subrange(0, s.len() as int) =~= s);
    }
    m
}

impl Ledger {
    /// The locks registered on `who`.
    pub fn locks(&self, who: u64) -> (r: Vec<BalanceLock>)
        ensures
            r@ == self.spec_locks(who),
    {
        let mut out: Vec<BalanceLock> = Vec::new();
        match self.locks.find(who) {
            Some(i) => {
                let list = &self.locks.entries[i].1;
                proof {
                    assert(out@ =~= list@.subrange(0, 0));
                }
                let mut j: usize = 0;
                while j < list.len()
                    invariant
                        j <= list@.len(),
                        out@ == list@.subrange(0, j as int),
                    decreases list@.len() - j,
                {
                    out.push(list[j]);
                    proof {
                        assert(out@ =~= list@.subrange(0, j as int + 1));
                    }
                    j = j + 1;
                }
                proof {
                    assert(list@.subrange(0, list@.len() as int) =~= list@);
                }
                out
            },
            None => out,
        }
    }

    /// Store `list` as `who`'s lock list (removing the entry when the
    /// list is empty), leaving everything but the lock registry as it
    /// was.
    pub(crate) fn write_locks(&mut self, who: u64, list: Vec<BalanceLock>)
        requires
            old(self).wf(),
            lock_ids_unique(list@),
            list@.len() <= old(self).max_locks,
        ensures
            final(self).wf(),
            locks_in(final(self).locks@, who) == list@,
            forall|o: u64|
                o != who ==> #[trigger] locks_in(final(self).locks@, o) == locks_in(
                    old(self).locks@,
                    o,
                ),
            final(self).accounts == old(self).accounts,
            final(self).reserves == old(self).reserves,
            final(self).events == old(self).events,
            final(self).issuance == old(self).issuance,
            final(self).existential_deposit == old(self).existential_deposit,
            final(self).max_locks == old(self).max_locks,
            final(self).max_reserves == old(self).max_reserves,
    {
        let ghost s0 = self.locks@;
        match self.locks.find(who) {
            Some(i) => {
                if list.len() == 0 {
                    self.locks.remove_at(i);
                    proof {
                        lemma_sget_remove(s0, i as int);
                        assert(locks_in(self.locks@, who) =~= list@);
                        assert forall|k: int|
                            0 <= k < self.locks@.len() implies {
                            let l = (#[trigger] self.locks@[k]).1@;
                            1 <= l.len() <= self.max_locks && lock_ids_unique(l)
                        } by {
                            let k0: int = if k < i { k } else { k + 1 };
                            assert(self.locks@[k] == s0[k0]);
                        }
                    }
                } else {
                    self.locks.set_at(i, list);
                    proof {
                        lemma_sget_update(s0, i as int, (who, self.locks.entries@[i as int].1));
                        assert forall|k: int|
                            0 <= k < self.locks@.len() implies {
                            let l = (#[trigger] self.locks@[k]).1@;
                            1 <= l.len() <= self.max_locks && lock_ids_unique(l)
                        } by {
                            if k != i {
                                assert(self.locks@[k] == s0[k]);
                            }
                        }
                    }
                }
            },
            None => {
                if list.len() > 0 {
                    self.locks.push_entry(who, list);
                    proof {
                        lemma_sget_push(s0, self.locks@[s0.len() as int]);
                        assert forall|k: int|
                            0 <= k < self.locks@.len() implies {
                            let l = (#[trigger] self.locks@[k]).1@;
                            1 <= l.len() <= self.max_locks && lock_ids_unique(l)
                        } by {
                            if k < s0.len() {
                                assert(self.locks@[k] == s0[k]);
                            }
                        }
                    }
                } else {
                    proof {
                        assert(locks_in(self.locks@, who) =~= list@);
                    }
                }
            },
        }
    }

    /// The state change of persisting lock list `list` for `who`: the
    /// registry holds `list`, the account's frozen fields are the folds
    /// over `list`, and the dust policy has run on the account.
    pub open spec fn spec_lock_update_post(
        pre: Ledger,
        post: Ledger,
        who: u64,
        list: Seq<BalanceLock>,
    ) -> bool {
        let acc = pre.spec_account(who);
        let ed = pre.existential_deposit;
        let total = acc.spec_total();
        let dust = dust_of(total, ed);
        let new_acc = (AccountData {
            misc_frozen: frozen_fold(list, Reasons::Misc) as u64,
            fee_frozen: frozen_fold(list, Reasons::Fee) as u64,
            ..acc
        });
        &&& locks_in(post.locks@, who) == list
        &&& forall|o: u64|
            o != who ==> #[trigger] locks_in(post.locks@, o) == locks_in(pre.locks@, o)
        &&& (if total >= ed {
            post.spec_has_account(who) && post.spec_account(who) == new_acc
        } else {
            !post.spec_has_account(who)
        })
        &&& forall|o: u64|
            #![trigger account_in(post.accounts@, o)]
            #![trigger has_account_in(post.accounts@, o)]
            o != who ==> account_in(post.accounts@, o) == account_in(pre.accounts@, o)
                && has_account_in(post.accounts@, o) == has_account_in(pre.accounts@, o)
        &&& post.spec_sum() == pre.spec_sum() - dust
        &&& post.issuance == vstd::math::max(pre.issuance - dust, 0)
        &&& post.events@ == (if dust > 0 {
            pre.events@.push((Event::DustLost { account: who, amount: dust as u64 }))
        } else {
            pre.events@
        })
        &&& post.reserves == pre.reserves
        &&& post.existential_deposit == pre.existential_deposit
        &&& post.max_locks == pre.max_locks
        &&& post.max_reserves == pre.max_reserves
    }

    /// Recompute the frozen fields of `who` from `list`, persist the lock
    /// list and the account, applying the dust policy.
    pub(crate) fn update_locks(&mut self, who: u64, list: Vec<BalanceLock>)
        requires
            old(self).wf(),
            lock_ids_unique(list@),
            list@.len() <= old(self).max_locks,
        ensures
            final(self).wf(),
            old(self).no_dust() ==> final(self).no_dust(),
            old(self).balanced() ==> final(self).balanced(),
            Ledger::spec_lock_update_post(*old(self), *final(self), who, list@),
    {
        proof {
            lemma_frozen_fold_bounds(list@, Reasons::Misc);
            lemma_frozen_fold_bounds(list@, Reasons::Fee);
        }
        let misc = frozen_fold_of(&list, Reasons::Misc);
        let fee = frozen_fold_of(&list, Reasons::Fee);
        self.write_locks(who, list);
        let acc = self.account(who);
        proof {
            self.lemma_account_bound(who);
            self.lemma_sum_covers(who);
        }
        let new = AccountData { misc_frozen: misc, fee_frozen: fee, ..acc };
        let _dust = self.commit(who, new);
    }

    /// The lock list after `set_lock`: the lock under its id replaced
    /// when present, appended otherwise.
    pub open spec fn spec_locks_with_set(s: Seq<BalanceLock>, lock: BalanceLock) -> Seq<
        BalanceLock,
    > {
        if has_lock_id(s, lock.id) {
            Seq::new(
                s.len(),
                |i: int|
                    if s[i].id == lock.id {
                        lock
                    } else {
                        s[i]
                    },
            )
        } else {
            s.push(lock)
        }
    }

    /// The lock list after `extend_lock`: the lock under `id` raised to
    /// at least `amount` and to the union of the reason classes when
    /// present, appended otherwise.
    pub open spec fn spec_locks_with_extend(
        s: Seq<BalanceLock>,
        id: u64,
        amount: u64,
        reasons: Reasons,
    ) -> Seq<BalanceLock> {
        if has_lock_id(s, id) {
            Seq::new(
                s.len(),
                |i: int|
                    if s[i].id == id {
                        (BalanceLock {
                            id,
                            amount: vstd::math::max(s[i].amount as int, amount as int) as u64,
                            reasons: s[i].reasons.spec_union(reasons),
                        })
                    } else {
                        s[i]
                    },
            )
        } else {
            s.push((BalanceLock { id, amount, reasons }))
        }
    }

    /// Insert or replace the lock named `id` on `who` with exactly
    /// `amount` and `reasons`; a zero amount removes it instead. Fails
    /// with `TooManyLocks`, changing nothing, when the lock is new and
    /// the set is full. On success the frozen fields are recomputed.
    pub fn set_lock(&mut self, id: u64, who: u64, amount: u64, reasons: Reasons) -> (r: Result<
        (),
        LedgerError,
    >)
        requires
            old(self).wf(),
        ensures
            final(self).wf(),
            old(self).no_dust() ==> final(self).no_dust(),
            old(self).balanced() ==> final(self).balanced(),
            r is Err ==> *final(self) == *old(self) && r == Result::<(), LedgerError>::Err(
                LedgerError::TooManyLocks,
            ),
            r is Ok <==> !(amount > 0 && !has_lock_id(old(self).spec_locks(who), id) && old(
                self,
            ).spec_locks(who).len() >= old(self).max_locks),
            (r is Ok && amount == 0) ==> Ledger::spec_lock_update_post(
                *old(self),
                *final(self),
                who,
                locks_without(old(self).spec_locks(who), id),
            ),
            (r is Ok && amount > 0) ==> Ledger::spec_lock_update_post(
                *old(self),
                *final(self),
                who,
                Ledger::spec_locks_with_set(
                    old(self).spec_locks(who),
                    (BalanceLock { id, amount, reasons }),
                ),
            ),
    {
        if amount == 0 {
            self.remove_lock(id, who);
            return Ok(());
        }
        let lock = BalanceLock { id, amount, reasons };
        let mut out: Vec<BalanceLock> = Vec::new();
        let mut found = false;
        let idx = self.locks.find(who);
        let ghost cur = self.spec_locks(who);
        proof {
            if idx is None {
                assert(cur =~= Seq::<BalanceLock>::empty());
            }
            assert(cur.subrange(0, 0) =~= Seq::<BalanceLock>::empty());
        }
        match idx {
            Some(i) => {
                let list = &self.locks.entries[i].1;
                let mut j: usize = 0;
                while j < list.len()
                    invariant
                        j <= list@.len(),
                        list@ == cur,
                        out@.len() == j,
                        forall|k: int|
                            0 <= k < j ==> out@[k] == (if cur[k].id == id {
                                lock
                            } else {
                                cur[k]
                            }),
                        found == has_lock_id(cur.subrange(0, j as int), id),
                    decreases list@.len() - j,
                {
                    let l = list[j];
                    if l.id == id {
                        found = true;
                        out.push(lock);
                    } else {
                        out.push(l);
                    }
                    proof {
                        let pre = cur.subrange(0, j as int);
                        let now = cur.subrange(0, j as int + 1);
                        assert(now[j as int] == cur[j as int]);
                        if l.id == id {
                            assert(has_lock_id(now, id));
                        } else {
                            if has_lock_id(pre, id) {
                                let w = choose|w: int| 0 <= w < pre.len() && pre[w].id == id;
                                assert(now[w] == pre[w]);
                                assert(has_lock_id(now, id));
                            }
                            if has_lock_id(now, id) {
                                let w = choose|w: int| 0 <= w < now.len() && now[w].id == id;
                                assert(w < j ==> pre[w] == now[w]);
                                assert(has_lock_id(pre, id));
                            }
                        }
                    }
                    j = j + 1;
                }
                proof {
                    assert(cur.subrange(0, cur.len() as int) =~= cur);
                }
            },
            None => {},
        }
        if !found {
            let cap = self.locks_len_of(who);
            if cap >= self.max_locks as usize {
                return Err(LedgerError::TooManyLocks);
            }
            out.push(lock);
            proof {
                assert(out@.subrange(0, cur.len() as int) =~= cur);
                assert(out@ =~= cur.push(lock));
            }
        } else {
            proof {
                assert(out@ =~= Ledger::spec_locks_with_set(cur, lock));
            }
        }
        proof {
            self.lemma_stored_locks_wf(who);
            if found {
                assert forall|p: int, q: int|
                    0 <= p < q < out@.len() implies out@[p].id != out@[q].id by {
                    assert(out@[p].id == cur[p].id && out@[q].id == cur[q].id);
                }
            } else {
                assert forall|p: int, q: int|
                    0 <= p < q < out@.len() implies out@[p].id != out@[q].id by {
                    if q < cur.len() {
                        assert(out@[p] == cur[p] && out@[q] == cur[q]);
                    } else {
                        assert(out@[q] == lock);
                        assert(out@[p] == cur[p]);
                        assert(!has_lock_id(cur, id));
                    }
                }
            }
        }
        self.update_locks(who, out);
        Ok(())
    }

    /// Raise the lock named `id` on `who` to at least `amount`, widening
    /// its reason class to cover `reasons` as well; insert it when
    /// absent. A zero amount is a no-op. The effective freeze never
    /// decreases. Fails with `TooManyLocks`, changing nothing, when the
    /// lock is new and the set is full.
    pub fn extend_lock(&mut self, id: u64, who: u64, amount: u64, reasons: Reasons) -> (r: Result<
        (),
        LedgerError,
    >)
        requires
            old(self).wf(),
        ensures
            final(self).wf(),
            old(self).no_dust() ==> final(self).no_dust(),
            old(self).balanced() ==> final(self).balanced(),
            r is Err ==> *final(self) == *old(self) && r == Result::<(), LedgerError>::Err(
                LedgerError::TooManyLocks,
            ),
            r is Ok <==> !(amount > 0 && !has_lock_id(old(self).spec_locks(who), id) && old(
                self,
            ).spec_locks(who).len() >= old(self).max_locks),
            (r is Ok && amount == 0) ==> *final(self) == *old(self),
            (r is Ok && amount > 0) ==> Ledger::spec_lock_update_post(
                *old(self),
                *final(self),
                who,
                Ledger::spec_locks_with_extend(old(self).spec_locks(who), id, amount, reasons),
            ),
            (r is Ok && amount > 0) ==> forall|class: Reasons|
                #[trigger] frozen_fold(locks_in(final(self).locks@, who), class) >= frozen_fold(
                    old(self).spec_locks(who),
                    class,
                ),
    {
        if amount == 0 {
            return Ok(());
        }
        let mut out: Vec<BalanceLock> = Vec::new();
        let mut found = false;
        let idx = self.locks.find(who);
        let ghost cur = self.spec_locks(who);
        proof {
            if idx is None {
                assert(cur =~= Seq::<BalanceLock>::empty());
            }
            assert(cur.subrange(0, 0) =~= Seq::<BalanceLock>::empty());
        }
        match idx {
            Some(i) => {
                let list = &self.locks.entries[i].1;
                let mut j: usize = 0;
                while j < list.len()
                    invariant
                        j <= list@.len(),
                        list@ == cur,
                        out@.len() == j,
                        forall|k: int|
                            0 <= k < j ==> out@[k] == (if cur[k].id == id {
                                (BalanceLock {
                                    id,
                                    amount: vstd::math::max(
                                        cur[k].amount as int,
                                        amount as int,
                                    ) as u64,
                                    reasons: cur[k].reasons.spec_union(reasons),
                                })
                            } else {
                                cur[k]
                            }),
                        found == has_lock_id(cur.subrange(0, j as int), id),
                    decreases list@.len() - j,
                {
                    let l = list[j];
                    if l.id == id {
                        found = true;
                        let raised = if l.amount >= amount {
                            l.amount
                        } else {
                            amount
                        };
                        out.push(BalanceLock { id, amount: raised, reasons: l.reasons.union(reasons) });
                    } else {
                        out.push(l);
                    }
                    proof {
                        let pre = cur.subrange(0, j as int);
                        let now = cur.subrange(0, j as int + 1);
                        assert(now[j as int] == cur[j as int]);
                        if l.id == id {
                            assert(has_lock_id(now, id));
                        } else {
                            if has_lock_id(pre, id) {
                                let w = choose|w: int| 0 <= w < pre.len() && pre[w].id == id;
                                assert(now[w] == pre[w]);
                                assert(has_lock_id(now, id));
                            }
                            if has_lock_id(now, id) {
                                let w = choose|w: int| 0 <= w < now.len() && now[w].id == id;
                                assert(w < j ==> pre[w] == now[w]);
                                assert(has_lock_id(pre, id));
                            }
                        }
                    }
                    j = j + 1;
                }
                proof {
                    assert(cur.subrange(0, cur.len() as int) =~= cur);
                }
            },
            None => {},
        }
        let lock = BalanceLock { id, amount, reasons };
        if !found {
            let cap = self.locks_len_of(who);
            if cap >= self.max_locks as usize {
                return Err(LedgerError::TooManyLocks);
            }
            out.push(lock);
            proof {
                assert(out@.subrange(0, cur.len() as int) =~= cur);
                assert(out@ =~= cur.push(lock));
            }
        } else {
            proof {
                assert(out@ =~= Ledger::spec_locks_with_extend(cur, id, amount, reasons));
            }
        }
        proof {
            self.lemma_stored_locks_wf(who);
            if found {
                assert forall|p: int, q: int|
                    0 <= p < q < out@.len() implies out@[p].id != out@[q].id by {
                    assert(out@[p].id == cur[p].id && out@[q].id == cur[q].id);
                }
            } else {
                assert forall|p: int, q: int|
                    0 <= p < q < out@.len() implies out@[p].id != out@[q].id by {
                    if q < cur.len() {
                        assert(out@[p] == cur[p] && out@[q] == cur[q]);
                    } else {
                        assert(out@[q] == lock);
                        assert(out@[p] == cur[p]);
                        assert(!has_lock_id(cur, id));
                    }
                }
            }
            assert forall|class: Reasons|
                #[trigger] frozen_fold(out@, class) >= frozen_fold(cur, class) by {
                if found {
                    assert forall|k: int|
                        0 <= k < cur.len() implies ((#[trigger] cur[k]).reasons.covers(class)
                            ==> (#[trigger] out@[k]).reasons.covers(class) && out@[k].amount
                            >= cur[k].amount) by {}
                    lemma_frozen_fold_pointwise(cur, out@, class);
                } else {
                    lemma_frozen_fold_push(cur, lock, class);
                }
            }
        }
        self.update_locks(who, out);
        Ok(())
    }

    /// Delete the lock named `id` on `who`; nothing happens if it is
    /// absent. The frozen fields are recomputed from the remaining locks.
    pub fn remove_lock(&mut self, id: u64, who: u64)
        requires
            old(self).wf(),
        ensures
            final(self).wf(),
            old(self).no_dust() ==> final(self).no_dust(),
            old(self).balanced() ==> final(self).balanced(),
            Ledger::spec_lock_update_post(
                *old(self),
                *final(self),
                who,
                locks_without(old(self).spec_locks(who), id),
            ),
    {
        let mut out: Vec<BalanceLock> = Vec::new();
        let idx = self.locks.find(who);
        let ghost cur = self.spec_locks(who);
        proof {
            if idx is None {
                assert(cur =~= Seq::<BalanceLock>::empty());
            }
            assert(locks_without(cur.subrange(0, 0), id) =~= Seq::<BalanceLock>::empty());
            assert(locks_without(Seq::<BalanceLock>::empty(), id) =~= Seq::<
                BalanceLock,
            >::empty());
        }
        match idx {
            Some(i) => {
                let list = &self.locks.entries[i].1;
                let mut j: usize = 0;
                while j < list.len()
                    invariant
                        j <= list@.len(),
                        list@ == cur,
                        out@ == locks_without(cur.subrange(0, j as int), id),
                    decreases list@.len() - j,
                {
                    let l = list[j];
                    proof {
                        assert(cur.subrange(0, j as int + 1) =~= cur.subrange(0, j as int).push(
                            cur[j as int],
                        ));
                        lemma_locks_without_push(cur.subrange(0, j as int), id, cur[j as int]);
                    }
                    if l.id != id {
                        out.push(l);
                    }
                    j = j + 1;
                }
                proof {
                    assert(cur.subrange(0, cur.len() as int) =~= cur);
                }
            },
            None => {},
        }
        proof {
            self.lemma_stored_locks_wf(who);
            lemma_locks_without_props(cur, id);
        }
        self.update_locks(who, out);
    }

    /// How many locks `who` carries.
    fn locks_len_of(&self, who: u64) -> (r: usize)
        ensures
            r == self.spec_locks(who).len(),
    {
        match self.locks.find(who) {
            Some(i) => self.locks.entries[i].1.len(),
            None => 0,
        }
    }

    /// Stored lock lists respect the well-formedness bounds.
    proof fn lemma_stored_locks_wf(self, who: u64)
        requires
            self.wf(),
        ensures
            lock_ids_unique(self.spec_locks(who)),
            self.spec_locks(who).len() <= self.max_locks,
    {
        crate::store::lemma_sget_none(self.locks@, who);
        if crate::store::sget(self.locks@, who) is Some {
            let s = self.locks@;
            let i = choose|i: int| 0 <= i < s.len() && s[i].0 == who;
            assert forall|j: int| 0 <= j < i implies s[j].0 != who by {
                assert(s[j].0 != s[i].0);
            }
            crate::store::lemma_sget_first_match(s, who, i);
        }
    }
}

/// Appending a lock raises the fold to its amount when it covers the
/// class and exceeds the old fold, and leaves it unchanged otherwise.
pub proof fn lemma_frozen_fold_push(s: Seq<BalanceLock>, e: BalanceLock, class: Reasons)
    ensures
        frozen_fold(s.push(e), class) == (if e.reasons.covers(class) && e.amount > frozen_fold(
            s,
            class,
        ) {
            e.amount as int
        } else {
            frozen_fold(s, class)
        }),
    decreases s.len(),
{
    let s2 = s.push(e);
    if s.len() == 0 {
        assert(s2.subrange(1, s2.len() as int) =~= Seq::<BalanceLock>::empty());
        assert(s2[0] == e);
        assert(frozen_fold(Seq::<BalanceLock>::empty(), class) == 0);
    } else {
        let t = s.subrange(1, s.len() as int);
        assert(s2.subrange(1, s2.len() as int) =~= t.push(e));
        lemma_frozen_fold_push(t, e, class);
        assert(s2[0] == s[0]);
    }
}

} // verus!
