//! Named reserves: per-account identified slices of the reserved
//! balance, tracked in a bounded list alongside the plain reserve
//! operations they drive.

use vstd::prelude::*;
use crate::account::AccountData;
use crate::account::Reasons;
use crate::account::ReserveData;
use crate::ledger::Ledger;
use crate::ledger::account_in;
use crate::ledger::dust_of;
use crate::ledger::has_account_in;
use crate::ledger::reserve_ids_unique;
use crate::ledger::reserves_in;
use crate::store::lemma_sget_push;
use crate::store::lemma_sget_remove;
use crate::store::lemma_sget_update;
use crate::types::BalanceStatus;
use crate::types::Event;
use crate::types::LedgerError;

verus! {

/// Does the list carry a reserve registered under `id`?
pub open spec fn has_reserve_id(s: Seq<ReserveData>, id: u64) -> bool {
    exists|i: int| 0 <= i < s.len() && s[i].id == id
}

/// The amount the first reserve registered under `id` carries, zero if
/// none is.
pub open spec fn named_amount(s: Seq<ReserveData>, id: u64) -> int
    decreases s.len(),
{
    if s.len() == 0 {
        0
    } else if s[0].id == id {
        s[0].amount as int
    } else {
        named_amount(s.subrange(1, s.len() as int), id)
    }
}

/// A reserve entry with no earlier duplicate is the one `named_amount`
/// reads.
pub proof fn lemma_named_first_match(s: Seq<ReserveData>, id: u64, i: int)
    requires
        0 <= i < s.len(),
        s[i].id == id,
        forall|j: int| 0 <= j < i ==> s[j].id != id,
    ensures
        named_amount(s, id) == s[i].amount,
    decreases i,
{
    if i > 0 {
        let t = s.subrange(1, s.len() as int);
        assert forall|j: int| 0 <= j < i - 1 implies t[j].id != id by {
            assert(t[j] == s[j + 1]);
        }
        lemma_named_first_match(t, id, i - 1);
    }
}

/// A named amount is never negative.
pub proof fn lemma_named_nonneg(s: Seq<ReserveData>, id: u64)
    ensures
        named_amount(s, id) >= 0,
    decreases s.len(),
{
    if s.len() > 0 && s[0].id != id {
        lemma_named_nonneg(s.subrange(1, s.len() as int), id);
    }
}

/// Without an entry under `id` the named amount is zero.
pub proof fn lemma_named_absent(s: Seq<ReserveData>, id: u64)
    requires
        forall|i: int| 0 <= i < s.len() ==> s[i].id != id,
    ensures
        named_amount(s, id) == 0,
    decreases s.len(),
{
    if s.len() > 0 {
        let t = s.subrange(1, s.len() as int);
        assert forall|j: int| 0 <= j < t.len() implies t[j].id != id by {
            assert(t[j] == s[j + 1]);
        }
        lemma_named_absent(t, id);
    }
}

/// The list with every reserve registered under `id` taken out, order
/// kept.
pub open spec fn reserves_without(s: Seq<ReserveData>, id: u64) -> Seq<ReserveData>
    decreases s.len(),
{
    if s.len() == 0 {
        s
    } else {
        let rest = reserves_without(s.subrange(1, s.len() as int), id);
        if s[0].id == id {
            rest
        } else {
            seq![s[0]] + rest
        }
    }
}

/// Removal commutes with appending one reserve at the end.
pub proof fn lemma_reserves_without_push(s: Seq<ReserveData>, id: u64, e: ReserveData)
    ensures
        reserves_without(s.push(e), id) == (if e.id == id {
            reserves_without(s, id)
        } else {
            reserves_without(s, id).push(e)
        }),
    decreases s.len(),
{
    let s2 = s.push(e);
    if s.len() == 0 {
        assert(s2.subrange(1, s2.len() as int) =~= Seq::<ReserveData>::empty());
        assert(s2[0] == e);
        assert(reserves_without(Seq::<ReserveData>::empty(), id) =~= Seq::<ReserveData>::empty());
        if e.id != id {
            assert(reserves_without(s2, id) =~= reserves_without(s, id).push(e));
        } else {
            assert(reserves_without(s2, id) =~= reserves_without(s, id));
        }
    } else {
        let t = s.subrange(1, s.len() as int);
        assert(s2.subrange(1, s2.len() as int) =~= t.push(e));
        lemma_reserves_without_push(t, id, e);
        assert(s2[0] == s[0]);
        if s[0].id != id && e.id != id {
            assert(seq![s[0]] + reserves_without(t, id).push(e) =~= (seq![s[0]]
                + reserves_without(t, id)).push(e));
        }
    }
}

/// What removal leaves behind: no reserve under `id`, only ids that were
/// there, unique ids kept unique, a list no longer than before.
pub proof fn lemma_reserves_without_props(s: Seq<ReserveData>, id: u64)
    requires
        reserve_ids_unique(s),
    ensures
        reserve_ids_unique(reserves_without(s, id)),
        !has_reserve_id(reserves_without(s, id), id),
        reserves_without(s, id).len() <= s.len(),
        forall|k: int|
            0 <= k < reserves_without(s, id).len() ==> #[trigger] has_reserve_id(
                s,
                reserves_without(s, id)[k].id,
            ),
    decreases s.len(),
{
    let out = reserves_without(s, id);
    if s.len() > 0 {
        let t = s.subrange(1, s.len() as int);
        assert forall|p: int, q: int| 0 <= p < q < t.len() implies t[p].id != t[q].id by {
            assert(t[p] == s[p + 1] && t[q] == s[q + 1]);
        }
        lemma_reserves_without_props(t, id);
        let rest = reserves_without(t, id);
        assert forall|k: int|
            0 <= k < rest.len() implies #[trigger] has_reserve_id(s, rest[k].id) by {
            assert(has_reserve_id(t, rest[k].id));
            let m = choose|m: int| 0 <= m < t.len() && t[m].id == rest[k].id;
            assert(s[m + 1] == t[m]);
        }
        if s[0].id != id {
            assert(out == seq![s[0]] + rest);
            assert forall|p: int, q: int| 0 <= p < q < out.len() implies out[p].id != out[q].id by {
                if p == 0 {
                    assert(out[q] == rest[q - 1]);
                    assert(has_reserve_id(t, rest[q - 1].id));
                    let m = choose|m: int| 0 <= m < t.len() && t[m].id == rest[q - 1].id;
                    assert(s[m + 1] == t[m]);
                    assert(s[0].id != t[m].id);
                } else {
                    assert(out[p] == rest[p - 1] && out[q] == rest[q - 1]);
                }
            }
            if has_reserve_id(out, id) {
                let w = choose|w: int| 0 <= w < out.len() && out[w].id == id;
                assert(w > 0 ==> out[w] == rest[w - 1]);
            }
            assert forall|k: int|
                0 <= k < out.len() implies #[trigger] has_reserve_id(s, out[k].id) by {
                if k == 0 {
                    assert(s[0].id == out[0].id);
                } else {
                    assert(out[k] == rest[k - 1]);
                }
            }
        }
    }
}

impl Ledger {
    /// The named reserves registered on `who`.
    pub fn reserves(&self, who: u64) -> (r: Vec<ReserveData>)
        ensures
            r@ == self.spec_reserves(who),
    {
        let mut out: Vec<ReserveData> = Vec::new();
        match self.reserves.find(who) {
            Some(i) => {
                let list = &self.reserves.entries[i].1;
                proof {
                    assert(out@ =~= list@.subrange(0, 0));
                }
                let mut j: usize = 0;
                while j < list.len()
                    invariant
                        j <= list@.len(),
                        out@ == list@.subrange(0, j as int),
                    decreases list@.len() - j,
                {
                    out.push(list[j]);
                    proof {
                        assert(out@ =~= list@.subrange(0, j as int + 1));
                    }
                    j = j + 1;
                }
                proof {
                    assert(list@.subrange(0, list@.len() as int) =~= list@);
                }
                out
            },
            None => out,
        }
    }

    /// The amount of `who`'s reserved balance registered under `id`.
    pub fn reserved_balance_named(&self, id: u64, who: u64) -> (r: u64)
        ensures
            r as int == named_amount(self.spec_reserves(who), id),
    {
        match self.reserves.find(who) {
            Some(i) => {
                let list = &self.reserves.entries[i].1;
                let mut j: usize = 0;
                while j < list.len()
                    invariant
                        j <= list@.len(),
                        list@ == reserves_in(self.reserves@, who),
                        forall|k: int| 0 <= k < j ==> list@[k].id != id,
                    decreases list@.len() - j,
                {
                    if list[j].id == id {
                        proof {
                            lemma_named_first_match(list@, id, j as int);
                        }
                        return list[j].amount;
                    }
                    j = j + 1;
                }
                proof {
                    lemma_named_absent(list@, id);
                }
                0
            },
            None => {
                proof {
                    assert(self.spec_reserves(who) =~= Seq::<ReserveData>::empty());
                    lemma_named_absent(self.spec_reserves(who), id);
                }
                0
            },
        }
    }

    /// Stored reserve lists respect the well-formedness bounds.
    pub(crate) proof fn lemma_stored_reserves_wf(self, who: u64)
        requires
            self.wf(),
        ensures
            reserve_ids_unique(self.spec_reserves(who)),
            self.spec_reserves(who).len() <= self.max_reserves,
    {
        crate::store::lemma_sget_none(self.reserves@, who);
        if crate::store::sget(self.reserves@, who) is Some {
            let s = self.reserves@;
            let i = choose|i: int| 0 <= i < s.len() && s[i].0 == who;
            assert forall|j: int| 0 <= j < i implies s[j].0 != who by {
                assert(s[j].0 != s[i].0);
            }
            crate::store::lemma_sget_first_match(s, who, i);
        }
    }

    /// Store `list` as `who`'s named reserves (removing the entry when
    /// the list is empty), leaving everything else as it was.
    pub(crate) fn write_reserves(&mut self, who: u64, list: Vec<ReserveData>)
        requires
            old(self).wf(),
            reserve_ids_unique(list@),
            list@.len() <= old(self).max_reserves,
        ensures
            final(self).wf(),
            reserves_in(final(self).reserves@, who) == list@,
            forall|o: u64|
                o != who ==> #[trigger] reserves_in(final(self).reserves@, o) == reserves_in(
                    old(self).reserves@,
                    o,
                ),
            final(self).accounts == old(self).accounts,
            final(self).locks == old(self).locks,
            final(self).events == old(self).events,
            final(self).issuance == old(self).issuance,
            final(self).existential_deposit == old(self).existential_deposit,
            final(self).max_locks == old(self).max_locks,
            final(self).max_reserves == old(self).max_reserves,
    {
        let ghost s0 = self.reserves@;
        match self.reserves.find(who) {
            Some(i) => {
                if list.len() == 0 {
                    self.reserves.remove_at(i);
                    proof {
                        lemma_sget_remove(s0, i as int);
                        assert(reserves_in(self.reserves@, who) =~= list@);
                        assert forall|k: int|
                            0 <= k < self.reserves@.len() implies {
                            let l = (#[trigger] self.reserves@[k]).1@;
                            1 <= l.len() <= self.max_reserves && reserve_ids_unique(l)
                        } by {
                            let k0: int = if k < i { k } else { k + 1 };
                            assert(self.reserves@[k] == s0[k0]);
                        }
                    }
                } else {
                    self.reserves.set_at(i, list);
                    proof {
                        lemma_sget_update(s0, i as int, (who, self.reserves.entries@[i as int].1));
                        assert forall|k: int|
                            0 <= k < self.reserves@.len() implies {
                            let l = (#[trigger] self.reserves@[k]).1@;
                            1 <= l.len() <= self.max_reserves && reserve_ids_unique(l)
                        } by {
                            if k != i {
                                assert(self.reserves@[k] == s0[k]);
                            }
                        }
                    }
                }
            },
            None => {
                if list.len() > 0 {
                    self.reserves.push_entry(who, list);
                    proof {
                        lemma_sget_push(s0, self.reserves@[s0.len() as int]);
                        assert forall|k: int|
                            0 <= k < self.reserves@.len() implies {
                            let l = (#[trigger] self.reserves@[k]).1@;
                            1 <= l.len() <= self.max_reserves && reserve_ids_unique(l)
                        } by {
                            if k < s0.len() {
                                assert(self.reserves@[k] == s0[k]);
                            }
                        }
                    }
                } else {
                    proof {
                        assert(reserves_in(self.reserves@, who) =~= list@);
                    }
                }
            },
        }
    }

    /// Is a reserve registered under `id` on `who`?
    fn has_named_reserve(&self, id: u64, who: u64) -> (r: bool)
        ensures
            r == has_reserve_id(self.spec_reserves(who), id),
    {
        match self.reserves.find(who) {
            Some(i) => {
                let list = &self.reserves.entries[i].1;
                let mut j: usize = 0;
                while j < list.len()
                    invariant
                        j <= list@.len(),
                        list@ == reserves_in(self.reserves@, who),
                        forall|k: int| 0 <= k < j ==> list@[k].id != id,
                    decreases list@.len() - j,
                {
                    if list[j].id == id {
                        return true;
                    }
                    j = j + 1;
                }
                proof {
                    if has_reserve_id(list@, id) {
                        let w = choose|w: int| 0 <= w < list@.len() && list@[w].id == id;
                    }
                }
                false
            },
            None => {
                proof {
                    assert(self.spec_reserves(who) =~= Seq::<ReserveData>::empty());
                }
                false
            },
        }
    }

    /// `who`'s reserve list with the entry under `id` set to
    /// `new_amount`.
    fn reserves_list_with_amount(&self, who: u64, id: u64, new_amount: u64) -> (out: Vec<
        ReserveData,
    >)
        ensures
            out@ == Seq::new(
                self.spec_reserves(who).len(),
                |i: int|
                    if self.spec_reserves(who)[i].id == id {
                        (ReserveData { id, amount: new_amount })
                    } else {
                        self.spec_reserves(who)[i]
                    },
            ),
    {
        let mut out: Vec<ReserveData> = Vec::new();
        let ghost cur = self.spec_reserves(who);
        match self.reserves.find(who) {
            Some(i) => {
                let list = &self.reserves.entries[i].1;
                let mut j: usize = 0;
                while j < list.len()
                    invariant
                        j <= list@.len(),
                        list@ == cur,
                        out@.len() == j,
                        forall|k: int|
                            0 <= k < j ==> out@[k] == (if cur[k].id == id {
                                (ReserveData { id, amount: new_amount })
                            } else {
                                cur[k]
                            }),
                    decreases list@.len() - j,
                {
                    let e = list[j];
                    if e.id == id {
                        out.push(ReserveData { id, amount: new_amount });
                    } else {
                        out.push(e);
                    }
                    j = j + 1;
                }
            },
            None => {
                proof {
                    assert(cur =~= Seq::<ReserveData>::empty());
                }
            },
        }
        proof {
            assert(out@ =~= Seq::new(
                cur.len(),
                |i: int|
                    if cur[i].id == id {
                        (ReserveData { id, amount: new_amount })
                    } else {
                        cur[i]
                    },
            ));
        }
        out
    }

    /// `who`'s reserve list with every entry under `id` taken out.
    fn reserves_list_without(&self, who: u64, id: u64) -> (out: Vec<ReserveData>)
        ensures
            out@ == reserves_without(self.spec_reserves(who), id),
    {
        let mut out: Vec<ReserveData> = Vec::new();
        let ghost cur = self.spec_reserves(who);
        proof {
            assert(reserves_without(cur.subrange(0, 0), id) =~= Seq::<ReserveData>::empty());
            assert(reserves_without(Seq::<ReserveData>::empty(), id) =~= Seq::<
                ReserveData,
            >::empty());
        }
        match self.reserves.find(who) {
            Some(i) => {
                let list = &self.reserves.entries[i].1;
                let mut j: usize = 0;
                while j < list.len()
                    invariant
                        j <= list@.len(),
                        list@ == cur,
                        out@ == reserves_without(cur.subrange(0, j as int), id),
                    decreases list@.len() - j,
                {
                    let e = list[j];
                    proof {
                        assert(cur.subrange(0, j as int + 1) =~= cur.subrange(0, j as int).push(
                            cur[j as int],
                        ));
                        lemma_reserves_without_push(cur.subrange(0, j as int), id, cur[j as int]);
                    }
                    if e.id != id {
                        out.push(e);
                    }
                    j = j + 1;
                }
                proof {
                    assert(cur.subrange(0, cur.len() as int) =~= cur);
                }
            },
            None => {
                proof {
                    assert(cur =~= Seq::<ReserveData>::empty());
                }
            },
        }
        out
    }

    /// `who`'s reserve list with `entry` appended.
    fn reserves_list_with_push(&self, who: u64, entry: ReserveData) -> (out: Vec<ReserveData>)
        ensures
            out@ == self.spec_reserves(who).push(entry),
    {
        let mut out: Vec<ReserveData> = Vec::new();
        let ghost cur = self.spec_reserves(who);
        proof {
            assert(out@ =~= cur.subrange(0, 0));
        }
        match self.reserves.find(who) {
            Some(i) => {
                let list = &self.reserves.entries[i].1;
                let mut j: usize = 0;
                while j < list.len()
                    invariant
                        j <= list@.len(),
                        list@ == cur,
                        out@ == cur.subrange(0, j as int),
                    decreases list@.len() - j,
                {
                    out.push(list[j]);
                    proof {
                        assert(out@ =~= cur.subrange(0, j as int + 1));
                    }
                    j = j + 1;
                }
                proof {
                    assert(cur.subrange(0, cur.len() as int) =~= cur);
                }
            },
            None => {
                proof {
                    assert(cur =~= Seq::<ReserveData>::empty());
                    assert(out@ =~= cur);
                }
            },
        }
        out.push(entry);
        out
    }

    /// Register `value` more reserved balance under `id` on `who`,
    /// moving it from the free balance. Fails with `Overflow` when the
    /// named entry would overflow, `TooManyReserves` when a new entry
    /// would not fit, and `InsufficientBalance` when the unfrozen free
    /// balance cannot cover `value` or the account sits below the
    /// existential deposit — in each case changing nothing.
    pub fn reserve_named(&mut self, id: u64, who: u64, value: u64) -> (r: Result<
        (),
        LedgerError,
    >)
        requires
            old(self).wf(),
        ensures
            final(self).wf(),
            old(self).no_dust() ==> final(self).no_dust(),
            old(self).balanced() ==> final(self).balanced(),
            r is Err ==> *final(self) == *old(self),
            ({
                let rs = old(self).spec_reserves(who);
                let acc = old(self).spec_account(who);
                let present = has_reserve_id(rs, id);
                let m = named_amount(rs, id);
                let can_list = if present {
                    m + value <= u64::MAX
                } else {
                    rs.len() < old(self).max_reserves
                };
                let can_account = acc.spec_usable(Reasons::All) >= value && acc.spec_total()
                    >= old(self).existential_deposit;
                match r {
                    Ok(_) => value == 0 || (can_list && can_account),
                    Err(e) => value > 0 && (if !can_list {
                        e == (if present {
                            LedgerError::Overflow
                        } else {
                            LedgerError::TooManyReserves
                        })
                    } else {
                        !can_account && e == LedgerError::InsufficientBalance
                    }),
                }
            }),
            r is Ok && value == 0 ==> *final(self) == *old(self),
            (r is Ok && value > 0) ==> ({
                let rs = old(self).spec_reserves(who);
                let acc = old(self).spec_account(who);
                let present = has_reserve_id(rs, id);
                let m = named_amount(rs, id);
                &&& reserves_in(final(self).reserves@, who) == (if present {
                    Seq::new(
                        rs.len(),
                        |i: int|
                            if rs[i].id == id {
                                (ReserveData { id, amount: (m + value) as u64 })
                            } else {
                                rs[i]
                            },
                    )
                } else {
                    rs.push((ReserveData { id, amount: value }))
                })
                &&& forall|o: u64|
                    o != who ==> #[trigger] reserves_in(final(self).reserves@, o) == reserves_in(
                        old(self).reserves@,
                        o,
                    )
                &&& final(self).spec_has_account(who) && final(self).spec_account(who) == (
                AccountData {
                    free: (acc.free - value) as u64,
                    reserved: (acc.reserved + value) as u64,
                    ..acc
                })
                &&& forall|o: u64|
                    #![trigger account_in(final(self).accounts@, o)]
                    #![trigger has_account_in(final(self).accounts@, o)]
                    o != who ==> account_in(final(self).accounts@, o) == account_in(
                        old(self).accounts@,
                        o,
                    ) && has_account_in(final(self).accounts@, o) == has_account_in(
                        old(self).accounts@,
                        o,
                    )
                &&& final(self).spec_sum() == old(self).spec_sum()
                &&& final(self).issuance == old(self).issuance
                &&& final(self).events@ == old(self).events@.push(
                    (Event::Reserved { who, amount: value }),
                )
                &&& final(self).locks == old(self).locks
                &&& final(self).existential_deposit == old(self).existential_deposit
                &&& final(self).max_locks == old(self).max_locks
                &&& final(self).max_reserves == old(self).max_reserves
            }),
    {
        if value == 0 {
            return Ok(());
        }
        let present = self.has_named_reserve(id, who);
        let m = self.reserved_balance_named(id, who);
        proof {
            self.lemma_stored_reserves_wf(who);
        }
        let out: Vec<ReserveData>;
        if present {
            if m > u64::MAX - value {
                return Err(LedgerError::Overflow);
            }
            out = self.reserves_list_with_amount(who, id, m + value);
            proof {
                let cur = self.spec_reserves(who);
                assert forall|p: int, q: int|
                    0 <= p < q < out@.len() implies out@[p].id != out@[q].id by {
                    assert(out@[p].id == cur[p].id && out@[q].id == cur[q].id);
                }
            }
        } else {
            let len = match self.reserves.find(who) {
                Some(i) => self.reserves.entries[i].1.len(),
                None => 0,
            };
            if len >= self.max_reserves as usize {
                return Err(LedgerError::TooManyReserves);
            }
            out = self.reserves_list_with_push(who, ReserveData { id, amount: value });
            proof {
                let cur = self.spec_reserves(who);
                assert forall|p: int, q: int|
                    0 <= p < q < out@.len() implies out@[p].id != out@[q].id by {
                    if q < cur.len() {
                        assert(out@[p] == cur[p] && out@[q] == cur[q]);
                    } else {
                        assert(out@[p] == cur[p]);
                        assert(!has_reserve_id(cur, id));
                    }
                }
            }
        }
        let acc = self.account(who);
        if !(acc.usable(Reasons::All) >= value && acc.total() >= self.existential_deposit) {
            return Err(LedgerError::InsufficientBalance);
        }
        proof {
            self.lemma_account_bound(who);
        }
        self.write_reserves(who, out);
        let new = AccountData { free: acc.free - value, reserved: acc.reserved + value, ..acc };
        let _dust = self.commit(who, new);
        self.deposit_event(Event::Reserved { who, amount: value });
        Ok(())
    }

    /// The state change of an effective named unreserve: `actual` (the
    /// least of the entry, the request and the reserved balance) moves
    /// back to free, the entry shrinks by it and vanishes at zero, and
    /// the dust policy has run on the account.
    pub open spec fn spec_unreserve_named_post(
        pre: Ledger,
        post: Ledger,
        id: u64,
        who: u64,
        value: u64,
    ) -> bool {
        let rs = pre.spec_reserves(who);
        let acc = pre.spec_account(who);
        let ed = pre.existential_deposit;
        let m = named_amount(rs, id);
        let to_change = vstd::math::min(m, value as int);
        let actual = vstd::math::min(acc.reserved as int, to_change);
        let new_amount = m - actual;
        let dust = dust_of(acc.spec_total(), ed);
        &&& reserves_in(post.reserves@, who) == (if new_amount == 0 {
            reserves_without(rs, id)
        } else {
            Seq::new(
                rs.len(),
                |i: int|
                    if rs[i].id == id {
                        (ReserveData { id, amount: new_amount as u64 })
                    } else {
                        rs[i]
                    },
            )
        })
        &&& forall|o: u64|
            o != who ==> #[trigger] reserves_in(post.reserves@, o) == reserves_in(
                pre.reserves@,
                o,
            )
        &&& (if acc.spec_total() >= ed {
            post.spec_has_account(who) && post.spec_account(who) == (AccountData {
                free: (acc.free + actual) as u64,
                reserved: (acc.reserved - actual) as u64,
                ..acc
            })
        } else {
            !post.spec_has_account(who)
        })
        &&& forall|o: u64|
            #![trigger account_in(post.accounts@, o)]
            #![trigger has_account_in(post.accounts@, o)]
            o != who ==> account_in(post.accounts@, o) == account_in(pre.accounts@, o)
                && has_account_in(post.accounts@, o) == has_account_in(pre.accounts@, o)
        &&& post.spec_sum() == pre.spec_sum() - dust
        &&& post.issuance == vstd::math::max(pre.issuance - dust, 0)
        &&& post.events@ == (if dust > 0 {
            pre.events@.push((Event::DustLost { account: who, amount: dust as u64 }))
        } else {
            pre.events@
        }).push((Event::Unreserved { who, amount: (actual) as u64 }))
        &&& post.locks == pre.locks
        &&& post.existential_deposit == pre.existential_deposit
        &&& post.max_locks == pre.max_locks
        &&& post.max_reserves == pre.max_reserves
    }

    /// Release up to `value` of the reserve registered under `id` on
    /// `who` back to the free balance, best effort, and return the
    /// unfulfilled remainder. The named entry shrinks by what moved and
    /// vanishes when it reaches zero.
    pub fn unreserve_named(&mut self, id: u64, who: u64, value: u64) -> (r: u64)
        requires
            old(self).wf(),
        ensures
            final(self).wf(),
            old(self).no_dust() ==> final(self).no_dust(),
            old(self).balanced() ==> final(self).balanced(),
            ({
                let rs = old(self).spec_reserves(who);
                let acc = old(self).spec_account(who);
                let m = named_amount(rs, id);
                let to_change = vstd::math::min(m, value as int);
                let actual = vstd::math::min(acc.reserved as int, to_change);
                &&& r as int == value - actual
                &&& actual == 0 ==> *final(self) == *old(self)
                &&& actual > 0 ==> Ledger::spec_unreserve_named_post(
                    *old(self),
                    *final(self),
                    id,
                    who,
                    value,
                )
            }),
    {
        proof {
            lemma_named_nonneg(self.spec_reserves(who), id);
        }
        if value == 0 {
            return value;
        }
        let m = self.reserved_balance_named(id, who);
        let to_change = if m < value {
            m
        } else {
            value
        };
        let acc = self.account(who);
        let actual = if acc.reserved < to_change {
            acc.reserved
        } else {
            to_change
        };
        if actual == 0 {
            return value;
        }
        proof {
            self.lemma_stored_reserves_wf(who);
            self.lemma_account_bound(who);
            self.lemma_sum_covers(who);
        }
        let out: Vec<ReserveData>;
        if m - actual == 0 {
            out = self.reserves_list_without(who, id);
            proof {
                lemma_reserves_without_props(self.spec_reserves(who), id);
            }
        } else {
            out = self.reserves_list_with_amount(who, id, m - actual);
            proof {
                let cur = self.spec_reserves(who);
                assert forall|p: int, q: int|
                    0 <= p < q < out@.len() implies out@[p].id != out@[q].id by {
                    assert(out@[p].id == cur[p].id && out@[q].id == cur[q].id);
                }
            }
        }
        self.write_reserves(who, out);
        let new = AccountData { free: acc.free + actual, reserved: acc.reserved - actual, ..acc };
        let _dust = self.commit(who, new);
        self.deposit_event(Event::Unreserved { who, amount: actual });
        value - actual
    }

    /// Destroy up to `value` of the reserve registered under `id` on
    /// `who` and return the unfulfilled remainder. The named entry
    /// shrinks by what was destroyed; the destroyed value and any dust
    /// leave the recorded issuance before the call returns.
    pub fn slash_reserved_named(&mut self, id: u64, who: u64, value: u64) -> (r: u64)
        requires
            old(self).wf(),
        ensures
            final(self).wf(),
            old(self).no_dust() ==> final(self).no_dust(),
            old(self).balanced() ==> final(self).balanced(),
            ({
                let rs = old(self).spec_reserves(who);
                let acc = old(self).spec_account(who);
                let ed = old(self).existential_deposit;
                let m = named_amount(rs, id);
                let to_change = vstd::math::min(m, value as int);
                let actual = vstd::math::min(acc.reserved as int, to_change);
                let new_amount = m - actual;
                let new_total = acc.spec_total() - actual;
                let dust = dust_of(new_total, ed);
                &&& r as int == value - actual
                &&& actual == 0 ==> *final(self) == *old(self)
                &&& actual > 0 ==> {
                    &&& reserves_in(final(self).reserves@, who) == (if new_amount == 0 {
                        reserves_without(rs, id)
                    } else {
                        Seq::new(
                            rs.len(),
                            |i: int|
                                if rs[i].id == id {
                                    (ReserveData { id, amount: new_amount as u64 })
                                } else {
                                    rs[i]
                                },
                        )
                    })
                    &&& forall|o: u64|
                        o != who ==> #[trigger] reserves_in(final(self).reserves@, o)
                            == reserves_in(old(self).reserves@, o)
                    &&& (if new_total >= ed {
                        final(self).spec_has_account(who) && final(self).spec_account(who) == (
                        AccountData { reserved: (acc.reserved - actual) as u64, ..acc })
                    } else {
                        !final(self).spec_has_account(who)
                    })
                    &&& forall|o: u64|
                        #![trigger account_in(final(self).accounts@, o)]
                        #![trigger has_account_in(final(self).accounts@, o)]
                        o != who ==> account_in(final(self).accounts@, o) == account_in(
                            old(self).accounts@,
                            o,
                        ) && has_account_in(final(self).accounts@, o) == has_account_in(
                            old(self).accounts@,
                            o,
                        )
                    &&& final(self).spec_sum() == old(self).spec_sum() - actual - dust
                    &&& final(self).issuance == vstd::math::max(
                        old(self).issuance - actual - dust,
                        0,
                    )
                    &&& final(self).events@ == (if dust > 0 {
                        old(self).events@.push(
                            (Event::DustLost { account: who, amount: dust as u64 }),
                        )
                    } else {
                        old(self).events@
                    }).push((Event::Slashed { who, amount: (actual) as u64 }))
                    &&& final(self).locks == old(self).locks
                    &&& final(self).existential_deposit == old(self).existential_deposit
                    &&& final(self).max_locks == old(self).max_locks
                    &&& final(self).max_reserves == old(self).max_reserves
                }
            }),
    {
        proof {
            lemma_named_nonneg(self.spec_reserves(who), id);
        }
        if value == 0 {
            return value;
        }
        let m = self.reserved_balance_named(id, who);
        let to_change = if m < value {
            m
        } else {
            value
        };
        let acc = self.account(who);
        let actual = if acc.reserved < to_change {
            acc.reserved
        } else {
            to_change
        };
        if actual == 0 {
            return value;
        }
        proof {
            self.lemma_stored_reserves_wf(who);
            self.lemma_account_bound(who);
            self.lemma_sum_covers(who);
        }
        let out: Vec<ReserveData>;
        if m - actual == 0 {
            out = self.reserves_list_without(who, id);
            proof {
                lemma_reserves_without_props(self.spec_reserves(who), id);
            }
        } else {
            out = self.reserves_list_with_amount(who, id, m - actual);
            proof {
                let cur = self.spec_reserves(who);
                assert forall|p: int, q: int|
                    0 <= p < q < out@.len() implies out@[p].id != out@[q].id by {
                    assert(out@[p].id == cur[p].id && out@[q].id == cur[q].id);
                }
            }
        }
        self.write_reserves(who, out);
        let new = AccountData { reserved: acc.reserved - actual, ..acc };
        let _dust = self.commit(who, new);
        self.settle_negative(actual);
        self.deposit_event(Event::Slashed { who, amount: actual });
        value - actual
    }

    /// Move up to `value` of the reserve registered under `id` on
    /// `slashed` over to `beneficiary`, landing it as free balance or,
    /// with `BalanceStatus::Reserved`, under the same reserve id on the
    /// beneficiary. The account moves, the two reserve lists and the
    /// notifications form one atomic unit; an ineffective repatriation
    /// is a no-op. Returns the unfulfilled remainder.
    ///
    /// Same-account calls degenerate as for plain repatriation: `Free`
    /// unreserves the named entry, `Reserved` reports the shortfall.
    pub fn repatriate_reserved_named(
        &mut self,
        id: u64,
        slashed: u64,
        beneficiary: u64,
        value: u64,
        status: BalanceStatus,
    ) -> (r: Result<u64, LedgerError>)
        requires
            old(self).wf(),
        ensures
            final(self).wf(),
            old(self).no_dust() ==> final(self).no_dust(),
            old(self).balanced() ==> final(self).balanced(),
            r is Err ==> *final(self) == *old(self),
            value == 0 ==> r == Result::<u64, LedgerError>::Ok(0u64) && *final(self) == *old(
                self,
            ),
            (value > 0 && slashed == beneficiary) ==> ({
                let rs = old(self).spec_reserves(slashed);
                let acc = old(self).spec_account(slashed);
                let m = named_amount(rs, id);
                let to_change = vstd::math::min(m, value as int);
                let actual = vstd::math::min(acc.reserved as int, to_change);
                match status {
                    BalanceStatus::Free => {
                        &&& r == Result::<u64, LedgerError>::Ok((value - actual) as u64)
                        &&& actual == 0 ==> *final(self) == *old(self)
                        &&& actual > 0 ==> Ledger::spec_unreserve_named_post(
                            *old(self),
                            *final(self),
                            id,
                            slashed,
                            value,
                        )
                    },
                    BalanceStatus::Reserved => r == Result::<u64, LedgerError>::Ok(
                        (value - to_change) as u64,
                    ) && *final(self) == *old(self),
                }
            }),
            (value > 0 && slashed != beneficiary) ==> ({
                let s_rs = old(self).spec_reserves(slashed);
                let b_rs = old(self).spec_reserves(beneficiary);
                let s_acc = old(self).spec_account(slashed);
                let b_acc = old(self).spec_account(beneficiary);
                let ed = old(self).existential_deposit;
                let m = named_amount(s_rs, id);
                let to_change = vstd::math::min(m, value as int);
                let actual = vstd::math::min(s_acc.reserved as int, to_change);
                let b_present = has_reserve_id(b_rs, id);
                let b_named = named_amount(b_rs, id);
                match r {
                    Err(e) => (if !old(self).spec_has_account(beneficiary) {
                        e == LedgerError::DeadAccount
                    } else if actual == 0 {
                        false
                    } else if status == BalanceStatus::Reserved && !b_present && b_rs.len()
                        >= old(self).max_reserves {
                        e == LedgerError::TooManyReserves
                    } else if b_acc.spec_total() + actual > u64::MAX {
                        e == LedgerError::Overflow
                    } else {
                        status == BalanceStatus::Reserved && b_present && b_named + actual
                            > u64::MAX && e == LedgerError::Overflow
                    }),
                    Ok(rem) => {
                        &&& old(self).spec_has_account(beneficiary)
                        &&& (actual == 0 ==> rem == value && *final(self) == *old(self))
                        &&& (actual > 0 ==> {
                            let b_new = (match status {
                                BalanceStatus::Free => (AccountData {
                                    free: (b_acc.free + actual) as u64,
                                    ..b_acc
                                }),
                                BalanceStatus::Reserved => (AccountData {
                                    reserved: (b_acc.reserved + actual) as u64,
                                    ..b_acc
                                }),
                            });
                            let b_new_total = b_acc.spec_total() + actual;
                            let b_dust = dust_of(b_new_total, ed);
                            let s_new_total = s_acc.spec_total() - actual;
                            let s_dust = dust_of(s_new_total, ed);
                            &&& rem as int == value - actual
                            &&& (if b_new_total >= ed {
                                final(self).spec_has_account(beneficiary) && final(self)
                                    .spec_account(beneficiary) == b_new
                            } else {
                                !final(self).spec_has_account(beneficiary)
                            })
                            &&& (if s_new_total >= ed {
                                final(self).spec_has_account(slashed) && final(self).spec_account(
                                    slashed,
                                ) == (AccountData {
                                    reserved: (s_acc.reserved - actual) as u64,
                                    ..s_acc
                                })
                            } else {
                                !final(self).spec_has_account(slashed)
                            })
                            &&& forall|o: u64|
                                #![trigger account_in(final(self).accounts@, o)]
                                #![trigger has_account_in(final(self).accounts@, o)]
                                o != slashed && o != beneficiary ==> account_in(
                                    final(self).accounts@,
                                    o,
                                ) == account_in(old(self).accounts@, o) && has_account_in(
                                    final(self).accounts@,
                                    o,
                                ) == has_account_in(old(self).accounts@, o)
                            &&& final(self).spec_sum() == old(self).spec_sum() - b_dust - s_dust
                            &&& final(self).issuance == vstd::math::max(
                                old(self).issuance - b_dust - s_dust,
                                0,
                            )
                            &&& final(self).events@ == ({
                                let after_b = if b_dust > 0 {
                                    old(self).events@.push(
                                        (Event::DustLost {
                                            account: beneficiary,
                                            amount: b_dust as u64,
                                        }),
                                    )
                                } else {
                                    old(self).events@
                                };
                                let after_s = if s_dust > 0 {
                                    after_b.push(
                                        (Event::DustLost {
                                            account: slashed,
                                            amount: s_dust as u64,
                                        }),
                                    )
                                } else {
                                    after_b
                                };
                                after_s.push(
                                    (Event::ReserveRepatriated {
                                        from: slashed,
                                        to: beneficiary,
                                        amount: (actual) as u64,
                                        destination_status: status,
                                    }),
                                )
                            })
                            &&& reserves_in(final(self).reserves@, slashed) == (if m - actual
                                == 0 {
                                reserves_without(s_rs, id)
                            } else {
                                Seq::new(
                                    s_rs.len(),
                                    |i: int|
                                        if s_rs[i].id == id {
                                            (ReserveData { id, amount: (m - actual) as u64 })
                                        } else {
                                            s_rs[i]
                                        },
                                )
                            })
                            &&& reserves_in(final(self).reserves@, beneficiary) == (match status {
                                BalanceStatus::Free => b_rs,
                                BalanceStatus::Reserved => (if b_present {
                                    Seq::new(
                                        b_rs.len(),
                                        |i: int|
                                            if b_rs[i].id == id {
                                                (ReserveData {
                                                    id,
                                                    amount: (b_named + actual) as u64,
                                                })
                                            } else {
                                                b_rs[i]
                                            },
                                    )
                                } else {
                                    b_rs.push((ReserveData { id, amount: (actual) as u64 }))
                                }),
                            })
                            &&& forall|o: u64|
                                o != slashed && o != beneficiary ==> #[trigger] reserves_in(
                                    final(self).reserves@,
                                    o,
                                ) == reserves_in(old(self).reserves@, o)
                            &&& final(self).locks == old(self).locks
                            &&& final(self).existential_deposit == old(self).existential_deposit
                            &&& final(self).max_locks == old(self).max_locks
                            &&& final(self).max_reserves == old(self).max_reserves
                        })
                    },
                }
            }),
    {
        if value == 0 {
            return Ok(0);
        }
        if slashed == beneficiary {
            proof {
                lemma_named_nonneg(self.spec_reserves(slashed), id);
            }
            let m = self.reserved_balance_named(id, slashed);
            let to_change = if m < value {
                m
            } else {
                value
            };
            return match status {
                BalanceStatus::Free => Ok(self.unreserve_named(id, slashed, value)),
                BalanceStatus::Reserved => Ok(value - to_change),
            };
        }
        if !self.account_exists(beneficiary) {
            return Err(LedgerError::DeadAccount);
        }
        let m = self.reserved_balance_named(id, slashed);
        let to_change = if m < value {
            m
        } else {
            value
        };
        let s_acc = self.account(slashed);
        let actual = if s_acc.reserved < to_change {
            s_acc.reserved
        } else {
            to_change
        };
        proof {
            lemma_named_nonneg(self.spec_reserves(slashed), id);
        }
        if actual == 0 {
            return Ok(value);
        }
        let b_acc = self.account(beneficiary);
        let b_present = self.has_named_reserve(id, beneficiary);
        let b_named = self.reserved_balance_named(id, beneficiary);
        proof {
            self.lemma_stored_reserves_wf(slashed);
            self.lemma_stored_reserves_wf(beneficiary);
            self.lemma_account_bound(beneficiary);
        }
        if status == BalanceStatus::Reserved && !b_present {
            let b_len = match self.reserves.find(beneficiary) {
                Some(i) => self.reserves.entries[i].1.len(),
                None => 0,
            };
            if b_len >= self.max_reserves as usize {
                return Err(LedgerError::TooManyReserves);
            }
        }
        if b_acc.total() > u64::MAX - actual {
            return Err(LedgerError::Overflow);
        }
        if status == BalanceStatus::Reserved && b_present && b_named > u64::MAX - actual {
            return Err(LedgerError::Overflow);
        }
        let s_out: Vec<ReserveData>;
        if m - actual == 0 {
            s_out = self.reserves_list_without(slashed, id);
            proof {
                lemma_reserves_without_props(self.spec_reserves(slashed), id);
            }
        } else {
            s_out = self.reserves_list_with_amount(slashed, id, m - actual);
            proof {
                let cur = self.spec_reserves(slashed);
                assert forall|p: int, q: int|
                    0 <= p < q < s_out@.len() implies s_out@[p].id != s_out@[q].id by {
                    assert(s_out@[p].id == cur[p].id && s_out@[q].id == cur[q].id);
                }
            }
        }
        let mut b_out: Option<Vec<ReserveData>> = None;
        if status == BalanceStatus::Reserved {
            if b_present {
                let list = self.reserves_list_with_amount(beneficiary, id, b_named + actual);
                proof {
                    let cur = self.spec_reserves(beneficiary);
                    assert forall|p: int, q: int|
                        0 <= p < q < list@.len() implies list@[p].id != list@[q].id by {
                        assert(list@[p].id == cur[p].id && list@[q].id == cur[q].id);
                    }
                }
                b_out = Some(list);
            } else {
                let list = self.reserves_list_with_push(
                    beneficiary,
                    ReserveData { id, amount: actual },
                );
                proof {
                    let cur = self.spec_reserves(beneficiary);
                    assert forall|p: int, q: int|
                        0 <= p < q < list@.len() implies list@[p].id != list@[q].id by {
                        if q < cur.len() {
                            assert(list@[p] == cur[p] && list@[q] == cur[q]);
                        } else {
                            assert(list@[p] == cur[p]);
                            assert(!has_reserve_id(cur, id));
                        }
                    }
                }
                b_out = Some(list);
            }
        }
        match self.repatriate_reserved(slashed, beneficiary, to_change, true, status) {
            Ok(_) => {},
            Err(_) => {
                proof {
                    assert(false);
                }
                return Err(LedgerError::Overflow);
            },
        }
        self.write_reserves(slashed, s_out);
        match b_out {
            Some(list) => {
                self.write_reserves(beneficiary, list);
            },
            None => {},
        }
        Ok(value - actual)
    }
}

} // verus!
