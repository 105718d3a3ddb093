//! A keyed record store: the access pattern the ledger requires of its
//! backing storage, modelled as an association vector with unique keys.
//!
//! Contracts speak through [`sget`], the first (and under [`keys_unique`]
//! the only) value bound to a key, so callers reason about the store as a
//! partial map while still seeing the exact sequence-level effect of every
//! operation.

use vstd::prelude::*;

verus! {

/// The value bound to `id` in `s`: the first entry with that key, scanning
/// front to back.
pub open spec fn sget<V>(s: Seq<(u64, V)>, id: u64) -> Option<V>
    decreases s.len(),
{
    if s.len() == 0 {
        None
    } else if s[0].0 == id {
        Some(s[0].1)
    } else {
        sget(s.subrange(1, s.len() as int), id)
    }
}

/// No two entries share a key.
pub open spec fn keys_unique<V>(s: Seq<(u64, V)>) -> bool {
    forall|i: int, j: int| 0 <= i < j < s.len() ==> s[i].0 != s[j].0
}

/// An entry whose key has no earlier duplicate is the one `sget` returns.
pub proof fn lemma_sget_first_match<V>(s: Seq<(u64, V)>, id: u64, i: int)
    requires
        0 <= i < s.len(),
        s[i].0 == id,
        forall|j: int| 0 <= j < i ==> s[j].0 != id,
    ensures
        sget(s, id) == Some(s[i].1),
    decreases i,
{
    if i > 0 {
        let t = s.subrange(1, s.len() as int);
        assert forall|j: int| 0 <= j < i - 1 implies t[j].0 != id by {
            assert(t[j] == s[j + 1]);
        }
        lemma_sget_first_match(t, id, i - 1);
    }
}

/// `sget` finds nothing exactly when no entry carries the key.
pub proof fn lemma_sget_none<V>(s: Seq<(u64, V)>, id: u64)
    ensures
        (sget(s, id) is None) <==> (forall|i: int| 0 <= i < s.len() ==> s[i].0 != id),
    decreases s.len(),
{
    if s.len() > 0 {
        let t = s.subrange(1, s.len() as int);
        lemma_sget_none(t, id);
        if s[0].0 != id {
            if forall|i: int| 0 <= i < t.len() ==> t[i].0 != id {
                assert forall|i: int| 0 <= i < s.len() implies s[i].0 != id by {
                    if i > 0 {
                        assert(t[i - 1] == s[i]);
                    }
                }
            } else {
                let w = choose|i: int| 0 <= i < t.len() && t[i].0 == id;
                assert(s[w + 1] == t[w]);
            }
        }
    }
}

/// Replacing the entry at `i` while keeping its key rebinds that key and
/// leaves every other binding untouched.
pub proof fn lemma_sget_update<V>(s: Seq<(u64, V)>, i: int, e: (u64, V))
    requires
        keys_unique(s),
        0 <= i < s.len(),
        e.0 == s[i].0,
    ensures
        keys_unique(s.update(i, e)),
        sget(s.update(i, e), e.0) == Some(e.1),
        forall|id: u64| id != e.0 ==> sget(s.update(i, e), id) == sget(s, id),
    decreases i,
{
    let s2 = s.update(i, e);
    assert forall|p: int, q: int| 0 <= p < q < s2.len() implies s2[p].0 != s2[q].0 by {
        assert(s2[p].0 == s[p].0 && s2[q].0 == s[q].0);
    }
    if i == 0 {
        assert(s2.subrange(1, s2.len() as int) =~= s.subrange(1, s.len() as int));
        assert forall|id: u64| id != e.0 implies sget(s2, id) == sget(s, id) by {
            assert(s2[0].0 == s[0].0);
        }
    } else {
        let t = s.subrange(1, s.len() as int);
        let t2 = s2.subrange(1, s2.len() as int);
        assert(t2 =~= t.update(i - 1, e));
        assert forall|p: int, q: int| 0 <= p < q < t.len() implies t[p].0 != t[q].0 by {
            assert(t[p] == s[p + 1] && t[q] == s[q + 1]);
        }
        assert(t[i - 1] == s[i]);
        lemma_sget_update(t, i - 1, e);
        assert(s[0].0 != e.0);
        assert(s2[0] == s[0]);
        assert(sget(s2, e.0) == Some(e.1));
        assert forall|id: u64| id != e.0 implies sget(s2, id) == sget(s, id) by {
            assert(sget(t.update(i - 1, e), id) == sget(t, id));
        }
    }
}

/// Appending an entry under a fresh key binds that key and leaves every
/// other binding untouched.
pub proof fn lemma_sget_push<V>(s: Seq<(u64, V)>, e: (u64, V))
    requires
        keys_unique(s),
        sget(s, e.0) is None,
    ensures
        keys_unique(s.push(e)),
        sget(s.push(e), e.0) == Some(e.1),
        forall|id: u64| id != e.0 ==> sget(s.push(e), id) == sget(s, id),
    decreases s.len(),
{
    let s2 = s.push(e);
    lemma_sget_none(s, e.0);
    assert forall|p: int, q: int| 0 <= p < q < s2.len() implies s2[p].0 != s2[q].0 by {
        if q < s.len() {
            assert(s2[p] == s[p] && s2[q] == s[q]);
        } else {
            assert(s2[p] == s[p] && s2[q] == e);
        }
    }
    if s.len() == 0 {
        assert(s2[0] == e);
        assert(s2.subrange(1, s2.len() as int) =~= Seq::<(u64, V)>::empty());
        assert forall|id: u64| id != e.0 implies sget(s2, id) == sget(s, id) by {
            assert(sget(Seq::<(u64, V)>::empty(), id) is None);
            assert(sget(s2, id) is None);
        }
    } else {
        let t = s.subrange(1, s.len() as int);
        let t2 = s2.subrange(1, s2.len() as int);
        assert(t2 =~= t.push(e));
        assert forall|p: int, q: int| 0 <= p < q < t.len() implies t[p].0 != t[q].0 by {
            assert(t[p] == s[p + 1] && t[q] == s[q + 1]);
        }
        lemma_sget_none(t, e.0);
        assert forall|j: int| 0 <= j < t.len() implies t[j].0 != e.0 by {
            assert(t[j] == s[j + 1]);
        }
        lemma_sget_push(t, e);
        assert(s2[0] == s[0]);
        assert(s[0].0 != e.0);
        assert(sget(s2, e.0) == Some(e.1));
        assert forall|id: u64| id != e.0 implies sget(s2, id) == sget(s, id) by {
            assert(sget(t.push(e), id) == sget(t, id));
        }
    }
}

/// Removing the entry at `i` unbinds its key and leaves every other binding
/// untouched.
pub proof fn lemma_sget_remove<V>(s: Seq<(u64, V)>, i: int)
    requires
        keys_unique(s),
        0 <= i < s.len(),
    ensures
        keys_unique(s.remove(i)),
        sget(s.remove(i), s[i].0) is None,
        forall|id: u64| id != s[i].0 ==> sget(s.remove(i), id) == sget(s, id),
    decreases i,
{
    let s2 = s.remove(i);
    assert forall|p: int, q: int| 0 <= p < q < s2.len() implies s2[p].0 != s2[q].0 by {
        let p0: int = if p < i { p } else { p + 1 };
        let q0: int = if q < i { q } else { q + 1 };
        assert(s2[p] == s[p0] && s2[q] == s[q0]);
    }
    if i == 0 {
        assert(s2 =~= s.subrange(1, s.len() as int));
        assert forall|j: int| 0 <= j < s2.len() implies s2[j].0 != s[0].0 by {
            assert(s2[j] == s[j + 1]);
        }
        lemma_sget_none(s2, s[0].0);
        assert forall|id: u64| id != s[0].0 implies sget(s2, id) == sget(s, id) by {
            assert(sget(s, id) == sget(s.subrange(1, s.len() as int), id));
        }
    } else {
        let t = s.subrange(1, s.len() as int);
        let t2 = s2.subrange(1, s2.len() as int);
        assert(t2 =~= t.remove(i - 1));
        assert forall|p: int, q: int| 0 <= p < q < t.len() implies t[p].0 != t[q].0 by {
            assert(t[p] == s[p + 1] && t[q] == s[q + 1]);
        }
        assert(t[i - 1] == s[i]);
        lemma_sget_remove(t, i - 1);
        assert(s2[0] == s[0]);
        assert(s[0].0 != s[i].0);
        assert(sget(s2, s[i].0) == sget(t.remove(i - 1), s[i].0));
        assert forall|id: u64| id != s[i].0 implies sget(s2, id) == sget(s, id) by {
            assert(sget(t.remove(i - 1), id) == sget(t, id));
        }
    }
}

/// Record store keyed by `u64` identifiers, with at most one entry per key.
pub struct Store<V> {
    /// The entries, in insertion order.
    pub entries: Vec<(u64, V)>,
}

impl<V> View for Store<V> {
    type V = Seq<(u64, V)>;

    open spec fn view(&self) -> Seq<(u64, V)> {
        self.entries@
    }
}

impl<V> Store<V> {
    /// Every key bound at most once.
    pub open spec fn wf(self) -> bool {
        keys_unique(self@)
    }

    /// An empty store.
    pub fn new() -> (r: Store<V>)
        ensures
            r@ == Seq::<(u64, V)>::empty(),
            r.wf(),
    {
        Store { entries: Vec::new() }
    }

    /// Position of the entry keyed `id`, if any.
    pub fn find(&self, id: u64) -> (r: Option<usize>)
        ensures
            match r {
                Some(i) => i < self@.len() && self@[i as int].0 == id && sget(self@, id)
                    == Some(self@[i as int].1),
                None => sget(self@, id) is None,
            },
    {
        let mut i: usize = 0;
        while i < self.entries.len()
            invariant
                i <= self@.len(),
                forall|j: int| 0 <= j < i ==> self@[j].0 != id,
            decreases self@.len() - i,
        {
            if self.entries[i].0 == id {
                proof {
                    lemma_sget_first_match(self@, id, i as int);
                }
                return Some(i);
            }
            i += 1;
        }
        proof {
            lemma_sget_none(self@, id);
        }
        None
    }

    /// Is any entry keyed `id`?
    pub fn contains(&self, id: u64) -> (r: bool)
        ensures
            r == (sget(self@, id) is Some),
    {
        self.find(id).is_some()
    }

    /// Replace the value at position `i`, keeping its key.
    pub fn set_at(&mut self, i: usize, v: V)
        requires
            i < old(self)@.len(),
        ensures
            final(self)@ == old(self)@.update(i as int, (old(self)@[i as int].0, v)),
    {
        let id = self.entries[i].0;
        self.entries[i] = (id, v);
    }

    /// Append an entry; the caller keys it freshly to keep keys unique.
    pub fn push_entry(&mut self, id: u64, v: V)
        ensures
            final(self)@ == old(self)@.push((id, v)),
    {
        self.entries.push((id, v));
    }

    /// Remove the entry at position `i`.
    pub fn remove_at(&mut self, i: usize)
        requires
            i < old(self)@.len(),
        ensures
            final(self)@ == old(self)@.remove(i as int),
    {
        self.entries.remove(i);
    }

    /// Number of entries.
    pub fn len(&self) -> (r: usize)
        ensures
            r == self@.len(),
    {
        self.entries.len()
    }
}

} // verus!
