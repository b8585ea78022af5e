//! Ordered maps keyed by 256-bit storage slots, kept as vectors sorted
//! strictly by slot key. Backs both an account's latest storage values
//! and the per-slot changesets recorded by the journal.

use crate::alist::{alist_map, lemma_alist_map_contains, lemma_alist_map_index,
    lemma_alist_map_insert_at, lemma_alist_map_update_at, unique_keys};
use crate::types::U256;
use vstd::prelude::*;

verus! {

/// The entries are sorted strictly by slot key (adjacent order).
pub open spec fn slot_sorted<V>(s: Seq<(U256, V)>) -> bool {
    forall|i: int| 0 <= i && i + 1 < s.len() ==> (#[trigger] s[i]).0.lt_spec(s[i + 1].0)
}

/// Strict adjacent order extends to any pair of positions.
pub proof fn lemma_slot_sorted_total<V>(s: Seq<(U256, V)>, i: int, j: int)
    requires
        slot_sorted(s),
        0 <= i < j < s.len(),
    ensures
        s[i].0.lt_spec(s[j].0),
    decreases j - i,
{
    if j == i + 1 {
    } else {
        lemma_slot_sorted_total(s, i, j - 1);
    }
}

/// A sorted list is an association list with unique keys.
pub proof fn lemma_slot_sorted_unique<V>(s: Seq<(U256, V)>)
    requires
        slot_sorted(s),
    ensures
        unique_keys(s),
{
    assert forall|i: int, j: int| 0 <= i < j < s.len() implies (#[trigger] s[i]).0 != (
    #[trigger] s[j]).0 by {
        lemma_slot_sorted_total(s, i, j);
    }
}

/// An ordered map from storage slot keys to values of type `V`.
pub struct SlotList<V> {
    entries: Vec<(U256, V)>,
}

impl<V: Copy> SlotList<V> {
    /// The entries in ascending slot order.
    pub closed spec fn seq_spec(self) -> Seq<(U256, V)> {
        self.entries@
    }

    /// The map the entries describe.
    pub open spec fn map_spec(self) -> Map<U256, V> {
        alist_map(self.seq_spec())
    }

    /// Well-formed: strictly sorted by slot key.
    pub open spec fn wf(self) -> bool {
        slot_sorted(self.seq_spec())
    }

    /// An empty map.
    pub fn new() -> (r: SlotList<V>)
        ensures
            r.wf(),
            r.seq_spec() == Seq::<(U256, V)>::empty(),
            r.map_spec() == Map::<U256, V>::empty(),
    {
        SlotList { entries: Vec::new() }
    }

    /// The number of entries.
    pub fn len(&self) -> (r: usize)
        ensures
            r == self.seq_spec().len(),
    {
        self.entries.len()
    }

    /// The entry at position `i`.
    pub fn entry_at(&self, i: usize) -> (r: (U256, V))
        requires
            i < self.seq_spec().len(),
        ensures
            r == self.seq_spec()[i as int],
    {
        self.entries[i]
    }

    /// Look a slot up.
    pub fn get(&self, slot: &U256) -> (r: Option<V>)
        requires
            self.wf(),
        ensures
            (r is Some <==> self.map_spec().contains_key(*slot)),
            (r matches Some(v) ==> self.map_spec()[*slot] == v),
    {
        proof {
            lemma_slot_sorted_unique(self.seq_spec());
        }
        let n = self.entries.len();
        let mut i: usize = 0;
        while i < n
            invariant
                self.wf(),
                n == self.seq_spec().len(),
                i <= n,
                forall|j: int| 0 <= j < i ==> (#[trigger] self.seq_spec()[j]).0 != *slot,
            decreases n - i,
        {
            let e = self.entries[i];
            if e.0.hi == slot.hi && e.0.lo == slot.lo {
                proof {
                    lemma_slot_sorted_unique(self.seq_spec());
                    lemma_alist_map_index(self.seq_spec(), i as int);
                }
                return Some(e.1);
            }
            i = i + 1;
        }
        proof {
            lemma_alist_map_contains(self.seq_spec(), *slot);
        }
        None
    }

    /// Insert or overwrite the value under `slot`, keeping the entries
    /// sorted.
    pub fn insert(&mut self, slot: U256, v: V)
        requires
            old(self).wf(),
        ensures
            final(self).wf(),
            final(self).map_spec() == old(self).map_spec().insert(slot, v),
    {
        let n = self.entries.len();
        let mut i: usize = 0;
        while i < n && self.entries[i].0.lt(&slot)
            invariant
                self == old(self),
                self.wf(),
                n == self.seq_spec().len(),
                i <= n,
                forall|j: int| 0 <= j < i ==> (#[trigger] self.seq_spec()[j]).0.lt_spec(slot),
            decreases n - i,
        {
            i = i + 1;
        }
        if i < n {
            let e = self.entries[i];
            if e.0.hi == slot.hi && e.0.lo == slot.lo {
                proof {
                    lemma_slot_sorted_unique(self.seq_spec());
                    lemma_alist_map_update_at(self.seq_spec(), i as int, v);
                }
                self.entries[i] = (slot, v);
                assert(self.seq_spec() == old(self).seq_spec().update(i as int, (slot, v)));
                assert(slot_sorted(self.seq_spec())) by {
                    assert(forall|x: int|
                        0 <= x < self.seq_spec().len() ==> (#[trigger] self.seq_spec()[x]).0
                            == old(self).seq_spec()[x].0);
                }
                return ;
            }
        }
        proof {
            assert(forall|j: int|
                i <= j < self.seq_spec().len() ==> slot.lt_spec(
                    (#[trigger] self.seq_spec()[j]).0,
                )) by {
                assert forall|j: int| i <= j < self.seq_spec().len() implies slot.lt_spec(
                    (#[trigger] self.seq_spec()[j]).0,
                ) by {
                    if i < self.seq_spec().len() {
                        if j > i {
                            lemma_slot_sorted_total(self.seq_spec(), i as int, j);
                        }
                    }
                }
            }
            assert(forall|j: int|
                0 <= j < self.seq_spec().len() ==> (#[trigger] self.seq_spec()[j]).0 != slot);
            lemma_alist_map_insert_at(self.seq_spec(), i as int, (slot, v));
            old(self).seq_spec().insert_ensures(i as int, (slot, v));
        }
        self.entries.insert(i, (slot, v));
        assert(self.seq_spec() == old(self).seq_spec().insert(i as int, (slot, v)));
        assert(slot_sorted(self.seq_spec()));
    }

    /// Remove the entry under `slot`, if any.
    pub fn remove(&mut self, slot: &U256)
        requires
            old(self).wf(),
        ensures
            final(self).wf(),
            final(self).map_spec() == old(self).map_spec().remove(*slot),
    {
        proof {
            lemma_slot_sorted_unique(self.seq_spec());
        }
        let n = self.entries.len();
        let mut i: usize = 0;
        while i < n
            invariant
                self == old(self),
                self.wf(),
                n == self.seq_spec().len(),
                i <= n,
                forall|j: int| 0 <= j < i ==> (#[trigger] self.seq_spec()[j]).0 != *slot,
            decreases n - i,
        {
            let e = self.entries[i];
            if e.0.hi == slot.hi && e.0.lo == slot.lo {
                proof {
                    lemma_slot_sorted_unique(self.seq_spec());
                    crate::alist::lemma_alist_map_remove_at(self.seq_spec(), i as int);
                    old(self).seq_spec().remove_ensures(i as int);
                }
                self.entries.remove(i);
                assert(slot_sorted(self.seq_spec())) by {
                    assert forall|x: int|
                        0 <= x && x + 1 < self.seq_spec().len() implies (
                    #[trigger] self.seq_spec()[x]).0.lt_spec(self.seq_spec()[x + 1].0) by {
                        if x + 1 < i {
                        } else if x + 1 == i {
                            lemma_slot_sorted_total(old(self).seq_spec(), x, x + 2);
                        } else {
                        }
                    }
                }
                return ;
            }
            i = i + 1;
        }
        proof {
            crate::alist::lemma_alist_map_contains(self.seq_spec(), *slot);
            assert(self.map_spec() =~= self.map_spec().remove(*slot));
        }
    }

    /// An owned copy with the same entries.
    pub fn duplicate(&self) -> (r: SlotList<V>)
        ensures
            r.seq_spec() == self.seq_spec(),
    {
        let n = self.entries.len();
        let mut out: Vec<(U256, V)> = Vec::new();
        let mut i: usize = 0;
        while i < n
            invariant
                n == self.seq_spec().len(),
                i <= n,
                out@ == self.seq_spec().take(i as int),
            decreases n - i,
        {
            out.push(self.entries[i]);
            proof {
                assert(self.seq_spec().take(i + 1) == self.seq_spec().take(i as int).push(
                    self.seq_spec()[i as int],
                ));
            }
            i = i + 1;
        }
        proof {
            assert(self.seq_spec().take(n as int) == self.seq_spec());
        }
        SlotList { entries: out }
    }

    /// Every entry is visible in the map, and every key in the map has an
    /// entry.
    pub proof fn lemma_entries_in_map(&self)
        requires
            self.wf(),
        ensures
            forall|i: int|
                0 <= i < self.seq_spec().len() ==> self.map_spec().contains_key(
                    (#[trigger] self.seq_spec()[i]).0,
                ) && self.map_spec()[self.seq_spec()[i].0] == self.seq_spec()[i].1,
            forall|k: U256|
                self.map_spec().contains_key(k) ==> exists|i: int|
                    0 <= i < self.seq_spec().len() && (#[trigger] self.seq_spec()[i]).0 == k,
    {
        lemma_slot_sorted_unique(self.seq_spec());
        assert forall|i: int| 0 <= i < self.seq_spec().len() implies self.map_spec().contains_key(
            (#[trigger] self.seq_spec()[i]).0,
        ) && self.map_spec()[self.seq_spec()[i].0] == self.seq_spec()[i].1 by {
            lemma_alist_map_index(self.seq_spec(), i);
        }
        assert forall|k: U256| self.map_spec().contains_key(k) implies exists|i: int|
            0 <= i < self.seq_spec().len() && (#[trigger] self.seq_spec()[i]).0 == k by {
            lemma_alist_map_contains(self.seq_spec(), k);
        }
    }
}

} // verus!
