//! Association-list maps with unique keys, the backing store for the
//! journal's latest-value caches and the in-memory database tables.
//!
//! The entries are held in a vector; a well-formed list never holds the
//! same key twice. The specification view is a `Map` built by folding the
//! entries left to right.

use vstd::prelude::*;

verus! {

/// Exec equality test that agrees with specification-level equality;
/// implemented by the key types of the association maps.
pub trait AListKey: Sized {
    /// Decide whether two keys are equal.
    fn key_eq(&self, other: &Self) -> (r: bool)
        ensures
            r == (*self == *other),
    ;
}

impl AListKey for crate::types::Address {
    fn key_eq(&self, other: &Self) -> (r: bool)
        ensures
            r == (*self == *other),
    {
        self.hi == other.hi && self.lo == other.lo
    }
}

impl AListKey for crate::types::U256 {
    fn key_eq(&self, other: &Self) -> (r: bool)
        ensures
            r == (*self == *other),
    {
        self.hi == other.hi && self.lo == other.lo
    }
}

impl AListKey for crate::types::H256 {
    fn key_eq(&self, other: &Self) -> (r: bool)
        ensures
            r == (*self == *other),
    {
        self.hi == other.hi && self.lo == other.lo
    }
}

/// No key occurs twice in the entry sequence.
pub open spec fn unique_keys<K, V>(s: Seq<(K, V)>) -> bool {
    forall|i: int, j: int| 0 <= i < j < s.len() ==> (#[trigger] s[i]).0 != (#[trigger] s[j]).0
}

/// The map described by an entry sequence, later entries overriding
/// earlier ones.
pub open spec fn alist_map<K, V>(s: Seq<(K, V)>) -> Map<K, V>
    decreases s.len(),
{
    if s.len() == 0 {
        Map::empty()
    } else {
        alist_map(s.drop_last()).insert(s.last().0, s.last().1)
    }
}

/// Pushing an entry inserts its key.
pub proof fn lemma_alist_map_push<K, V>(s: Seq<(K, V)>, e: (K, V))
    ensures
        alist_map(s.push(e)) == alist_map(s).insert(e.0, e.1),
{
    assert(s.push(e).drop_last() =~= s);
    assert(s.push(e).last() == e);
}

/// A key is in the map exactly when some entry carries it.
pub proof fn lemma_alist_map_contains<K, V>(s: Seq<(K, V)>, k: K)
    ensures
        alist_map(s).contains_key(k) <==> (exists|i: int|
            0 <= i < s.len() && (#[trigger] s[i]).0 == k),
    decreases s.len(),
{
    if s.len() > 0 {
        lemma_alist_map_contains(s.drop_last(), k);
        if s.last().0 == k {
            assert(s[s.len() - 1].0 == k);
        } else {
            if alist_map(s).contains_key(k) {
                let i = choose|i: int| 0 <= i < s.drop_last().len() && (#[trigger] s.drop_last()[i]).0 == k;
                assert(s[i].0 == k);
            }
            if exists|i: int| 0 <= i < s.len() && (#[trigger] s[i]).0 == k {
                let i = choose|i: int| 0 <= i < s.len() && (#[trigger] s[i]).0 == k;
                assert(s.drop_last()[i].0 == k);
            }
        }
    }
}

/// With unique keys, the map sends each entry's key to that entry's value.
pub proof fn lemma_alist_map_index<K, V>(s: Seq<(K, V)>, i: int)
    requires
        unique_keys(s),
        0 <= i < s.len(),
    ensures
        alist_map(s).contains_key(s[i].0),
        alist_map(s)[s[i].0] == s[i].1,
    decreases s.len(),
{
    if i == s.len() - 1 {
    } else {
        assert(s[i].0 != s[s.len() - 1].0);
        assert(unique_keys(s.drop_last())) by {
            assert(forall|x: int, y: int|
                0 <= x < y < s.drop_last().len() ==> (#[trigger] s.drop_last()[x]).0 != (
                #[trigger] s.drop_last()[y]).0) by {
                assert(forall|x: int|
                    0 <= x < s.drop_last().len() ==> #[trigger] s.drop_last()[x] == s[x]);
            }
        }
        assert(s.drop_last()[i] == s[i]);
        lemma_alist_map_index(s.drop_last(), i);
    }
}

/// Concatenation of entry lists builds the union of their maps, with the
/// right-hand list taking precedence.
pub proof fn lemma_alist_map_concat<K, V>(a: Seq<(K, V)>, b: Seq<(K, V)>)
    ensures
        alist_map(a + b) == alist_map(a).union_prefer_right(alist_map(b)),
    decreases b.len(),
{
    if b.len() == 0 {
        assert(a + b =~= a);
        assert(alist_map(a).union_prefer_right(alist_map(b)) =~= alist_map(a));
    } else {
        let b0 = b.drop_last();
        let e = b.last();
        lemma_alist_map_concat(a, b0);
        assert((a + b).drop_last() =~= a + b0);
        assert((a + b).last() == e);
        assert(alist_map(a).union_prefer_right(alist_map(b0)).insert(e.0, e.1)
            =~= alist_map(a).union_prefer_right(alist_map(b0).insert(e.0, e.1)));
    }
}

/// Inserting an entry whose key is fresh, at any position, inserts into
/// the map.
pub proof fn lemma_alist_map_insert_at<K, V>(s: Seq<(K, V)>, i: int, e: (K, V))
    requires
        0 <= i <= s.len(),
        forall|j: int| 0 <= j < s.len() ==> (#[trigger] s[j]).0 != e.0,
    ensures
        alist_map(s.insert(i, e)) == alist_map(s).insert(e.0, e.1),
{
    let pre = s.subrange(0, i);
    let post = s.subrange(i, s.len() as int);
    assert(s.insert(i, e) == pre.push(e) + post);
    lemma_alist_map_concat(pre.push(e), post);
    lemma_alist_map_push(pre, e);
    assert(s =~= pre + post);
    lemma_alist_map_concat(pre, post);
    lemma_alist_map_contains(post, e.0);
    assert(!alist_map(post).contains_key(e.0)) by {
        assert(forall|j: int| 0 <= j < post.len() ==> (#[trigger] post[j]).0 != e.0);
    }
    assert(alist_map(pre).insert(e.0, e.1).union_prefer_right(alist_map(post))
        =~= alist_map(pre).union_prefer_right(alist_map(post)).insert(e.0, e.1));
}

/// Overwriting the value at position `i` updates the map at that entry's
/// key.
pub proof fn lemma_alist_map_update_at<K, V>(s: Seq<(K, V)>, i: int, v: V)
    requires
        unique_keys(s),
        0 <= i < s.len(),
    ensures
        alist_map(s.update(i, (s[i].0, v))) == alist_map(s).insert(s[i].0, v),
{
    let k = s[i].0;
    let pre = s.subrange(0, i);
    let post = s.subrange(i + 1, s.len() as int);
    assert(s.update(i, (k, v)) =~= pre.push((k, v)) + post);
    assert(s =~= pre.push((k, s[i].1)) + post);
    lemma_alist_map_concat(pre.push((k, v)), post);
    lemma_alist_map_concat(pre.push((k, s[i].1)), post);
    lemma_alist_map_push(pre, (k, v));
    lemma_alist_map_push(pre, (k, s[i].1));
    lemma_alist_map_contains(post, k);
    assert(!alist_map(post).contains_key(k)) by {
        assert(forall|j: int| 0 <= j < post.len() ==> (#[trigger] post[j]).0 != k) by {
            assert(forall|j: int| 0 <= j < post.len() ==> #[trigger] post[j] == s[i + 1 + j]);
        }
    }
    assert(alist_map(pre).insert(k, v).union_prefer_right(alist_map(post))
        =~= alist_map(pre).insert(k, s[i].1).union_prefer_right(alist_map(post)).insert(k, v));
}

/// Removing the entry at position `i` removes that entry's key from the
/// map.
pub proof fn lemma_alist_map_remove_at<K, V>(s: Seq<(K, V)>, i: int)
    requires
        unique_keys(s),
        0 <= i < s.len(),
    ensures
        alist_map(s.remove(i)) == alist_map(s).remove(s[i].0),
{
    let k = s[i].0;
    let pre = s.subrange(0, i);
    let post = s.subrange(i + 1, s.len() as int);
    assert(s.remove(i) == pre + post);
    assert(s =~= pre.push((k, s[i].1)) + post);
    lemma_alist_map_concat(pre, post);
    lemma_alist_map_concat(pre.push((k, s[i].1)), post);
    lemma_alist_map_push(pre, (k, s[i].1));
    lemma_alist_map_contains(post, k);
    lemma_alist_map_contains(pre, k);
    assert(!alist_map(post).contains_key(k)) by {
        assert(forall|j: int| 0 <= j < post.len() ==> (#[trigger] post[j]).0 != k) by {
            assert(forall|j: int| 0 <= j < post.len() ==> #[trigger] post[j] == s[i + 1 + j]);
        }
    }
    assert(!alist_map(pre).contains_key(k)) by {
        assert(forall|j: int| 0 <= j < pre.len() ==> (#[trigger] pre[j]).0 != k) by {
            assert(forall|j: int| 0 <= j < pre.len() ==> #[trigger] pre[j] == s[j]);
        }
    }
    assert(alist_map(pre).union_prefer_right(alist_map(post))
        =~= alist_map(pre).insert(k, s[i].1).union_prefer_right(alist_map(post)).remove(k));
}

/// An association map with unique keys.
pub struct AList<K, V> {
    entries: Vec<(K, V)>,
}

impl<K: AListKey + Copy, V> AList<K, V> {
    /// The entries in insertion order.
    pub closed spec fn seq_spec(self) -> Seq<(K, V)> {
        self.entries@
    }

    /// The map the entries describe.
    pub open spec fn map_spec(self) -> Map<K, V> {
        alist_map(self.seq_spec())
    }

    /// Well-formed: no key occurs twice.
    pub open spec fn wf(self) -> bool {
        unique_keys(self.seq_spec())
    }

    /// An empty map.
    pub fn new() -> (r: AList<K, V>)
        ensures
            r.wf(),
            r.seq_spec() == Seq::<(K, V)>::empty(),
            r.map_spec() == Map::<K, V>::empty(),
    {
        AList { entries: Vec::new() }
    }

    /// The number of entries.
    pub fn len(&self) -> (r: usize)
        ensures
            r == self.seq_spec().len(),
    {
        self.entries.len()
    }

    /// The key of the entry at position `i`.
    pub fn key_at(&self, i: usize) -> (r: K)
        requires
            i < self.seq_spec().len(),
        ensures
            r == self.seq_spec()[i as int].0,
    {
        self.entries[i].0
    }

    /// The value of the entry at position `i`.
    pub fn value_at(&self, i: usize) -> (r: &V)
        requires
            i < self.seq_spec().len(),
        ensures
            *r == self.seq_spec()[i as int].1,
    {
        &self.entries[i].1
    }

    /// Look a key up.
    pub fn get(&self, k: &K) -> (r: Option<&V>)
        requires
            self.wf(),
        ensures
            (r is Some <==> self.map_spec().contains_key(*k)),
            (r matches Some(v) ==> self.map_spec()[*k] == *v),
    {
        let n = self.entries.len();
        let mut i: usize = 0;
        while i < n
            invariant
                self.wf(),
                n == self.seq_spec().len(),
                i <= n,
                forall|j: int| 0 <= j < i ==> (#[trigger] self.seq_spec()[j]).0 != *k,
            decreases n - i,
        {
            if self.entries[i].0.key_eq(k) {
                proof {
                    lemma_alist_map_index(self.seq_spec(), i as int);
                }
                return Some(&self.entries[i].1);
            }
            i = i + 1;
        }
        proof {
            lemma_alist_map_contains(self.seq_spec(), *k);
        }
        None
    }

    /// Insert or overwrite the value under `k`.
    pub fn insert(&mut self, k: K, v: V)
        requires
            old(self).wf(),
        ensures
            final(self).wf(),
            final(self).map_spec() == old(self).map_spec().insert(k, v),
    {
        let n = self.entries.len();
        let mut i: usize = 0;
        while i < n
            invariant
                self == old(self),
                self.wf(),
                n == self.seq_spec().len(),
                i <= n,
                forall|j: int| 0 <= j < i ==> (#[trigger] self.seq_spec()[j]).0 != k,
            decreases n - i,
        {
            if self.entries[i].0.key_eq(&k) {
                proof {
                    lemma_alist_map_update_at(self.seq_spec(), i as int, v);
                }
                self.entries[i] = (k, v);
                assert(self.seq_spec() == old(self).seq_spec().update(i as int, (k, v)));
                assert(forall|x: int, y: int|
                    0 <= x < y < self.seq_spec().len() ==> (#[trigger] self.seq_spec()[x]).0 != (
                    #[trigger] self.seq_spec()[y]).0) by {
                    assert(forall|x: int|
                        0 <= x < self.seq_spec().len() ==> (#[trigger] self.seq_spec()[x]).0
                            == old(self).seq_spec()[x].0);
                }
                return ;
            }
            i = i + 1;
        }
        proof {
            lemma_alist_map_insert_at(self.seq_spec(), self.seq_spec().len() as int, (k, v));
            assert(self.seq_spec().insert(self.seq_spec().len() as int, (k, v))
                =~= self.seq_spec().push((k, v)));
        }
        self.entries.push((k, v));
    }

    /// Remove the entry under `k`, if any.
    pub fn remove(&mut self, k: &K)
        requires
            old(self).wf(),
        ensures
            final(self).wf(),
            final(self).map_spec() == old(self).map_spec().remove(*k),
    {
        let n = self.entries.len();
        let mut i: usize = 0;
        while i < n
            invariant
                self == old(self),
                self.wf(),
                n == self.seq_spec().len(),
                i <= n,
                forall|j: int| 0 <= j < i ==> (#[trigger] self.seq_spec()[j]).0 != *k,
            decreases n - i,
        {
            if self.entries[i].0.key_eq(k) {
                proof {
                    lemma_alist_map_remove_at(self.seq_spec(), i as int);
                }
                self.entries.remove(i);
                assert(forall|x: int, y: int|
                    0 <= x < y < self.seq_spec().len() ==> (#[trigger] self.seq_spec()[x]).0 != (
                    #[trigger] self.seq_spec()[y]).0) by {
                    old(self).seq_spec().remove_ensures(i as int);
                }
                return ;
            }
            i = i + 1;
        }
        proof {
            lemma_alist_map_contains(self.seq_spec(), *k);
            assert(self.map_spec() =~= self.map_spec().remove(*k));
        }
    }

    /// Every entry is visible in the map; useful when walking the entries.
    pub proof fn lemma_entries_in_map(&self)
        requires
            self.wf(),
        ensures
            forall|i: int|
                0 <= i < self.seq_spec().len() ==> self.map_spec().contains_key(
                    (#[trigger] self.seq_spec()[i]).0,
                ) && self.map_spec()[self.seq_spec()[i].0] == self.seq_spec()[i].1,
            forall|k: K|
                self.map_spec().contains_key(k) ==> exists|i: int|
                    0 <= i < self.seq_spec().len() && (#[trigger] self.seq_spec()[i]).0 == k,
    {
        assert forall|i: int| 0 <= i < self.seq_spec().len() implies self.map_spec().contains_key(
            (#[trigger] self.seq_spec()[i]).0,
        ) && self.map_spec()[self.seq_spec()[i].0] == self.seq_spec()[i].1 by {
            lemma_alist_map_index(self.seq_spec(), i);
        }
        assert forall|k: K| self.map_spec().contains_key(k) implies exists|i: int|
            0 <= i < self.seq_spec().len() && (#[trigger] self.seq_spec()[i]).0 == k by {
            lemma_alist_map_contains(self.seq_spec(), k);
        }
    }
}

} // verus!
