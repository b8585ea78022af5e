//! Sorting and partitioning of the change log for persistence, and the
//! row shapes the changeset tables receive.
//!
//! The persistence protocol sorts changes stably by `(transition id,
//! address)` so that the dup-sort tables' append path sees keys in
//! non-decreasing order, then splits them into an account-class and a
//! storage-class stream.

use crate::change::{change_key_le, Change, ChangeModel};
use crate::db::{acs_row_le, scs_row_le, AccountBeforeTx, DbTransaction, TidAddress};
use crate::types::{Account, Address, StorageEntry, H256, U256};
use vstd::prelude::*;

verus! {

/// A change sequence is sorted by `(transition id, address)`.
pub open spec fn sorted_changes(cs: Seq<ChangeModel>) -> bool {
    forall|i: int, j: int|
        0 <= i < j < cs.len() ==> change_key_le(#[trigger] cs[i], #[trigger] cs[j])
}

/// Insert a change into a sorted sequence, after any change of equal
/// key: the insertion step of a stable insertion sort.
pub open spec fn insert_sorted(s: Seq<ChangeModel>, c: ChangeModel) -> Seq<ChangeModel>
    decreases s.len(),
{
    if s.len() == 0 {
        seq![c]
    } else if change_key_le(s.last(), c) {
        s.push(c)
    } else {
        insert_sorted(s.drop_last(), c).push(s.last())
    }
}

/// The stable sort of a change sequence by `(transition id, address)`:
/// each change in turn is inserted behind its equals.
pub open spec fn sort_changes_spec(s: Seq<ChangeModel>) -> Seq<ChangeModel>
    decreases s.len(),
{
    if s.len() == 0 {
        s
    } else {
        insert_sorted(sort_changes_spec(s.drop_last()), s.last())
    }
}

/// A sequence that is already sorted is its own stable sort: sorting
/// moves nothing it does not have to.
pub proof fn lemma_sort_sorted_identity(s: Seq<ChangeModel>)
    requires
        sorted_changes(s),
    ensures
        sort_changes_spec(s) == s,
    decreases s.len(),
{
    if s.len() > 0 {
        assert(sorted_changes(s.drop_last())) by {
            assert(forall|i: int|
                0 <= i < s.drop_last().len() ==> #[trigger] s.drop_last()[i] == s[i]);
        }
        lemma_sort_sorted_identity(s.drop_last());
        if s.len() == 1 {
            assert(insert_sorted(s.drop_last(), s.last()) =~= s);
        } else {
            assert(change_key_le(s[s.len() - 2], s[s.len() - 1]));
            assert(s.drop_last().last() == s[s.len() - 2]);
            assert(insert_sorted(s.drop_last(), s.last()) =~= s);
        }
    }
}

/// Keys are totally ordered.
pub proof fn lemma_change_key_total(a: ChangeModel, b: ChangeModel)
    ensures
        change_key_le(a, b) || change_key_le(b, a),
{
}

/// Insertion keeps the multiset of changes, adding the new one.
pub proof fn lemma_insert_sorted_multiset(s: Seq<ChangeModel>, c: ChangeModel)
    ensures
        insert_sorted(s, c).to_multiset() == s.to_multiset().insert(c),
        insert_sorted(s, c).len() == s.len() + 1,
    decreases s.len(),
{
    broadcast use vstd::seq_lib::group_to_multiset_ensures;

    if s.len() == 0 {
        assert(insert_sorted(s, c) =~= Seq::empty().push(c));
        assert(Seq::<ChangeModel>::empty().push(c).to_multiset() =~= s.to_multiset().insert(c));
    } else if change_key_le(s.last(), c) {
    } else {
        lemma_insert_sorted_multiset(s.drop_last(), c);
        assert(s.drop_last().push(s.last()) =~= s);
        assert(s.drop_last().to_multiset().insert(s.last()) == s.to_multiset());
        assert(insert_sorted(s, c).to_multiset() == insert_sorted(
            s.drop_last(),
            c,
        ).to_multiset().insert(s.last()));
        assert(s.drop_last().to_multiset().insert(c).insert(s.last())
            =~= s.drop_last().to_multiset().insert(s.last()).insert(c));
    }
}

/// Insertion keeps the sequence sorted.
pub proof fn lemma_insert_sorted_sorted(s: Seq<ChangeModel>, c: ChangeModel)
    requires
        sorted_changes(s),
    ensures
        sorted_changes(insert_sorted(s, c)),
    decreases s.len(),
{
    broadcast use vstd::seq_lib::group_to_multiset_ensures;

    let out = insert_sorted(s, c);
    if s.len() == 0 {
    } else if change_key_le(s.last(), c) {
        assert forall|i: int, j: int| 0 <= i < j < out.len() implies change_key_le(
            #[trigger] out[i],
            #[trigger] out[j],
        ) by {
            if j == out.len() - 1 {
                if i == s.len() - 1 {
                } else {
                    assert(change_key_le(s[i], s[s.len() - 1]));
                }
            }
        }
    } else {
        let sub = insert_sorted(s.drop_last(), c);
        assert(sorted_changes(s.drop_last())) by {
            assert(forall|i: int|
                0 <= i < s.drop_last().len() ==> #[trigger] s.drop_last()[i] == s[i]);
        }
        lemma_insert_sorted_sorted(s.drop_last(), c);
        lemma_insert_sorted_multiset(s.drop_last(), c);
        lemma_change_key_total(s.last(), c);
        assert forall|i: int, j: int| 0 <= i < j < out.len() implies change_key_le(
            #[trigger] out[i],
            #[trigger] out[j],
        ) by {
            if j == out.len() - 1 {
                // every element of `sub` is an element of `s.drop_last()` or `c`,
                // and both order at or before `s.last()`
                assert(sub.contains(sub[i]));
                assert(sub.to_multiset().count(sub[i]) > 0);
                if sub[i] == c {
                } else {
                    assert(s.drop_last().to_multiset().count(sub[i]) > 0);
                    assert(s.drop_last().contains(sub[i]));
                    let m = choose|m: int|
                        0 <= m < s.drop_last().len() && s.drop_last()[m] == sub[i];
                    assert(change_key_le(s[m], s[s.len() - 1]));
                }
            } else {
                assert(change_key_le(sub[i], sub[j]));
            }
        }
    }
}

/// Inserting at the position an exec scan finds is the same as the
/// specification's insertion.
pub proof fn lemma_insert_sorted_at(s: Seq<ChangeModel>, c: ChangeModel, j: int)
    requires
        0 <= j <= s.len(),
        forall|m: int| j <= m < s.len() ==> !change_key_le(#[trigger] s[m], c),
        j > 0 ==> change_key_le(s[j - 1], c),
    ensures
        insert_sorted(s, c) == s.insert(j, c),
    decreases s.len(),
{
    if s.len() == 0 {
        assert(insert_sorted(s, c) =~= s.insert(0, c));
    } else if j == s.len() {
        assert(change_key_le(s[j - 1], c));
        assert(insert_sorted(s, c) =~= s.insert(j, c));
    } else {
        assert(!change_key_le(s[s.len() - 1], c));
        lemma_insert_sorted_at(s.drop_last(), c, j);
        assert(insert_sorted(s, c) == s.drop_last().insert(j, c).push(s.last()));
        assert(s.drop_last().insert(j, c).push(s.last()) =~= s.insert(j, c));
    }
}

/// Compare two changes by `(transition id, address)`.
pub fn change_le(a: &Change, b: &Change) -> (r: bool)
    ensures
        r == change_key_le(a.view_spec(), b.view_spec()),
{
    let aid = a.transition_id();
    let bid = b.transition_id();
    if aid < bid {
        true
    } else if aid > bid {
        false
    } else {
        let aa = a.address();
        let ba = b.address();
        aa.lt(&ba) || (aa.hi == ba.hi && aa.lo == ba.lo)
    }
}

/// Sort the drained change log stably by `(transition id, address)`.
/// Stability keeps the emitted order of changes that share a key, such
/// as the paired destroy and wipe.
pub fn sort_changes(v: &Vec<Change>) -> (r: Vec<Change>)
    ensures
        crate::post_state::change_models(r@) == sort_changes_spec(
            crate::post_state::change_models(v@),
        ),
        sorted_changes(crate::post_state::change_models(r@)),
        all_wf(v@) ==> all_wf(r@),
{
    let ghost models = crate::post_state::change_models(v@);
    let n = v.len();
    let mut out: Vec<Change> = Vec::new();
    let mut idx: usize = 0;
    while idx < n
        invariant
            n == v@.len(),
            idx <= n,
            crate::post_state::change_models(out@) == sort_changes_spec(
                crate::post_state::change_models(v@.take(idx as int)),
            ),
            sorted_changes(crate::post_state::change_models(out@)),
            all_wf(v@) ==> all_wf(out@),
        decreases n - idx,
    {
        let c = v[idx].duplicate();
        let ghost cm = c.view_spec();
        let ghost pre = crate::post_state::change_models(out@);
        let mut j: usize = out.len();
        while j > 0 && !change_le(&out[j - 1], &c)
            invariant
                j <= out@.len(),
                out@.len() == pre.len(),
                pre == crate::post_state::change_models(out@),
                cm == c.view_spec(),
                forall|m: int| j <= m < pre.len() ==> !change_key_le(#[trigger] pre[m], cm),
            decreases j,
        {
            proof {
                assert(crate::post_state::change_models(out@)[j - 1] == out@[j
                    - 1].view_spec());
            }
            j = j - 1;
        }
        proof {
            lemma_insert_sorted_at(pre, cm, j as int);
            lemma_insert_sorted_sorted(pre, cm);
            assert(crate::post_state::change_models(v@.take(idx + 1)).drop_last()
                =~= crate::post_state::change_models(v@.take(idx as int)));
            assert(crate::post_state::change_models(v@.take(idx + 1)).last() == cm);
        }
        let ghost preseq = out@;
        out.insert(j, c);
        proof {
            assert(crate::post_state::change_models(out@) =~= pre.insert(j as int, cm));
            if all_wf(v@) {
                assert(c.wf());
                assert forall|i: int| 0 <= i < out@.len() implies (#[trigger] out@[i]).wf() by {
                    preseq.insert_ensures(j as int, c);
                    if i < j {
                        assert(out@[i] == preseq[i]);
                    } else if i == j {
                        assert(out@[i] == c);
                    } else {
                        assert(out@[i] == preseq[i - 1]);
                    }
                }
            }
        }
        idx = idx + 1;
    }
    proof {
        assert(v@.take(n as int) =~= v@);
    }
    out
}

/// Every change in the sequence is well-formed.
pub open spec fn all_wf(s: Seq<Change>) -> bool {
    forall|i: int| 0 <= i < s.len() ==> (#[trigger] s[i]).wf()
}

/// A change belongs to the storage class.
pub open spec fn is_storage_class(c: ChangeModel) -> bool {
    !c.is_account_class()
}

/// No two storage-class changes share a `(transition id, address)` key;
/// what the dup-sort append path into the storage changeset demands.
pub open spec fn storage_keys_distinct(cs: Seq<ChangeModel>) -> bool {
    forall|i: int, j: int|
        0 <= i < cs.len() && 0 <= j < cs.len() && i != j && is_storage_class(#[trigger] cs[i])
            && is_storage_class(#[trigger] cs[j]) ==> !(cs[i].id_spec() == cs[j].id_spec()
            && cs[i].address_spec() == cs[j].address_spec())
}

/// Two positions holding the same value give that value a count of at
/// least two.
proof fn lemma_dup_count(s: Seq<ChangeModel>, i: int, j: int)
    requires
        0 <= i < j < s.len(),
        s[i] == s[j],
    ensures
        s.to_multiset().count(s[i]) >= 2,
{
    broadcast use vstd::seq_lib::group_to_multiset_ensures;

    let r = s.remove(i);
    assert(r.to_multiset() == s.to_multiset().remove(s[i]));
    assert(r[j - 1] == s[j]);
    assert(r.contains(s[i]));
    assert(r.to_multiset().count(s[i]) > 0);
}

/// A count of at least two gives two positions holding the value.
proof fn lemma_count_dup(s: Seq<ChangeModel>, x: ChangeModel)
    requires
        s.to_multiset().count(x) >= 2,
    ensures
        exists|i: int, j: int| 0 <= i < j < s.len() && (#[trigger] s[i]) == x && (#[trigger] s[j]) == x,
{
    broadcast use vstd::seq_lib::group_to_multiset_ensures;

    assert(s.contains(x));
    let i = choose|i: int| 0 <= i < s.len() && s[i] == x;
    let r = s.remove(i);
    assert(r.to_multiset() == s.to_multiset().remove(x));
    assert(r.to_multiset().count(x) > 0);
    assert(r.contains(x));
    let m = choose|m: int| 0 <= m < r.len() && r[m] == x;
    if m < i {
        assert(s[m] == x);
        assert(s[m] == x && s[i] == x);
    } else {
        assert(s[m + 1] == x);
        assert(s[i] == x && s[m + 1] == x);
    }
}

/// Storage-key distinctness depends only on which changes occur, not on
/// their order or selection: it carries over to any sequence whose
/// multiset is contained in the original's.
pub proof fn lemma_distinct_submultiset(s: Seq<ChangeModel>, t: Seq<ChangeModel>)
    requires
        storage_keys_distinct(s),
        forall|x: ChangeModel| #[trigger] t.to_multiset().count(x) <= s.to_multiset().count(x),
    ensures
        storage_keys_distinct(t),
{
    broadcast use vstd::seq_lib::group_to_multiset_ensures;

    assert forall|i: int, j: int|
        0 <= i < t.len() && 0 <= j < t.len() && i != j && is_storage_class(#[trigger] t[i])
            && is_storage_class(#[trigger] t[j]) implies !(t[i].id_spec() == t[j].id_spec()
        && t[i].address_spec() == t[j].address_spec()) by {
        if t[i].id_spec() == t[j].id_spec() && t[i].address_spec() == t[j].address_spec() {
            if t[i] == t[j] {
                let (a, b) = if i < j {
                    (i, j)
                } else {
                    (j, i)
                };
                lemma_dup_count(t, a, b);
                assert(s.to_multiset().count(t[i]) >= 2);
                lemma_count_dup(s, t[i]);
                let (p, q) = choose|p: int, q: int|
                    0 <= p < q < s.len() && (#[trigger] s[p]) == t[i] && (#[trigger] s[q]) == t[i];
                assert(is_storage_class(s[p]) && is_storage_class(s[q]));
            } else {
                assert(t.contains(t[i]));
                assert(t.to_multiset().count(t[i]) > 0);
                assert(s.to_multiset().count(t[i]) > 0);
                assert(s.contains(t[i]));
                assert(t.contains(t[j]));
                assert(t.to_multiset().count(t[j]) > 0);
                assert(s.to_multiset().count(t[j]) > 0);
                assert(s.contains(t[j]));
                let p = choose|p: int| 0 <= p < s.len() && s[p] == t[i];
                let q = choose|q: int| 0 <= q < s.len() && s[q] == t[j];
                assert(is_storage_class(s[p]) && is_storage_class(s[q]));
            }
        }
    }
}

/// Filtering keeps no more copies of a value than the original holds.
pub proof fn lemma_filter_submultiset(s: Seq<ChangeModel>, pred: spec_fn(ChangeModel) -> bool)
    ensures
        forall|x: ChangeModel|
            #[trigger] s.filter(pred).to_multiset().count(x) <= s.to_multiset().count(x),
    decreases s.len(),
{
    broadcast use vstd::seq_lib::group_to_multiset_ensures;

    reveal(Seq::filter);
    if s.len() > 0 {
        lemma_filter_submultiset(s.drop_last(), pred);
        assert(s.drop_last().push(s.last()) =~= s);
        assert(s.to_multiset() == s.drop_last().to_multiset().insert(s.last()));
        if pred(s.last()) {
            assert(s.filter(pred) == s.drop_last().filter(pred).push(s.last()));
            assert(s.filter(pred).to_multiset() == s.drop_last().filter(
                pred,
            ).to_multiset().insert(s.last()));
        } else {
            assert(s.filter(pred) == s.drop_last().filter(pred));
        }
        assert forall|x: ChangeModel| #[trigger] s.filter(pred).to_multiset().count(x)
            <= s.to_multiset().count(x) by {
            assert(s.drop_last().filter(pred).to_multiset().count(x)
                <= s.drop_last().to_multiset().count(x));
            if pred(s.last()) {
                assert(s.filter(pred).to_multiset().count(x) == s.drop_last().filter(
                    pred,
                ).to_multiset().insert(s.last()).count(x));
            }
            assert(s.to_multiset().count(x) == s.drop_last().to_multiset().insert(
                s.last(),
            ).count(x));
        }
    }
}

/// Split sorted changes into the account-class stream and the
/// storage-class stream, each keeping the sorted order.
pub fn partition_changes(v: Vec<Change>) -> (r: (Vec<Change>, Vec<Change>))
    requires
        sorted_changes(crate::post_state::change_models(v@)),
        all_wf(v@),
    ensures
        crate::post_state::change_models(r.0@) == crate::post_state::change_models(v@).filter(
            |c: ChangeModel| c.is_account_class(),
        ),
        crate::post_state::change_models(r.1@) == crate::post_state::change_models(v@).filter(
            |c: ChangeModel| is_storage_class(c),
        ),
        sorted_changes(crate::post_state::change_models(r.0@)),
        sorted_changes(crate::post_state::change_models(r.1@)),
        all_wf(r.0@),
        all_wf(r.1@),
{
    let ghost models = crate::post_state::change_models(v@);
    let n = v.len();
    let mut acct: Vec<Change> = Vec::new();
    let mut stor: Vec<Change> = Vec::new();
    let mut idx: usize = 0;
    proof {
        reveal(Seq::filter);
        assert(crate::post_state::change_models(v@.take(0)) =~= Seq::<ChangeModel>::empty());
    }
    while idx < n
        invariant
            n == v@.len(),
            idx <= n,
            models == crate::post_state::change_models(v@),
            sorted_changes(models),
            all_wf(v@),
            crate::post_state::change_models(acct@) == crate::post_state::change_models(
                v@.take(idx as int),
            ).filter(|c: ChangeModel| c.is_account_class()),
            crate::post_state::change_models(stor@) == crate::post_state::change_models(
                v@.take(idx as int),
            ).filter(|c: ChangeModel| is_storage_class(c)),
            forall|i: int|
                0 <= i < acct@.len() ==> exists|m: int|
                    0 <= m < idx && (#[trigger] acct@[i]).view_spec() == models[m],
            forall|i: int|
                0 <= i < stor@.len() ==> exists|m: int|
                    0 <= m < idx && (#[trigger] stor@[i]).view_spec() == models[m],
            sorted_changes(crate::post_state::change_models(acct@)),
            sorted_changes(crate::post_state::change_models(stor@)),
            all_wf(acct@),
            all_wf(stor@),
        decreases n - idx,
    {
        let c = v[idx].duplicate();
        let ghost cm = c.view_spec();
        let ghost pre_take = crate::post_state::change_models(v@.take(idx as int));
        proof {
            reveal(Seq::filter);
            assert(crate::post_state::change_models(v@.take(idx + 1)).drop_last() =~= pre_take);
            assert(crate::post_state::change_models(v@.take(idx + 1)).last() == cm);
            assert(cm == models[idx as int]);
        }
        let account_class = match &c {
            Change::AccountCreated { .. } => true,
            Change::AccountChanged { .. } => true,
            Change::AccountDestroyed { .. } => true,
            Change::StorageChanged { .. } => false,
            Change::StorageWiped { .. } => false,
        };
        if account_class {
            let ghost pre = crate::post_state::change_models(acct@);
            acct.push(c);
            proof {
                assert(crate::post_state::change_models(acct@) =~= pre.push(cm));
                assert forall|i: int, j: int|
                    0 <= i < j < pre.push(cm).len() implies change_key_le(
                    #[trigger] pre.push(cm)[i],
                    #[trigger] pre.push(cm)[j],
                ) by {
                    if j == pre.len() {
                        let m = choose|m: int|
                            0 <= m < idx && (#[trigger] acct@[i]).view_spec() == models[m];
                        assert(change_key_le(models[m], models[idx as int]));
                    }
                }
            }
        } else {
            let ghost pre = crate::post_state::change_models(stor@);
            stor.push(c);
            proof {
                assert(crate::post_state::change_models(stor@) =~= pre.push(cm));
                assert forall|i: int, j: int|
                    0 <= i < j < pre.push(cm).len() implies change_key_le(
                    #[trigger] pre.push(cm)[i],
                    #[trigger] pre.push(cm)[j],
                ) by {
                    if j == pre.len() {
                        let m = choose|m: int|
                            0 <= m < idx && (#[trigger] stor@[i]).view_spec() == models[m];
                        assert(change_key_le(models[m], models[idx as int]));
                    }
                }
            }
        }
        idx = idx + 1;
    }
    proof {
        assert(v@.take(n as int) =~= v@);
    }
    (acct, stor)
}

/// Sorting keeps exactly the same changes.
pub proof fn lemma_sort_spec_multiset(s: Seq<ChangeModel>)
    ensures
        sort_changes_spec(s).to_multiset() == s.to_multiset(),
        sort_changes_spec(s).len() == s.len(),
    decreases s.len(),
{
    broadcast use vstd::seq_lib::group_to_multiset_ensures;

    if s.len() > 0 {
        lemma_sort_spec_multiset(s.drop_last());
        lemma_insert_sorted_multiset(sort_changes_spec(s.drop_last()), s.last());
        assert(s.drop_last().push(s.last()) =~= s);
        assert(s.drop_last().to_multiset().insert(s.last()) == s.to_multiset());
    }
}

/// Every element of a sub-multiset sequence occurs in the original.
pub proof fn lemma_elements_carry(s: Seq<ChangeModel>, t: Seq<ChangeModel>, i: int)
    requires
        forall|x: ChangeModel| #[trigger] t.to_multiset().count(x) <= s.to_multiset().count(x),
        0 <= i < t.len(),
    ensures
        exists|j: int| 0 <= j < s.len() && #[trigger] s[j] == t[i],
{
    broadcast use vstd::seq_lib::group_to_multiset_ensures;

    assert(t.contains(t[i]));
    assert(t.to_multiset().count(t[i]) > 0);
    assert(s.to_multiset().count(t[i]) > 0);
    assert(s.contains(t[i]));
}

/// The account changeset row an account-class change writes: the
/// pre-change account, or nothing for a creation, under the rebased
/// transition key and the address subkey.
pub open spec fn acs_row_of(c: ChangeModel, first: u64) -> (u64, AccountBeforeTx) {
    match c {
        ChangeModel::Created { id, address, .. } => (
            (first + id) as u64,
            AccountBeforeTx { address, info: None },
        ),
        ChangeModel::Changed { id, address, old_info, .. } => (
            (first + id) as u64,
            AccountBeforeTx { address, info: Some(old_info) },
        ),
        ChangeModel::Destroyed { id, address, old_info } => (
            (first + id) as u64,
            AccountBeforeTx { address, info: Some(old_info) },
        ),
        _ => ((first + c.id_spec()) as u64, AccountBeforeTx { address: c.address_spec(), info: None }),
    }
}

/// The rows a stream of account-class changes writes.
pub open spec fn acs_rows(cs: Seq<ChangeModel>, first: u64) -> Seq<(u64, AccountBeforeTx)> {
    cs.map_values(|c: ChangeModel| acs_row_of(c, first))
}

/// The key and subkey of an account changeset row.
pub proof fn lemma_acs_row_shape(c: ChangeModel, first: u64)
    requires
        first + c.id_spec() <= u64::MAX,
    ensures
        acs_row_of(c, first).0 == first + c.id_spec(),
        acs_row_of(c, first).1.address == c.address_spec(),
{
    match c {
        ChangeModel::Created { .. } => {},
        ChangeModel::Changed { .. } => {},
        ChangeModel::SlotsChanged { .. } => {},
        ChangeModel::Wiped { .. } => {},
        ChangeModel::Destroyed { .. } => {},
    }
}

/// The storage changeset rows one storage-class change writes: the prior
/// value of each changed slot, or every live entry for a wipe.
pub open spec fn scs_rows_of(c: ChangeModel, first: u64, pre_entries: Seq<(U256, U256)>) -> Seq<
    (TidAddress, StorageEntry),
> {
    match c {
        ChangeModel::SlotsChanged { id, address, changeset } => changeset.map_values(
            |p: (U256, (U256, U256))|
                (
                    TidAddress { transition: (first + id) as u64, address },
                    StorageEntry { key: H256::from_slot_spec(p.0), value: p.1.0 },
                ),
        ),
        ChangeModel::Wiped { id, address } => pre_entries.map_values(
            |p: (U256, U256)|
                (
                    TidAddress { transition: (first + id) as u64, address },
                    StorageEntry { key: H256::from_slot_spec(p.0), value: p.1 },
                ),
        ),
        _ => Seq::empty(),
    }
}

/// The rows a stream of storage-class changes writes, with wipes reading
/// the entries live in `db0`.
pub open spec fn scs_rows(cs: Seq<ChangeModel>, first: u64, db0: DbTransaction) -> Seq<
    (TidAddress, StorageEntry),
>
    decreases cs.len(),
{
    if cs.len() == 0 {
        Seq::empty()
    } else {
        scs_rows(cs.drop_last(), first, db0) + scs_rows_of(
            cs.last(),
            first,
            db0.entries_view(cs.last().address_spec()),
        )
    }
}

/// The storage rows depend only on the stores' entries.
pub proof fn lemma_scs_rows_entries(
    cs: Seq<ChangeModel>,
    first: u64,
    d1: DbTransaction,
    d2: DbTransaction,
)
    requires
        forall|a: Address| #[trigger] d1.entries_view(a) == d2.entries_view(a),
    ensures
        scs_rows(cs, first, d1) == scs_rows(cs, first, d2),
    decreases cs.len(),
{
    if cs.len() > 0 {
        lemma_scs_rows_entries(cs.drop_last(), first, d1, d2);
    }
}

/// What the plain storage table holds for one account after persisting
/// its cache entry: the staged slots override the base (the prior
/// entries, or nothing after a wipe), and zero-valued slots disappear.
pub open spec fn persisted_slots(base: Map<U256, U256>, staged: Map<U256, U256>) -> Map<
    U256,
    U256,
> {
    Map::new(
        |k: U256|
            if staged.contains_key(k) {
                !staged[k].is_zero_spec()
            } else {
                base.contains_key(k)
            },
        |k: U256|
            if staged.contains_key(k) {
                staged[k]
            } else {
                base[k]
            },
    )
}

/// What the plain account table holds after persisting the account
/// cache: cached accounts overwrite, cached deletions remove, the rest
/// stays.
pub open spec fn persisted_accounts(
    base: Map<Address, Account>,
    cache: Map<Address, Option<Account>>,
) -> Map<Address, Account> {
    Map::new(
        |a: Address|
            if cache.contains_key(a) {
                cache[a] is Some
            } else {
                base.contains_key(a)
            },
        |a: Address|
            if cache.contains_key(a) {
                cache[a]->0
            } else {
                base[a]
            },
    )
}

/// Write the account changeset: one row per account-class change, under
/// the rebased transition key, appended in sorted order.
#[verifier::rlimit(100)]
pub fn write_account_changes(tx: &mut DbTransaction, changes: &Vec<Change>, first: u64)
    requires
        old(tx).wf(),
        sorted_changes(crate::post_state::change_models(changes@)),
        forall|i: int|
            0 <= i < changes@.len() ==> first + (#[trigger] crate::post_state::change_models(
                changes@,
            )[i]).id_spec() <= u64::MAX,
        forall|i: int|
            0 <= i < old(tx).account_cs_view().len() ==> (#[trigger] old(tx).account_cs_view()[
                i
            ]).0 < first,
    ensures
        final(tx).wf(),
        final(tx).account_cs_view() == old(tx).account_cs_view() + acs_rows(
            crate::post_state::change_models(changes@),
            first,
        ),
        final(tx).accounts_view() == old(tx).accounts_view(),
        forall|a: Address| #[trigger] final(tx).entries_view(a) == old(tx).entries_view(a),
        final(tx).bytecodes_view() == old(tx).bytecodes_view(),
        final(tx).storage_cs_view() == old(tx).storage_cs_view(),
        final(tx).account_history_view() == old(tx).account_history_view(),
        final(tx).storage_history_view() == old(tx).storage_history_view(),
{
    let ghost models = crate::post_state::change_models(changes@);
    let ghost base = old(tx).account_cs_view();
    let n = changes.len();
    let mut k: usize = 0;
    proof {
        assert(acs_rows(models.take(0), first) =~= Seq::<(u64, AccountBeforeTx)>::empty());
        assert(tx.account_cs_view() =~= base + acs_rows(models.take(0), first));
    }
    while k < n
        invariant
            n == changes@.len(),
            k <= n,
            models == crate::post_state::change_models(changes@),
            sorted_changes(models),
            forall|i: int| 0 <= i < n ==> first + (#[trigger] models[i]).id_spec() <= u64::MAX,
            forall|i: int| 0 <= i < base.len() ==> (#[trigger] base[i]).0 < first,
            tx.wf(),
            tx.account_cs_view() == base + acs_rows(models.take(k as int), first),
            tx.accounts_view() == old(tx).accounts_view(),
            forall|a: Address| #[trigger] tx.entries_view(a) == old(tx).entries_view(a),
            tx.bytecodes_view() == old(tx).bytecodes_view(),
            tx.storage_cs_view() == old(tx).storage_cs_view(),
            tx.account_history_view() == old(tx).account_history_view(),
            tx.storage_history_view() == old(tx).storage_history_view(),
        decreases n - k,
    {
        let c: &Change = &changes[k];
        proof {
            assert(models[k as int] == c.view_spec());
        }
        let id = c.transition_id();
        let addr = c.address();
        let info: Option<crate::types::Account> = match c {
            Change::AccountCreated { .. } => None,
            Change::AccountChanged { old_info, .. } => Some(*old_info),
            Change::AccountDestroyed { old_info, .. } => Some(*old_info),
            Change::StorageChanged { .. } => None,
            Change::StorageWiped { .. } => None,
        };
        let row = AccountBeforeTx { address: addr, info };
        proof {
            lemma_acs_row_shape(models[k as int], first);
            assert forall|i: int| 0 <= i < tx.account_cs_view().len() implies acs_row_le(
                #[trigger] tx.account_cs_view()[i],
                ((first + id) as u64, row),
            ) by {
                if i < base.len() {
                    assert(tx.account_cs_view()[i] == base[i]);
                } else {
                    let m = i - base.len();
                    assert(tx.account_cs_view()[i] == acs_rows(models.take(k as int), first)[m]);
                    assert(acs_rows(models.take(k as int), first)[m] == acs_row_of(
                        models[m],
                        first,
                    ));
                    lemma_acs_row_shape(models[m], first);
                    assert(change_key_le(models[m], models[k as int]));
                }
            }
        }
        tx.append_dup_account(first + id, row);
        proof {
            assert((((first + id) as u64), row) == acs_row_of(models[k as int], first));
            assert(acs_rows(models.take(k + 1), first) =~= acs_rows(
                models.take(k as int),
                first,
            ).push(acs_row_of(models[k as int], first)));
            assert(tx.account_cs_view() =~= base + acs_rows(models.take(k + 1), first));
        }
        k = k + 1;
    }
    proof {
        assert(models.take(n as int) =~= models);
    }
}

/// Write the latest account state: cached accounts are upserted, cached
/// deletions delete the row if present.
#[verifier::rlimit(100)]
pub fn write_plain_accounts(
    tx: &mut DbTransaction,
    accounts: &crate::alist::AList<Address, Option<Account>>,
)
    requires
        old(tx).wf(),
        accounts.wf(),
    ensures
        final(tx).wf(),
        final(tx).accounts_view() == persisted_accounts(
            old(tx).accounts_view(),
            accounts.map_spec(),
        ),
        forall|a: Address| #[trigger] final(tx).entries_view(a) == old(tx).entries_view(a),
        final(tx).bytecodes_view() == old(tx).bytecodes_view(),
        final(tx).account_cs_view() == old(tx).account_cs_view(),
        final(tx).storage_cs_view() == old(tx).storage_cs_view(),
        final(tx).account_history_view() == old(tx).account_history_view(),
        final(tx).storage_history_view() == old(tx).storage_history_view(),
{
    let ghost cseq = accounts.seq_spec();
    let n = accounts.len();
    let mut k: usize = 0;
    proof {
        accounts.lemma_entries_in_map();
        assert(crate::alist::alist_map(cseq.take(0)) =~= Map::<Address, Option<Account>>::empty());
        assert(tx.accounts_view() =~= persisted_accounts(
            old(tx).accounts_view(),
            crate::alist::alist_map(cseq.take(0)),
        ));
    }
    while k < n
        invariant
            n == cseq.len(),
            k <= n,
            cseq == accounts.seq_spec(),
            accounts.wf(),
            tx.wf(),
            tx.accounts_view() == persisted_accounts(
                old(tx).accounts_view(),
                crate::alist::alist_map(cseq.take(k as int)),
            ),
            forall|a: Address| #[trigger] tx.entries_view(a) == old(tx).entries_view(a),
            tx.bytecodes_view() == old(tx).bytecodes_view(),
            tx.account_cs_view() == old(tx).account_cs_view(),
            tx.storage_cs_view() == old(tx).storage_cs_view(),
            tx.account_history_view() == old(tx).account_history_view(),
            tx.storage_history_view() == old(tx).storage_history_view(),
        decreases n - k,
    {
        let a = accounts.key_at(k);
        proof {
            assert(cseq.take(k + 1).drop_last() =~= cseq.take(k as int));
            crate::alist::lemma_alist_map_push(cseq.take(k as int), cseq[k as int]);
            assert(cseq.take(k + 1) =~= cseq.take(k as int).push(cseq[k as int]));
        }
        let ghost pre = crate::alist::alist_map(cseq.take(k as int));
        match accounts.value_at(k) {
            Some(acct) => {
                let acct = *acct;
                tx.upsert_account(a, acct);
                proof {
                    assert(tx.accounts_view() =~= persisted_accounts(
                        old(tx).accounts_view(),
                        crate::alist::alist_map(cseq.take(k + 1)),
                    ));
                }
            },
            None => {
                tx.delete_account(a);
                proof {
                    assert(tx.accounts_view() =~= persisted_accounts(
                        old(tx).accounts_view(),
                        crate::alist::alist_map(cseq.take(k + 1)),
                    ));
                }
            },
        }
        k = k + 1;
    }
    proof {
        assert(cseq.take(n as int) =~= cseq);
        assert(crate::alist::alist_map(cseq) == accounts.map_spec());
    }
}

/// Write every cached bytecode under its hash.
#[verifier::rlimit(100)]
pub fn write_bytecodes(
    tx: &mut DbTransaction,
    bytecode: &crate::alist::AList<H256, crate::types::Bytecode>,
)
    requires
        old(tx).wf(),
        bytecode.wf(),
    ensures
        final(tx).wf(),
        final(tx).bytecodes_view() == old(tx).bytecodes_view().union_prefer_right(
            crate::post_state::code_models(bytecode.map_spec()),
        ),
        final(tx).accounts_view() == old(tx).accounts_view(),
        forall|a: Address| #[trigger] final(tx).entries_view(a) == old(tx).entries_view(a),
        final(tx).account_cs_view() == old(tx).account_cs_view(),
        final(tx).storage_cs_view() == old(tx).storage_cs_view(),
        final(tx).account_history_view() == old(tx).account_history_view(),
        final(tx).storage_history_view() == old(tx).storage_history_view(),
{
    let ghost cseq = bytecode.seq_spec();
    let n = bytecode.len();
    let mut k: usize = 0;
    proof {
        assert(crate::alist::alist_map(cseq.take(0)) =~= Map::<
            H256,
            crate::types::Bytecode,
        >::empty());
        assert(tx.bytecodes_view() =~= old(tx).bytecodes_view().union_prefer_right(
            crate::post_state::code_models(crate::alist::alist_map(cseq.take(0))),
        ));
    }
    while k < n
        invariant
            n == cseq.len(),
            k <= n,
            cseq == bytecode.seq_spec(),
            bytecode.wf(),
            tx.wf(),
            tx.bytecodes_view() == old(tx).bytecodes_view().union_prefer_right(
                crate::post_state::code_models(crate::alist::alist_map(cseq.take(k as int))),
            ),
            tx.accounts_view() == old(tx).accounts_view(),
            forall|a: Address| #[trigger] tx.entries_view(a) == old(tx).entries_view(a),
            tx.account_cs_view() == old(tx).account_cs_view(),
            tx.storage_cs_view() == old(tx).storage_cs_view(),
            tx.account_history_view() == old(tx).account_history_view(),
            tx.storage_history_view() == old(tx).storage_history_view(),
        decreases n - k,
    {
        let h = bytecode.key_at(k);
        let code = bytecode.value_at(k).duplicate();
        proof {
            assert(cseq.take(k + 1).drop_last() =~= cseq.take(k as int));
            crate::alist::lemma_alist_map_push(cseq.take(k as int), cseq[k as int]);
            assert(cseq.take(k + 1) =~= cseq.take(k as int).push(cseq[k as int]));
            crate::alist::lemma_alist_map_contains(cseq.take(k as int), h);
            assert(forall|x: int|
                0 <= x < k ==> (#[trigger] cseq.take(k as int)[x]).0 == cseq[x].0);
        }
        tx.upsert_bytecode(h, code);
        proof {
            assert(tx.bytecodes_view() =~= old(tx).bytecodes_view().union_prefer_right(
                crate::post_state::code_models(crate::alist::alist_map(cseq.take(k + 1))),
            ));
        }
        k = k + 1;
    }
    proof {
        assert(cseq.take(n as int) =~= cseq);
        assert(crate::alist::alist_map(cseq) == bytecode.map_spec());
    }
}

/// Order bound used while appending storage changeset rows: the row's
/// composite key is strictly before `(t, a)`.
pub open spec fn scs_key_lt(row: (TidAddress, StorageEntry), t: u64, a: Address) -> bool {
    row.0.transition < t || (row.0.transition == t && row.0.address.lt_spec(a))
}

/// Write the latest storage state: for each cached account, wiped
/// storage is cleared, then every staged slot is deleted and, when its
/// value is not zero, upserted. Zero values are never materialized.
#[verifier::rlimit(100)]
pub fn write_plain_storage(
    tx: &mut DbTransaction,
    storage: &crate::alist::AList<Address, crate::post_state::Storage>,
)
    requires
        old(tx).wf(),
        storage.wf(),
        forall|i: int|
            0 <= i < storage.seq_spec().len() ==> (#[trigger] storage.seq_spec()[
                i
            ]).1.storage.wf(),
    ensures
        final(tx).wf(),
        forall|a: Address|
            #[trigger] final(tx).slots_view(a) == if storage.map_spec().contains_key(a) {
                persisted_slots(
                    if storage.map_spec()[a].wiped {
                        Map::<U256, U256>::empty()
                    } else {
                        old(tx).slots_view(a)
                    },
                    storage.map_spec()[a].storage.map_spec(),
                )
            } else {
                old(tx).slots_view(a)
            },
        final(tx).accounts_view() == old(tx).accounts_view(),
        final(tx).bytecodes_view() == old(tx).bytecodes_view(),
        final(tx).account_cs_view() == old(tx).account_cs_view(),
        final(tx).storage_cs_view() == old(tx).storage_cs_view(),
        final(tx).account_history_view() == old(tx).account_history_view(),
        final(tx).storage_history_view() == old(tx).storage_history_view(),
{
    let ghost cseq = storage.seq_spec();
    let n = storage.len();
    let mut k: usize = 0;
    proof {
        storage.lemma_entries_in_map();
        assert(crate::alist::alist_map(cseq.take(0)) =~= Map::<
            Address,
            crate::post_state::Storage,
        >::empty());
    }
    while k < n
        invariant
            n == cseq.len(),
            k <= n,
            cseq == storage.seq_spec(),
            storage.wf(),
            forall|i: int| 0 <= i < cseq.len() ==> (#[trigger] cseq[i]).1.storage.wf(),
            tx.wf(),
            forall|a: Address|
                #[trigger] tx.slots_view(a) == if crate::alist::alist_map(
                    cseq.take(k as int),
                ).contains_key(a) {
                    persisted_slots(
                        if crate::alist::alist_map(cseq.take(k as int))[a].wiped {
                            Map::<U256, U256>::empty()
                        } else {
                            old(tx).slots_view(a)
                        },
                        crate::alist::alist_map(cseq.take(k as int))[a].storage.map_spec(),
                    )
                } else {
                    old(tx).slots_view(a)
                },
            forall|a: Address|
                !crate::alist::alist_map(cseq.take(k as int)).contains_key(a)
                    ==> #[trigger] tx.entries_view(a) == old(tx).entries_view(a),
            tx.accounts_view() == old(tx).accounts_view(),
            tx.bytecodes_view() == old(tx).bytecodes_view(),
            tx.account_cs_view() == old(tx).account_cs_view(),
            tx.storage_cs_view() == old(tx).storage_cs_view(),
            tx.account_history_view() == old(tx).account_history_view(),
            tx.storage_history_view() == old(tx).storage_history_view(),
        decreases n - k,
    {
        let a = storage.key_at(k);
        let ghost processed = crate::alist::alist_map(cseq.take(k as int));
        proof {
            crate::alist::lemma_alist_map_contains(cseq.take(k as int), a);
            assert(forall|x: int|
                0 <= x < k ==> (#[trigger] cseq.take(k as int)[x]).0 == cseq[x].0);
            assert(!processed.contains_key(a)) by {
                if exists|x: int| 0 <= x < k && (#[trigger] cseq.take(k as int)[x]).0 == a {
                    let x = choose|x: int|
                        0 <= x < k && (#[trigger] cseq.take(k as int)[x]).0 == a;
                    assert(cseq[x].0 == cseq[k as int].0);
                }
            }
            assert(tx.slots_view(a) == old(tx).slots_view(a));
            assert(tx.entries_view(a) == old(tx).entries_view(a));
            assert(cseq.take(k + 1).drop_last() =~= cseq.take(k as int));
            crate::alist::lemma_alist_map_push(cseq.take(k as int), cseq[k as int]);
            assert(cseq.take(k + 1) =~= cseq.take(k as int).push(cseq[k as int]));
        }
        let ghost osnap = Map::<Address, Seq<(U256, U256)>>::new(
            |x: Address| true,
            |x: Address| tx.entries_view(x),
        );
        proof {
            assert forall|x: Address| x != a implies osnap[x] == tx.entries_view(x) by {
            }
            assert forall|x: Address|
                x != a && crate::alist::alist_map(cseq.take(k as int)).contains_key(x) implies
                crate::alist::alist_map(osnap[x]) == persisted_slots(
                if crate::alist::alist_map(cseq.take(k as int))[x].wiped {
                    Map::<U256, U256>::empty()
                } else {
                    old(tx).slots_view(x)
                },
                crate::alist::alist_map(cseq.take(k as int))[x].storage.map_spec(),
            ) by {
                assert(osnap[x] == tx.entries_view(x));
                assert(tx.slots_view(x) == crate::alist::alist_map(osnap[x]));
            }
            assert forall|x: Address|
                x != a && !crate::alist::alist_map(cseq.take(k as int)).contains_key(x) implies
                osnap[x] == old(tx).entries_view(x) by {
                assert(osnap[x] == tx.entries_view(x));
            }
        }
        let wiped = storage.value_at(k).wiped;
        if wiped {
            tx.delete_all_storage(&a);
            proof {
                crate::alist::lemma_alist_map_contains(tx.entries_view(a), U256 { hi: 0, lo: 0 });
                assert(tx.slots_view(a) =~= Map::<U256, U256>::empty());
            }
        }
        let ghost base = if wiped {
            Map::<U256, U256>::empty()
        } else {
            old(tx).slots_view(a)
        };
        proof {
            if wiped {
                assert forall|s2: U256| !(#[trigger] tx.slots_view(a).contains_key(s2)) by {
                    crate::alist::lemma_alist_map_contains(tx.entries_view(a), s2);
                }
                assert(tx.slots_view(a) =~= base);
            }
            assert(tx.slots_view(a) == base);
        }
        let ghost sseq = cseq[k as int].1.storage.seq_spec();
        let m = storage.value_at(k).storage.len();
        let mut j: usize = 0;
        proof {
            assert(crate::alist::alist_map(sseq.take(0)) =~= Map::<U256, U256>::empty());
            assert(tx.slots_view(a) =~= persisted_slots(
                base,
                crate::alist::alist_map(sseq.take(0)),
            ));
            assert forall|x: Address| x != a implies (#[trigger] tx.entries_view(x))
                == osnap[x] by {
            }
            assert forall|x: Address|
                x != a && !crate::alist::alist_map(cseq.take(k as int)).contains_key(x) implies (
            #[trigger] tx.entries_view(x)) == old(tx).entries_view(x) by {
                assert(tx.entries_view(x) == osnap[x]);
            }
            assert forall|x: Address|
                x != a && crate::alist::alist_map(cseq.take(k as int)).contains_key(x) implies (
            #[trigger] tx.slots_view(x)) == persisted_slots(
                if crate::alist::alist_map(cseq.take(k as int))[x].wiped {
                    Map::<U256, U256>::empty()
                } else {
                    old(tx).slots_view(x)
                },
                crate::alist::alist_map(cseq.take(k as int))[x].storage.map_spec(),
            ) by {
                assert(tx.entries_view(x) == osnap[x]);
                assert(tx.slots_view(x) == crate::alist::alist_map(osnap[x]));
            }
        }
        while j < m
            invariant
                m == sseq.len(),
                j <= m,
                sseq == storage.seq_spec()[k as int].1.storage.seq_spec(),
                k < storage.seq_spec().len(),
                storage.wf(),
                crate::slots::slot_sorted(sseq),
                tx.wf(),
                cseq == storage.seq_spec(),
                a == cseq[k as int].0,
                tx.slots_view(a) == persisted_slots(
                    base,
                    crate::alist::alist_map(sseq.take(j as int)),
                ),
                forall|x: Address|
                    x != a && !crate::alist::alist_map(cseq.take(k as int)).contains_key(x)
                        ==> #[trigger] tx.entries_view(x) == old(tx).entries_view(x),
                forall|x: Address|
                    x != a && crate::alist::alist_map(cseq.take(k as int)).contains_key(x)
                        ==> #[trigger] tx.slots_view(x) == persisted_slots(
                        if crate::alist::alist_map(cseq.take(k as int))[x].wiped {
                            Map::<U256, U256>::empty()
                        } else {
                            old(tx).slots_view(x)
                        },
                        crate::alist::alist_map(cseq.take(k as int))[x].storage.map_spec(),
                    ),
                tx.accounts_view() == old(tx).accounts_view(),
                tx.bytecodes_view() == old(tx).bytecodes_view(),
                tx.account_cs_view() == old(tx).account_cs_view(),
                tx.storage_cs_view() == old(tx).storage_cs_view(),
                tx.account_history_view() == old(tx).account_history_view(),
                tx.storage_history_view() == old(tx).storage_history_view(),
            decreases m - j,
        {
            let e = storage.value_at(k).storage.entry_at(j);
            let ghost snap = Map::<Address, Seq<(U256, U256)>>::new(
                |x: Address| true,
                |x: Address| tx.entries_view(x),
            );
            proof {
                assert forall|x: Address| x != a implies snap[x] == tx.entries_view(x) by {
                }
                assert forall|x: Address|
                    x != a && crate::alist::alist_map(cseq.take(k as int)).contains_key(
                        x,
                    ) implies crate::alist::alist_map(snap[x]) == persisted_slots(
                    if crate::alist::alist_map(cseq.take(k as int))[x].wiped {
                        Map::<U256, U256>::empty()
                    } else {
                        old(tx).slots_view(x)
                    },
                    crate::alist::alist_map(cseq.take(k as int))[x].storage.map_spec(),
                ) by {
                    assert(snap[x] == tx.entries_view(x));
                    assert(tx.slots_view(x) == crate::alist::alist_map(snap[x]));
                }
                assert forall|x: Address|
                    x != a && !crate::alist::alist_map(cseq.take(k as int)).contains_key(
                        x,
                    ) implies snap[x] == old(tx).entries_view(x) by {
                    assert(snap[x] == tx.entries_view(x));
                }
                assert(sseq.take(j + 1).drop_last() =~= sseq.take(j as int));
                crate::alist::lemma_alist_map_push(sseq.take(j as int), sseq[j as int]);
                assert(sseq.take(j + 1) =~= sseq.take(j as int).push(sseq[j as int]));
            }
            let ghost pre = crate::alist::alist_map(sseq.take(j as int));
            tx.delete_storage_slot(&a, &e.0);
            if !e.1.is_zero() {
                tx.upsert_storage(a, e.0, e.1);
            }
            proof {
                assert(crate::alist::alist_map(sseq.take(j + 1)) == pre.insert(e.0, e.1));
                let target = persisted_slots(base, pre.insert(e.0, e.1));
                if e.1.is_zero_spec() {
                    assert(tx.slots_view(a) == persisted_slots(base, pre).remove(e.0));
                } else {
                    assert(tx.slots_view(a) == persisted_slots(base, pre).remove(e.0).insert(
                        e.0,
                        e.1,
                    ));
                }
                assert forall|k2: U256|
                    tx.slots_view(a).contains_key(k2) == target.contains_key(k2) && (
                    target.contains_key(k2) ==> tx.slots_view(a)[k2] == target[k2]) by {
                    if k2 == e.0 {
                    } else {
                    }
                }
                assert(tx.slots_view(a) =~= target);
                assert forall|x: Address| x != a implies (#[trigger] tx.entries_view(x))
                    == snap[x] by {
                }
                assert forall|x: Address|
                    x != a && !crate::alist::alist_map(cseq.take(k as int)).contains_key(
                        x,
                    ) implies (#[trigger] tx.entries_view(x)) == old(tx).entries_view(x) by {
                    assert(snap[x] == old(tx).entries_view(x));
                }
                assert forall|x: Address|
                    x != a && crate::alist::alist_map(cseq.take(k as int)).contains_key(
                        x,
                    ) implies (#[trigger] tx.slots_view(x)) == persisted_slots(
                    if crate::alist::alist_map(cseq.take(k as int))[x].wiped {
                        Map::<U256, U256>::empty()
                    } else {
                        old(tx).slots_view(x)
                    },
                    crate::alist::alist_map(cseq.take(k as int))[x].storage.map_spec(),
                ) by {
                    assert(tx.entries_view(x) == snap[x]);
                    assert(tx.slots_view(x) == crate::alist::alist_map(snap[x]));
                }
            }
            j = j + 1;
        }
        proof {
            assert(sseq.take(m as int) =~= sseq);
            assert(crate::alist::alist_map(sseq) == cseq[k as int].1.storage.map_spec());
            assert forall|x: Address|
                #[trigger] tx.slots_view(x) == if crate::alist::alist_map(
                    cseq.take(k + 1),
                ).contains_key(x) {
                    persisted_slots(
                        if crate::alist::alist_map(cseq.take(k + 1))[x].wiped {
                            Map::<U256, U256>::empty()
                        } else {
                            old(tx).slots_view(x)
                        },
                        crate::alist::alist_map(cseq.take(k + 1))[x].storage.map_spec(),
                    )
                } else {
                    old(tx).slots_view(x)
                } by {
                if x == a {
                    assert(crate::alist::alist_map(cseq.take(k + 1))[x] == cseq[k as int].1);
                } else {
                    assert(crate::alist::alist_map(cseq.take(k + 1)).contains_key(x)
                        == crate::alist::alist_map(cseq.take(k as int)).contains_key(x));
                }
            }
        }
        k = k + 1;
    }
    proof {
        assert(cseq.take(n as int) =~= cseq);
        assert(crate::alist::alist_map(cseq) == storage.map_spec());
    }
}

/// Write the storage changeset: for each changed slot its prior value,
/// and for each wipe every entry live in the store, all appended under
/// the rebased composite key in sorted order.
#[verifier::rlimit(100)]
pub fn write_storage_changes(tx: &mut DbTransaction, changes: &Vec<Change>, first: u64)
    requires
        old(tx).wf(),
        sorted_changes(crate::post_state::change_models(changes@)),
        storage_keys_distinct(crate::post_state::change_models(changes@)),
        forall|i: int|
            0 <= i < changes@.len() ==> is_storage_class(
                #[trigger] crate::post_state::change_models(changes@)[i],
            ),
        all_wf(changes@),
        forall|i: int|
            0 <= i < changes@.len() ==> first + (#[trigger] crate::post_state::change_models(
                changes@,
            )[i]).id_spec() <= u64::MAX,
        forall|i: int|
            0 <= i < old(tx).storage_cs_view().len() ==> (#[trigger] old(tx).storage_cs_view()[
                i
            ]).0.transition < first,
    ensures
        final(tx).wf(),
        final(tx).storage_cs_view() == old(tx).storage_cs_view() + scs_rows(
            crate::post_state::change_models(changes@),
            first,
            *old(tx),
        ),
        final(tx).accounts_view() == old(tx).accounts_view(),
        forall|a: Address| #[trigger] final(tx).entries_view(a) == old(tx).entries_view(a),
        final(tx).bytecodes_view() == old(tx).bytecodes_view(),
        final(tx).account_cs_view() == old(tx).account_cs_view(),
        final(tx).account_history_view() == old(tx).account_history_view(),
        final(tx).storage_history_view() == old(tx).storage_history_view(),
{
    let ghost models = crate::post_state::change_models(changes@);
    let ghost base = old(tx).storage_cs_view();
    let ghost db0 = *old(tx);
    let n = changes.len();
    let mut k: usize = 0;
    proof {
        assert(scs_rows(models.take(0), first, db0) =~= Seq::<(TidAddress, StorageEntry)>::empty());
        assert(tx.storage_cs_view() =~= base + scs_rows(models.take(0), first, db0));
    }
    while k < n
        invariant
            n == changes@.len(),
            k <= n,
            models == crate::post_state::change_models(changes@),
            db0 == *old(tx),
            base == old(tx).storage_cs_view(),
            sorted_changes(models),
            storage_keys_distinct(models),
            forall|i: int| 0 <= i < n ==> is_storage_class(#[trigger] models[i]),
            all_wf(changes@),
            forall|i: int| 0 <= i < n ==> first + (#[trigger] models[i]).id_spec() <= u64::MAX,
            forall|i: int| 0 <= i < base.len() ==> (#[trigger] base[i]).0.transition < first,
            tx.wf(),
            tx.storage_cs_view() == base + scs_rows(models.take(k as int), first, db0),
            (k < n ==> forall|i: int|
                0 <= i < tx.storage_cs_view().len() ==> scs_key_lt(
                    #[trigger] tx.storage_cs_view()[i],
                    (first + models[k as int].id_spec()) as u64,
                    models[k as int].address_spec(),
                )),
            tx.accounts_view() == old(tx).accounts_view(),
            forall|a: Address| #[trigger] tx.entries_view(a) == old(tx).entries_view(a),
            tx.bytecodes_view() == old(tx).bytecodes_view(),
            tx.account_cs_view() == old(tx).account_cs_view(),
            tx.account_history_view() == old(tx).account_history_view(),
            tx.storage_history_view() == old(tx).storage_history_view(),
        decreases n - k,
    {
        let c: &Change = &changes[k];
        proof {
            assert(models[k as int] == c.view_spec());
        }
        let id = c.transition_id();
        let addr = c.address();
        let key = TidAddress { transition: first + id, address: addr };
        let ghost pre_ent = tx.entries_view(addr);
        let ghost rows_of = scs_rows_of(models[k as int], first, pre_ent);
        let ghost prefix = tx.storage_cs_view();
        match c {
            Change::StorageChanged { changeset, .. } => {
                let ghost cs = changeset.seq_spec();
                let m = changeset.len();
                let mut j: usize = 0;
                proof {
                    assert(rows_of == cs.map_values(
                        |p: (U256, (U256, U256))|
                            (
                                TidAddress {
                                    transition: (first + models[k as int].id_spec()) as u64,
                                    address: models[k as int].address_spec(),
                                },
                                StorageEntry { key: H256::from_slot_spec(p.0), value: p.1.0 },
                            ),
                    ));
                    assert(rows_of.take(0) =~= Seq::<(TidAddress, StorageEntry)>::empty());
                    assert(tx.storage_cs_view() =~= prefix + rows_of.take(0));
                }
                while j < m
                    invariant
                        m == cs.len(),
                        j <= m,
                        cs == crate::slots::SlotList::seq_spec(*changeset),
                        crate::slots::slot_sorted(cs),
                        rows_of.len() == cs.len(),
                        forall|i: int|
                            0 <= i < cs.len() ==> (#[trigger] rows_of[i]) == (
                                TidAddress { transition: key.transition, address: key.address },
                                StorageEntry {
                                    key: H256::from_slot_spec(cs[i].0),
                                    value: cs[i].1.0,
                                },
                            ),
                        key.transition == first + models[k as int].id_spec(),
                        key.address == models[k as int].address_spec(),
                        tx.wf(),
                        tx.storage_cs_view() == prefix + rows_of.take(j as int),
                        prefix.len() <= tx.storage_cs_view().len(),
                        forall|i: int|
                            0 <= i < prefix.len() ==> scs_key_lt(
                                #[trigger] prefix[i],
                                key.transition,
                                key.address,
                            ),
                        tx.accounts_view() == old(tx).accounts_view(),
                        forall|a: Address|
                            #[trigger] tx.entries_view(a) == old(tx).entries_view(a),
                        tx.bytecodes_view() == old(tx).bytecodes_view(),
                        tx.account_cs_view() == old(tx).account_cs_view(),
                        tx.account_history_view() == old(tx).account_history_view(),
                        tx.storage_history_view() == old(tx).storage_history_view(),
                    decreases m - j,
                {
                    let e = changeset.entry_at(j);
                    let entry = StorageEntry { key: H256::from_slot(&e.0), value: e.1.0 };
                    proof {
                        assert forall|i: int|
                            0 <= i < tx.storage_cs_view().len() implies scs_row_le(
                            #[trigger] tx.storage_cs_view()[i],
                            (key, entry),
                        ) by {
                            if i < prefix.len() {
                                assert(tx.storage_cs_view()[i] == prefix[i]);
                            } else {
                                let p = i - prefix.len();
                                assert(tx.storage_cs_view()[i] == rows_of.take(j as int)[p]);
                                assert(rows_of[p] == (
                                    TidAddress {
                                        transition: key.transition,
                                        address: key.address,
                                    },
                                    StorageEntry {
                                        key: H256::from_slot_spec(cs[p].0),
                                        value: cs[p].1.0,
                                    },
                                ));
                                if p < j {
                                    crate::slots::lemma_slot_sorted_total(cs, p, j as int);
                                }
                            }
                        }
                    }
                    tx.append_dup_storage(key, entry);
                    proof {
                        assert((key, entry) == rows_of[j as int]);
                        assert(rows_of.take(j + 1) =~= rows_of.take(j as int).push(
                            rows_of[j as int],
                        ));
                        assert(tx.storage_cs_view() =~= prefix + rows_of.take(j + 1));
                    }
                    j = j + 1;
                }
                proof {
                    assert(rows_of.take(m as int) =~= rows_of);
                }
            },
            Change::StorageWiped { .. } => {
                let entries = tx.storage_entries(&addr);
                let ghost cs = entries.seq_spec();
                let m = entries.len();
                let mut j: usize = 0;
                proof {
                    assert(cs == pre_ent);
                    assert(rows_of == cs.map_values(
                        |p: (U256, U256)|
                            (
                                TidAddress {
                                    transition: (first + models[k as int].id_spec()) as u64,
                                    address: models[k as int].address_spec(),
                                },
                                StorageEntry { key: H256::from_slot_spec(p.0), value: p.1 },
                            ),
                    ));
                    assert(rows_of.take(0) =~= Seq::<(TidAddress, StorageEntry)>::empty());
                    assert(tx.storage_cs_view() =~= prefix + rows_of.take(0));
                }
                while j < m
                    invariant
                        m == cs.len(),
                        j <= m,
                        cs == crate::slots::SlotList::seq_spec(entries),
                        crate::slots::slot_sorted(cs),
                        rows_of.len() == cs.len(),
                        forall|i: int|
                            0 <= i < cs.len() ==> (#[trigger] rows_of[i]) == (
                                TidAddress { transition: key.transition, address: key.address },
                                StorageEntry {
                                    key: H256::from_slot_spec(cs[i].0),
                                    value: cs[i].1,
                                },
                            ),
                        key.transition == first + models[k as int].id_spec(),
                        key.address == models[k as int].address_spec(),
                        tx.wf(),
                        tx.storage_cs_view() == prefix + rows_of.take(j as int),
                        prefix.len() <= tx.storage_cs_view().len(),
                        forall|i: int|
                            0 <= i < prefix.len() ==> scs_key_lt(
                                #[trigger] prefix[i],
                                key.transition,
                                key.address,
                            ),
                        tx.accounts_view() == old(tx).accounts_view(),
                        forall|a: Address|
                            #[trigger] tx.entries_view(a) == old(tx).entries_view(a),
                        tx.bytecodes_view() == old(tx).bytecodes_view(),
                        tx.account_cs_view() == old(tx).account_cs_view(),
                        tx.account_history_view() == old(tx).account_history_view(),
                        tx.storage_history_view() == old(tx).storage_history_view(),
                    decreases m - j,
                {
                    let e = entries.entry_at(j);
                    let entry = StorageEntry { key: H256::from_slot(&e.0), value: e.1 };
                    proof {
                        assert forall|i: int|
                            0 <= i < tx.storage_cs_view().len() implies scs_row_le(
                            #[trigger] tx.storage_cs_view()[i],
                            (key, entry),
                        ) by {
                            if i < prefix.len() {
                                assert(tx.storage_cs_view()[i] == prefix[i]);
                            } else {
                                let p = i - prefix.len();
                                assert(tx.storage_cs_view()[i] == rows_of.take(j as int)[p]);
                                assert(rows_of[p] == (
                                    TidAddress {
                                        transition: key.transition,
                                        address: key.address,
                                    },
                                    StorageEntry {
                                        key: H256::from_slot_spec(cs[p].0),
                                        value: cs[p].1,
                                    },
                                ));
                                if p < j {
                                    crate::slots::lemma_slot_sorted_total(cs, p, j as int);
                                }
                            }
                        }
                    }
                    tx.append_dup_storage(key, entry);
                    proof {
                        assert((key, entry) == rows_of[j as int]);
                        assert(rows_of.take(j + 1) =~= rows_of.take(j as int).push(
                            rows_of[j as int],
                        ));
                        assert(tx.storage_cs_view() =~= prefix + rows_of.take(j + 1));
                    }
                    j = j + 1;
                }
                proof {
                    assert(rows_of.take(m as int) =~= rows_of);
                }
            },
            Change::AccountCreated { .. } => {
                proof {
                    assert(false);
                }
            },
            Change::AccountChanged { .. } => {
                proof {
                    assert(false);
                }
            },
            Change::AccountDestroyed { .. } => {
                proof {
                    assert(false);
                }
            },
        }
        proof {
            assert(models.take(k + 1).drop_last() =~= models.take(k as int));
            assert(models.take(k + 1).last() == models[k as int]);
            assert(pre_ent == db0.entries_view(models[k as int].address_spec()));
            assert(tx.storage_cs_view() =~= base + scs_rows(models.take(k + 1), first, db0));
            if k + 1 < n {
                assert(change_key_le(models[k as int], models[k + 1]));
                assert(!(models[k as int].id_spec() == models[k + 1].id_spec() && models[
                    k as int
                ].address_spec() == models[k + 1].address_spec()));
                assert forall|i: int| 0 <= i < tx.storage_cs_view().len() implies scs_key_lt(
                    #[trigger] tx.storage_cs_view()[i],
                    (first + models[k + 1].id_spec()) as u64,
                    models[k + 1].address_spec(),
                ) by {
                    if i < prefix.len() {
                        assert(tx.storage_cs_view()[i] == prefix[i]);
                        assert(scs_key_lt(
                            prefix[i],
                            (first + models[k as int].id_spec()) as u64,
                            models[k as int].address_spec(),
                        ));
                    } else {
                        let p = i - prefix.len();
                        assert(tx.storage_cs_view()[i] == rows_of[p]);
                    }
                }
            }
        }
        k = k + 1;
    }
    proof {
        assert(models.take(n as int) =~= models);
    }
}

/// Wipe capture: the rows a storage-class stream writes include, for
/// every wipe in it, every entry live in the store for the wiped account
/// at the wipe's rebased key.
pub proof fn lemma_wipe_capture(
    cs: Seq<ChangeModel>,
    first: u64,
    db0: DbTransaction,
    i: int,
    j: int,
)
    requires
        0 <= i < cs.len(),
        cs[i] is Wiped,
        0 <= j < db0.entries_view(cs[i].address_spec()).len(),
    ensures
        scs_rows(cs, first, db0).contains(
            (
                TidAddress {
                    transition: (first + cs[i].id_spec()) as u64,
                    address: cs[i].address_spec(),
                },
                StorageEntry {
                    key: H256::from_slot_spec(db0.entries_view(cs[i].address_spec())[j].0),
                    value: db0.entries_view(cs[i].address_spec())[j].1,
                },
            ),
        ),
    decreases cs.len(),
{
    let row = (
        TidAddress {
            transition: (first + cs[i].id_spec()) as u64,
            address: cs[i].address_spec(),
        },
        StorageEntry {
            key: H256::from_slot_spec(db0.entries_view(cs[i].address_spec())[j].0),
            value: db0.entries_view(cs[i].address_spec())[j].1,
        },
    );
    let pre = scs_rows(cs.drop_last(), first, db0);
    let tail = scs_rows_of(cs.last(), first, db0.entries_view(cs.last().address_spec()));
    if i == cs.len() - 1 {
        assert(tail[j] == row);
        assert(scs_rows(cs, first, db0)[pre.len() + j] == row);
    } else {
        assert(cs.drop_last()[i] == cs[i]);
        lemma_wipe_capture(cs.drop_last(), first, db0, i, j);
        let m = choose|m: int| 0 <= m < pre.len() && pre[m] == row;
        assert(scs_rows(cs, first, db0)[m] == row);
    }
}

/// Round trip of changed slots: the rows a storage-class stream writes
/// include, for every changed slot, a row holding its prior value at the
/// change's rebased key.
pub proof fn lemma_changed_slot_persisted(
    cs: Seq<ChangeModel>,
    first: u64,
    db0: DbTransaction,
    i: int,
    j: int,
)
    requires
        0 <= i < cs.len(),
        cs[i] is SlotsChanged,
        0 <= j < cs[i]->SlotsChanged_changeset.len(),
    ensures
        scs_rows(cs, first, db0).contains(
            (
                TidAddress {
                    transition: (first + cs[i].id_spec()) as u64,
                    address: cs[i].address_spec(),
                },
                StorageEntry {
                    key: H256::from_slot_spec(cs[i]->SlotsChanged_changeset[j].0),
                    value: cs[i]->SlotsChanged_changeset[j].1.0,
                },
            ),
        ),
    decreases cs.len(),
{
    let row = (
        TidAddress {
            transition: (first + cs[i].id_spec()) as u64,
            address: cs[i].address_spec(),
        },
        StorageEntry {
            key: H256::from_slot_spec(cs[i]->SlotsChanged_changeset[j].0),
            value: cs[i]->SlotsChanged_changeset[j].1.0,
        },
    );
    let pre = scs_rows(cs.drop_last(), first, db0);
    let tail = scs_rows_of(cs.last(), first, db0.entries_view(cs.last().address_spec()));
    if i == cs.len() - 1 {
        assert(tail[j] == row);
        assert(scs_rows(cs, first, db0)[pre.len() + j] == row);
    } else {
        assert(cs.drop_last()[i] == cs[i]);
        lemma_changed_slot_persisted(cs.drop_last(), first, db0, i, j);
        let m = choose|m: int| 0 <= m < pre.len() && pre[m] == row;
        assert(scs_rows(cs, first, db0)[m] == row);
    }
}

/// Round trip of account changes: every account-class change of a
/// journal lands its row (the pre-change state, keyed by the rebased
/// transition) in the rows the sorted, partitioned stream writes.
pub proof fn lemma_account_change_persisted(cs: Seq<ChangeModel>, first: u64, i: int)
    requires
        0 <= i < cs.len(),
        cs[i].is_account_class(),
    ensures
        acs_rows(
            sort_changes_spec(cs).filter(|c: ChangeModel| c.is_account_class()),
            first,
        ).contains(acs_row_of(cs[i], first)),
{
    broadcast use vstd::seq_lib::group_to_multiset_ensures;

    let sorted = sort_changes_spec(cs);
    lemma_sort_spec_multiset(cs);
    assert(cs.contains(cs[i]));
    assert(cs.to_multiset().count(cs[i]) > 0);
    assert(sorted.to_multiset().count(cs[i]) > 0);
    assert(sorted.contains(cs[i]));
    let m = choose|m: int| 0 <= m < sorted.len() && sorted[m] == cs[i];
    sorted.lemma_filter_contains(|c: ChangeModel| c.is_account_class(), m);
    let part = sorted.filter(|c: ChangeModel| c.is_account_class());
    let p = choose|p: int| 0 <= p < part.len() && part[p] == cs[i];
    assert(acs_rows(part, first)[p] == acs_row_of(cs[i], first));
}

} // verus!
