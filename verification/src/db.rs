//! An in-memory transactional store implementing the abstract cursor
//! contract the persistence protocol needs: plain (latest-value) tables
//! for accounts, storage and bytecodes, append-ordered duplicate-key
//! changeset tables, and the history indexes the read path walks.
//!
//! Append-ordered means what a dup-sort table's append path demands:
//! every appended key (and subkey under an equal key) arrives
//! non-decreasing.

use crate::alist::{AList, AListKey};
use crate::slots::SlotList;
use crate::types::{Account, Address, Bytecode, StorageEntry, H256, U256};
use vstd::prelude::*;

verus! {

/// The state of an account before a transition changed it; the value of
/// the account changeset table, sub-keyed by address.
#[derive(Clone, Copy, Debug, PartialEq, Eq)]
pub struct AccountBeforeTx {
    /// The changed account's address.
    pub address: Address,
    /// The account before the change; absent when the change created it.
    pub info: Option<Account>,
}

/// The composite key of the storage changeset table: a global transition
/// id and an address.
#[derive(Clone, Copy, Debug, PartialEq, Eq, Structural)]
pub struct TidAddress {
    /// The global transition id.
    pub transition: u64,
    /// The address.
    pub address: Address,
}

/// Order of account changeset rows: by key, then by address subkey.
pub open spec fn acs_row_le(a: (u64, AccountBeforeTx), b: (u64, AccountBeforeTx)) -> bool {
    a.0 < b.0 || (a.0 == b.0 && (a.1.address.lt_spec(b.1.address) || a.1.address == b.1.address))
}

/// Order of storage changeset rows: by transition, address, then slot
/// subkey.
pub open spec fn scs_row_le(a: (TidAddress, StorageEntry), b: (TidAddress, StorageEntry)) -> bool {
    a.0.transition < b.0.transition || (a.0.transition == b.0.transition && (
    a.0.address.lt_spec(b.0.address) || (a.0.address == b.0.address && (a.1.key.hi < b.1.key.hi
        || (a.1.key.hi == b.1.key.hi && a.1.key.lo <= b.1.key.lo)))))
}

/// A row sequence is append-ordered.
pub open spec fn acs_ordered(s: Seq<(u64, AccountBeforeTx)>) -> bool {
    forall|i: int, j: int| 0 <= i < j < s.len() ==> acs_row_le(#[trigger] s[i], #[trigger] s[j])
}

/// A row sequence is append-ordered.
pub open spec fn scs_ordered(s: Seq<(TidAddress, StorageEntry)>) -> bool {
    forall|i: int, j: int| 0 <= i < j < s.len() ==> scs_row_le(#[trigger] s[i], #[trigger] s[j])
}

/// A transition list is strictly increasing.
pub open spec fn tids_sorted(s: Seq<u64>) -> bool {
    forall|i: int, j: int| 0 <= i < j < s.len() ==> #[trigger] s[i] < #[trigger] s[j]
}

/// No zero value is materialized in plain storage.
pub open spec fn zero_free(d: DbTransaction) -> bool {
    forall|a: Address, s: U256|
        d.slots_view(a).contains_key(s) ==> !(#[trigger] d.slots_view(a)[s]).is_zero_spec()
}

/// Zero-freedom carries over when the storage entries are unchanged.
pub proof fn lemma_zero_free_transfer(a: DbTransaction, b: DbTransaction)
    requires
        zero_free(a),
        forall|x: Address| #[trigger] b.entries_view(x) == a.entries_view(x),
    ensures
        zero_free(b),
{
    assert forall|x: Address, s: U256| b.slots_view(x).contains_key(s) implies !(
    #[trigger] b.slots_view(x)[s]).is_zero_spec() by {
        assert(b.entries_view(x) == a.entries_view(x));
        assert(a.slots_view(x).contains_key(s));
    }
}

/// A key of the storage history index: an address and one of its slots.
#[derive(Clone, Copy, Debug, PartialEq, Eq, Structural)]
pub struct AddressSlot {
    /// The account's address.
    pub address: Address,
    /// The storage slot key.
    pub slot: U256,
}

impl AListKey for AddressSlot {
    fn key_eq(&self, other: &Self) -> (r: bool)
        ensures
            r == (*self == *other),
    {
        self.address.hi == other.address.hi && self.address.lo == other.address.lo
            && self.slot.hi == other.slot.hi && self.slot.lo == other.slot.lo
    }
}

/// One write transaction over the store. All tables live in memory; the
/// caller owns the transaction's lifetime and drops it to roll back.
pub struct DbTransaction {
    plain_accounts: AList<Address, Account>,
    plain_storage: AList<Address, SlotList<U256>>,
    bytecodes: AList<H256, Bytecode>,
    account_cs: Vec<(u64, AccountBeforeTx)>,
    storage_cs: Vec<(TidAddress, StorageEntry)>,
    account_history: AList<Address, Vec<u64>>,
    storage_history: AList<AddressSlot, Vec<u64>>,
}

impl DbTransaction {
    /// The latest account state.
    pub closed spec fn accounts_view(self) -> Map<Address, Account> {
        self.plain_accounts.map_spec()
    }

    /// The latest storage entries of `a`, in ascending slot order; empty
    /// when the address has none.
    pub closed spec fn entries_view(self, a: Address) -> Seq<(U256, U256)> {
        if self.plain_storage.map_spec().contains_key(a) {
            self.plain_storage.map_spec()[a].seq_spec()
        } else {
            Seq::empty()
        }
    }

    /// The latest storage of `a` as a map.
    pub open spec fn slots_view(self, a: Address) -> Map<U256, U256> {
        crate::alist::alist_map(self.entries_view(a))
    }

    /// The bytecode table.
    pub closed spec fn bytecodes_view(self) -> Map<H256, Seq<u8>> {
        crate::post_state::code_models(self.bytecodes.map_spec())
    }

    /// The account changeset rows, in append order.
    pub closed spec fn account_cs_view(self) -> Seq<(u64, AccountBeforeTx)> {
        self.account_cs@
    }

    /// The storage changeset rows, in append order.
    pub closed spec fn storage_cs_view(self) -> Seq<(TidAddress, StorageEntry)> {
        self.storage_cs@
    }

    /// The account history index.
    pub closed spec fn account_history_view(self) -> Map<Address, Seq<u64>> {
        Map::new(
            |a: Address| self.account_history.map_spec().contains_key(a),
            |a: Address| self.account_history.map_spec()[a]@,
        )
    }

    /// The storage history index.
    pub closed spec fn storage_history_view(self) -> Map<AddressSlot, Seq<u64>> {
        Map::new(
            |k: AddressSlot| self.storage_history.map_spec().contains_key(k),
            |k: AddressSlot| self.storage_history.map_spec()[k]@,
        )
    }

    /// Schema invariant: tables well-formed, changesets append-ordered,
    /// history lists strictly increasing, and no zero value materialized
    /// in plain storage.
    pub closed spec fn wf(self) -> bool {
        &&& self.plain_accounts.wf()
        &&& self.plain_storage.wf()
        &&& self.bytecodes.wf()
        &&& forall|a: Address|
            self.plain_storage.map_spec().contains_key(a) ==> (#[trigger] self.plain_storage
                .map_spec()[a]).wf()
        &&& zero_free(self)
        &&& acs_ordered(self.account_cs@)
        &&& scs_ordered(self.storage_cs@)
        &&& self.account_history.wf()
        &&& self.storage_history.wf()
        &&& forall|a: Address|
            self.account_history.map_spec().contains_key(a) ==> tids_sorted(
                (#[trigger] self.account_history.map_spec()[a])@,
            )
        &&& forall|k: AddressSlot|
            self.storage_history.map_spec().contains_key(k) ==> tids_sorted(
                (#[trigger] self.storage_history.map_spec()[k])@,
            )
    }

    /// Zero-slot elision holds of every well-formed transaction: plain
    /// storage never materializes a zero value.
    pub proof fn lemma_zero_slot_elision(self, a: Address, s: U256)
        requires
            self.wf(),
            self.slots_view(a).contains_key(s),
        ensures
            !self.slots_view(a)[s].is_zero_spec(),
    {
    }

    /// An empty transaction over an empty store.
    pub fn new() -> (r: DbTransaction)
        ensures
            r.wf(),
            r.accounts_view() == Map::<Address, Account>::empty(),
            forall|a: Address| #[trigger] r.entries_view(a) == Seq::<(U256, U256)>::empty(),
            r.bytecodes_view() == Map::<H256, Seq<u8>>::empty(),
            r.account_cs_view() == Seq::<(u64, AccountBeforeTx)>::empty(),
            r.storage_cs_view() == Seq::<(TidAddress, StorageEntry)>::empty(),
            r.account_history_view() == Map::<Address, Seq<u64>>::empty(),
            r.storage_history_view() == Map::<AddressSlot, Seq<u64>>::empty(),
    {
        let r = DbTransaction {
            plain_accounts: AList::new(),
            plain_storage: AList::new(),
            bytecodes: AList::new(),
            account_cs: Vec::new(),
            storage_cs: Vec::new(),
            account_history: AList::new(),
            storage_history: AList::new(),
        };
        proof {
            assert(r.bytecodes_view() =~= Map::<H256, Seq<u8>>::empty());
            assert(r.account_history_view() =~= Map::<Address, Seq<u64>>::empty());
            assert(r.storage_history_view() =~= Map::<AddressSlot, Seq<u64>>::empty());
        }
        r
    }

    /// Insert or overwrite the latest state of an account.
    pub fn upsert_account(&mut self, address: Address, account: Account)
        requires
            old(self).wf(),
        ensures
            final(self).wf(),
            final(self).accounts_view() == old(self).accounts_view().insert(address, account),
            final(self).unchanged_but_accounts(*old(self)),
    {
        self.plain_accounts.insert(address, account);
        proof {
            lemma_zero_free_transfer(*old(self), *self);
        }
    }

    /// Delete the latest state of an account, if present.
    pub fn delete_account(&mut self, address: Address)
        requires
            old(self).wf(),
        ensures
            final(self).wf(),
            final(self).accounts_view() == old(self).accounts_view().remove(address),
            final(self).unchanged_but_accounts(*old(self)),
    {
        self.plain_accounts.remove(&address);
        proof {
            lemma_zero_free_transfer(*old(self), *self);
        }
    }

    /// Everything except the plain account table is unchanged.
    pub open spec fn unchanged_but_accounts(self, o: DbTransaction) -> bool {
        &&& forall|a: Address| #[trigger] self.entries_view(a) == o.entries_view(a)
        &&& self.bytecodes_view() == o.bytecodes_view()
        &&& self.account_cs_view() == o.account_cs_view()
        &&& self.storage_cs_view() == o.storage_cs_view()
        &&& self.account_history_view() == o.account_history_view()
        &&& self.storage_history_view() == o.storage_history_view()
    }

    /// Everything except the plain storage table is unchanged.
    pub open spec fn unchanged_but_storage(self, o: DbTransaction) -> bool {
        &&& self.accounts_view() == o.accounts_view()
        &&& self.bytecodes_view() == o.bytecodes_view()
        &&& self.account_cs_view() == o.account_cs_view()
        &&& self.storage_cs_view() == o.storage_cs_view()
        &&& self.account_history_view() == o.account_history_view()
        &&& self.storage_history_view() == o.storage_history_view()
    }

    /// Read the latest state of an account.
    pub fn get_account(&self, address: &Address) -> (r: Option<Account>)
        requires
            self.wf(),
        ensures
            (r is Some <==> self.accounts_view().contains_key(*address)),
            (r matches Some(acct) ==> self.accounts_view()[*address] == acct),
    {
        match self.plain_accounts.get(address) {
            Some(acct) => Some(*acct),
            None => None,
        }
    }

    /// Read the latest value of one storage slot.
    pub fn get_storage(&self, address: &Address, slot: &U256) -> (r: Option<U256>)
        requires
            self.wf(),
        ensures
            (r is Some <==> self.slots_view(*address).contains_key(*slot)),
            (r matches Some(v) ==> self.slots_view(*address)[*slot] == v),
    {
        match self.plain_storage.get(address) {
            Some(sl) => sl.get(slot),
            None => {
                proof {
                    assert(self.slots_view(*address) =~= Map::<U256, U256>::empty());
                }
                None
            },
        }
    }

    /// Walk all duplicate entries stored under `address`, in ascending
    /// slot order; what a dup-cursor positioned with `seek_exact` and
    /// drained with `next_dup_val` yields.
    pub fn storage_entries(&self, address: &Address) -> (r: SlotList<U256>)
        requires
            self.wf(),
        ensures
            r.seq_spec() == self.entries_view(*address),
            r.wf(),
    {
        match self.plain_storage.get(address) {
            Some(sl) => sl.duplicate(),
            None => SlotList::new(),
        }
    }

    /// Read a bytecode by its hash.
    pub fn get_bytecode(&self, hash: &H256) -> (r: Option<&Bytecode>)
        requires
            self.wf(),
        ensures
            (r is Some <==> self.bytecodes_view().contains_key(*hash)),
            (r matches Some(code) ==> self.bytecodes_view()[*hash] == code.code@),
    {
        self.bytecodes.get(hash)
    }

    /// Insert or overwrite a bytecode.
    pub fn upsert_bytecode(&mut self, hash: H256, code: Bytecode)
        requires
            old(self).wf(),
        ensures
            final(self).wf(),
            final(self).bytecodes_view() == old(self).bytecodes_view().insert(hash, code.code@),
            final(self).accounts_view() == old(self).accounts_view(),
            forall|a: Address| #[trigger] final(self).entries_view(a) == old(self).entries_view(a),
            final(self).account_cs_view() == old(self).account_cs_view(),
            final(self).storage_cs_view() == old(self).storage_cs_view(),
            final(self).account_history_view() == old(self).account_history_view(),
            final(self).storage_history_view() == old(self).storage_history_view(),
    {
        let ghost c = code.code@;
        self.bytecodes.insert(hash, code);
        proof {
            lemma_zero_free_transfer(*old(self), *self);
            assert(final(self).bytecodes_view() =~= old(self).bytecodes_view().insert(hash, c));
        }
    }

    /// Delete every duplicate entry stored under `address`: the
    /// dup-cursor's `delete_current_duplicates`.
    pub fn delete_all_storage(&mut self, address: &Address)
        requires
            old(self).wf(),
        ensures
            final(self).wf(),
            final(self).entries_view(*address) == Seq::<(U256, U256)>::empty(),
            forall|a: Address|
                a != *address ==> #[trigger] final(self).entries_view(a) == old(self).entries_view(
                    a,
                ),
            final(self).unchanged_but_storage(*old(self)),
    {
        self.plain_storage.remove(address);
        proof {
            assert forall|a: Address, s: U256| self.slots_view(a).contains_key(s) implies !(
            #[trigger] self.slots_view(a)[s]).is_zero_spec() by {
                if a == *address {
                    assert(self.entries_view(a) =~= Seq::<(U256, U256)>::empty());
                    crate::alist::lemma_alist_map_contains(self.entries_view(a), s);
                } else {
                    assert(self.entries_view(a) == old(self).entries_view(a));
                    assert(old(self).slots_view(a).contains_key(s));
                }
            }
        }
    }

    /// Delete the entry at `(address, slot)` if present: seeking by key
    /// and subkey and deleting the current entry.
    pub fn delete_storage_slot(&mut self, address: &Address, slot: &U256)
        requires
            old(self).wf(),
        ensures
            final(self).wf(),
            final(self).slots_view(*address) == old(self).slots_view(*address).remove(*slot),
            forall|a: Address|
                a != *address ==> #[trigger] final(self).entries_view(a) == old(self).entries_view(
                    a,
                ),
            final(self).unchanged_but_storage(*old(self)),
    {
        let cur = match self.plain_storage.get(address) {
            Some(sl) => sl.duplicate(),
            None => {
                proof {
                    assert(self.slots_view(*address) =~= Map::<U256, U256>::empty());
                    assert(self.slots_view(*address) =~= self.slots_view(*address).remove(*slot));
                }
                return ;
            },
        };
        let mut cur = cur;
        cur.remove(slot);
        self.plain_storage.insert(*address, cur);
        proof {
            assert(final(self).entries_view(*address) == cur.seq_spec());
            assert forall|a: Address, s: U256| self.slots_view(a).contains_key(s) implies !(
            #[trigger] self.slots_view(a)[s]).is_zero_spec() by {
                if a == *address {
                    assert(self.slots_view(a) == old(self).slots_view(a).remove(*slot));
                    assert(old(self).slots_view(a).contains_key(s));
                } else {
                    assert(self.entries_view(a) == old(self).entries_view(a));
                    assert(old(self).slots_view(a).contains_key(s));
                }
            }
        }
    }

    /// Insert or overwrite the entry at `(address, slot)`. A zero value
    /// is never materialized: writing zero means delete, which
    /// [`DbTransaction::delete_storage_slot`] performs.
    pub fn upsert_storage(&mut self, address: Address, slot: U256, value: U256)
        requires
            old(self).wf(),
            !value.is_zero_spec(),
        ensures
            final(self).wf(),
            final(self).slots_view(address) == old(self).slots_view(address).insert(slot, value),
            forall|a: Address|
                a != address ==> #[trigger] final(self).entries_view(a) == old(self).entries_view(
                    a,
                ),
            final(self).unchanged_but_storage(*old(self)),
    {
        let mut cur = match self.plain_storage.get(&address) {
            Some(sl) => sl.duplicate(),
            None => SlotList::new(),
        };
        proof {
            if !old(self).plain_storage.map_spec().contains_key(address) {
                assert(old(self).slots_view(address) =~= crate::alist::alist_map(
                    cur.seq_spec(),
                ));
            }
        }
        cur.insert(slot, value);
        self.plain_storage.insert(address, cur);
        proof {
            assert(final(self).entries_view(address) == cur.seq_spec());
            assert forall|a: Address, s: U256| self.slots_view(a).contains_key(s) implies !(
            #[trigger] self.slots_view(a)[s]).is_zero_spec() by {
                if a == address {
                    assert(self.slots_view(a) == old(self).slots_view(a).insert(slot, value));
                    if s != slot {
                        assert(old(self).slots_view(a).contains_key(s));
                    }
                } else {
                    assert(self.entries_view(a) == old(self).entries_view(a));
                    assert(old(self).slots_view(a).contains_key(s));
                }
            }
        }
    }

    /// Append a row to the account changeset table. As the dup-sort
    /// append path demands, the new row must not order before any row
    /// already in the table.
    pub fn append_dup_account(&mut self, key: u64, row: AccountBeforeTx)
        requires
            old(self).wf(),
            forall|i: int|
                0 <= i < old(self).account_cs_view().len() ==> acs_row_le(
                    #[trigger] old(self).account_cs_view()[i],
                    (key, row),
                ),
        ensures
            final(self).wf(),
            final(self).account_cs_view() == old(self).account_cs_view().push((key, row)),
            final(self).accounts_view() == old(self).accounts_view(),
            forall|a: Address| #[trigger] final(self).entries_view(a) == old(self).entries_view(a),
            final(self).bytecodes_view() == old(self).bytecodes_view(),
            final(self).storage_cs_view() == old(self).storage_cs_view(),
            final(self).account_history_view() == old(self).account_history_view(),
            final(self).storage_history_view() == old(self).storage_history_view(),
    {
        self.account_cs.push((key, row));
        proof {
            lemma_zero_free_transfer(*old(self), *self);
            assert forall|i: int, j: int| 0 <= i < j < self.account_cs@.len() implies acs_row_le(
                #[trigger] self.account_cs@[i],
                #[trigger] self.account_cs@[j],
            ) by {
                if j == self.account_cs@.len() - 1 {
                    assert(self.account_cs@[i] == old(self).account_cs_view()[i]);
                    assert(self.account_cs@[j] == (key, row));
                } else {
                    assert(self.account_cs@[i] == old(self).account_cs_view()[i]);
                    assert(self.account_cs@[j] == old(self).account_cs_view()[j]);
                }
            }
        }
    }

    /// Append a row to the storage changeset table. As the dup-sort
    /// append path demands, the new row must not order before any row
    /// already in the table.
    pub fn append_dup_storage(&mut self, key: TidAddress, entry: StorageEntry)
        requires
            old(self).wf(),
            forall|i: int|
                0 <= i < old(self).storage_cs_view().len() ==> scs_row_le(
                    #[trigger] old(self).storage_cs_view()[i],
                    (key, entry),
                ),
        ensures
            final(self).wf(),
            final(self).storage_cs_view() == old(self).storage_cs_view().push((key, entry)),
            final(self).accounts_view() == old(self).accounts_view(),
            forall|a: Address| #[trigger] final(self).entries_view(a) == old(self).entries_view(a),
            final(self).bytecodes_view() == old(self).bytecodes_view(),
            final(self).account_cs_view() == old(self).account_cs_view(),
            final(self).account_history_view() == old(self).account_history_view(),
            final(self).storage_history_view() == old(self).storage_history_view(),
    {
        self.storage_cs.push((key, entry));
        proof {
            lemma_zero_free_transfer(*old(self), *self);
            assert forall|i: int, j: int| 0 <= i < j < self.storage_cs@.len() implies scs_row_le(
                #[trigger] self.storage_cs@[i],
                #[trigger] self.storage_cs@[j],
            ) by {
                if j == self.storage_cs@.len() - 1 {
                    assert(self.storage_cs@[i] == old(self).storage_cs_view()[i]);
                    assert(self.storage_cs@[j] == (key, entry));
                } else {
                    assert(self.storage_cs@[i] == old(self).storage_cs_view()[i]);
                    assert(self.storage_cs@[j] == old(self).storage_cs_view()[j]);
                }
            }
        }
    }

    /// The number of account changeset rows.
    pub fn account_cs_len(&self) -> (r: usize)
        ensures
            r == self.account_cs_view().len(),
    {
        self.account_cs.len()
    }

    /// The account changeset row at position `i`.
    pub fn account_cs_at(&self, i: usize) -> (r: (u64, AccountBeforeTx))
        requires
            i < self.account_cs_view().len(),
        ensures
            r == self.account_cs_view()[i as int],
    {
        self.account_cs[i]
    }

    /// The number of storage changeset rows.
    pub fn storage_cs_len(&self) -> (r: usize)
        ensures
            r == self.storage_cs_view().len(),
    {
        self.storage_cs.len()
    }

    /// The storage changeset row at position `i`.
    pub fn storage_cs_at(&self, i: usize) -> (r: (TidAddress, StorageEntry))
        requires
            i < self.storage_cs_view().len(),
        ensures
            r == self.storage_cs_view()[i as int],
    {
        self.storage_cs[i]
    }

    /// Record the sorted list of transitions at which `address` changed.
    pub fn put_account_history(&mut self, address: Address, transitions: Vec<u64>)
        requires
            old(self).wf(),
            tids_sorted(transitions@),
        ensures
            final(self).wf(),
            final(self).account_history_view() == old(self).account_history_view().insert(
                address,
                transitions@,
            ),
            final(self).accounts_view() == old(self).accounts_view(),
            forall|a: Address| #[trigger] final(self).entries_view(a) == old(self).entries_view(a),
            final(self).bytecodes_view() == old(self).bytecodes_view(),
            final(self).account_cs_view() == old(self).account_cs_view(),
            final(self).storage_cs_view() == old(self).storage_cs_view(),
            final(self).storage_history_view() == old(self).storage_history_view(),
    {
        let ghost t = transitions@;
        self.account_history.insert(address, transitions);
        proof {
            lemma_zero_free_transfer(*old(self), *self);
            assert(final(self).account_history_view() =~= old(
                self,
            ).account_history_view().insert(address, t));
        }
    }

    /// Record the sorted list of transitions at which `(address, slot)`
    /// changed.
    pub fn put_storage_history(&mut self, key: AddressSlot, transitions: Vec<u64>)
        requires
            old(self).wf(),
            tids_sorted(transitions@),
        ensures
            final(self).wf(),
            final(self).storage_history_view() == old(self).storage_history_view().insert(
                key,
                transitions@,
            ),
            final(self).accounts_view() == old(self).accounts_view(),
            forall|a: Address| #[trigger] final(self).entries_view(a) == old(self).entries_view(a),
            final(self).bytecodes_view() == old(self).bytecodes_view(),
            final(self).account_cs_view() == old(self).account_cs_view(),
            final(self).storage_cs_view() == old(self).storage_cs_view(),
            final(self).account_history_view() == old(self).account_history_view(),
    {
        let ghost t = transitions@;
        self.storage_history.insert(key, transitions);
        proof {
            lemma_zero_free_transfer(*old(self), *self);
            assert(final(self).storage_history_view() =~= old(
                self,
            ).storage_history_view().insert(key, t));
        }
    }

    /// The recorded transition list of `address`, if any.
    pub fn account_history_of(&self, address: &Address) -> (r: Option<&Vec<u64>>)
        requires
            self.wf(),
        ensures
            (r is Some <==> self.account_history_view().contains_key(*address)),
            (r matches Some(v) ==> self.account_history_view()[*address] == v@),
            (r matches Some(v) ==> tids_sorted(v@)),
    {
        self.account_history.get(address)
    }

    /// The recorded transition list of `(address, slot)`, if any.
    pub fn storage_history_of(&self, key: &AddressSlot) -> (r: Option<&Vec<u64>>)
        requires
            self.wf(),
        ensures
            (r is Some <==> self.storage_history_view().contains_key(*key)),
            (r matches Some(v) ==> self.storage_history_view()[*key] == v@),
            (r matches Some(v) ==> tids_sorted(v@)),
    {
        self.storage_history.get(key)
    }
}

} // verus!
