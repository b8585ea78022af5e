//! The post-execution journal: an append-only log of [`Change`] values
//! plus derived latest-value caches for accounts, storage, bytecode and
//! receipts.
//!
//! The caches are, invariantly, the left fold of the change log under the
//! update rules of [`apply_change_accounts`] and [`apply_change_storage`].

use crate::alist::AList;
use crate::change::{Change, ChangeModel, StorageChangeset};
use crate::slots::SlotList;
use crate::types::{Account, Address, Bytecode, Receipt, H256, U256};
use vstd::prelude::*;

verus! {

/// Storage for an account.
///
/// When `wiped` is true all previously committed slots are considered
/// deleted; any entries still in `storage` are staged values recorded by
/// the journal itself.
pub struct Storage {
    /// Whether the storage was wiped.
    pub wiped: bool,
    /// The latest value of each touched slot.
    pub storage: SlotList<U256>,
}

/// The mathematical shape of [`Storage`].
pub struct StorageModel {
    /// Whether the storage was wiped.
    pub wiped: bool,
    /// The latest value of each touched slot.
    pub slots: Map<U256, U256>,
}

impl Storage {
    /// The mathematical shape of this storage cache entry.
    pub open spec fn view_spec(self) -> StorageModel {
        StorageModel { wiped: self.wiped, slots: self.storage.map_spec() }
    }
}

/// The storage cache as a map of models.
pub open spec fn storage_models(m: Map<Address, Storage>) -> Map<Address, StorageModel> {
    Map::new(|a: Address| m.contains_key(a), |a: Address| m[a].view_spec())
}

/// The bytecode cache as a map from hash to code bytes.
pub open spec fn code_models(m: Map<H256, Bytecode>) -> Map<H256, Seq<u8>> {
    Map::new(|h: H256| m.contains_key(h), |h: H256| m[h].code@)
}

/// The change log as a sequence of models.
pub open spec fn change_models(s: Seq<Change>) -> Seq<ChangeModel> {
    s.map_values(|c: Change| c.view_spec())
}

/// The storage model recorded for `a`, or a fresh one if none is.
pub open spec fn storage_at(m: Map<Address, StorageModel>, a: Address) -> StorageModel {
    if m.contains_key(a) {
        m[a]
    } else {
        StorageModel { wiped: false, slots: Map::empty() }
    }
}

/// Merge a changeset into a slot map: each touched slot takes its new
/// value.
pub open spec fn merge_changeset(slots: Map<U256, U256>, cs: Seq<(U256, (U256, U256))>) -> Map<
    U256,
    U256,
>
    decreases cs.len(),
{
    if cs.len() == 0 {
        slots
    } else {
        merge_changeset(slots, cs.drop_last()).insert(cs.last().0, cs.last().1.1)
    }
}

/// How one change updates the latest-account cache.
pub open spec fn apply_change_accounts(
    m: Map<Address, Option<Account>>,
    c: ChangeModel,
) -> Map<Address, Option<Account>> {
    match c {
        ChangeModel::Created { address, account, .. } => m.insert(address, Some(account)),
        ChangeModel::Changed { address, new_info, .. } => m.insert(address, Some(new_info)),
        ChangeModel::Destroyed { address, .. } => m.insert(address, None),
        _ => m,
    }
}

/// How one change updates the latest-storage cache: changed slots merge
/// their new values and clear any wipe marker (post-wipe writes are live
/// writes); a wipe sets the marker and keeps staged entries.
pub open spec fn apply_change_storage(
    m: Map<Address, StorageModel>,
    c: ChangeModel,
) -> Map<Address, StorageModel> {
    match c {
        ChangeModel::SlotsChanged { address, changeset, .. } => {
            let st = storage_at(m, address);
            m.insert(
                address,
                StorageModel { wiped: false, slots: merge_changeset(st.slots, changeset) },
            )
        },
        ChangeModel::Wiped { address, .. } => {
            let st = storage_at(m, address);
            m.insert(address, StorageModel { wiped: true, slots: st.slots })
        },
        _ => m,
    }
}

/// The latest-account cache a change log describes.
pub open spec fn fold_accounts(cs: Seq<ChangeModel>) -> Map<Address, Option<Account>>
    decreases cs.len(),
{
    if cs.len() == 0 {
        Map::empty()
    } else {
        apply_change_accounts(fold_accounts(cs.drop_last()), cs.last())
    }
}

/// The latest-storage cache a change log describes.
pub open spec fn fold_storage(cs: Seq<ChangeModel>) -> Map<Address, StorageModel>
    decreases cs.len(),
{
    if cs.len() == 0 {
        Map::empty()
    } else {
        apply_change_storage(fold_storage(cs.drop_last()), cs.last())
    }
}

/// Folding one more change applies it on top of the fold so far.
pub proof fn lemma_fold_push(cs: Seq<ChangeModel>, c: ChangeModel)
    ensures
        fold_accounts(cs.push(c)) == apply_change_accounts(fold_accounts(cs), c),
        fold_storage(cs.push(c)) == apply_change_storage(fold_storage(cs), c),
{
    assert(cs.push(c).drop_last() =~= cs);
    assert(cs.push(c).last() == c);
}

/// Every change's transition id is at most `count`.
pub open spec fn ids_bounded(cs: Seq<ChangeModel>, count: u64) -> bool {
    forall|i: int| 0 <= i < cs.len() ==> (#[trigger] cs[i]).id_spec() <= count
}

/// Transition ids appear in non-decreasing order.
pub open spec fn ids_nondecreasing(cs: Seq<ChangeModel>) -> bool {
    forall|i: int, j: int|
        0 <= i < j < cs.len() ==> (#[trigger] cs[i]).id_spec() <= (#[trigger] cs[j]).id_spec()
}

/// Every destroy that has a successor is immediately followed by the
/// matching wipe.
pub open spec fn destroys_paired_mid(cs: Seq<ChangeModel>) -> bool {
    forall|i: int|
        0 <= i && i + 1 < cs.len() && (#[trigger] cs[i]) is Destroyed ==> (cs[i + 1] is Wiped
            && cs[i + 1].id_spec() == cs[i].id_spec() && cs[i + 1].address_spec()
            == cs[i].address_spec())
}

/// Every destroy is immediately followed by the matching wipe.
pub open spec fn destroys_paired(cs: Seq<ChangeModel>) -> bool {
    destroys_paired_mid(cs) && (cs.len() > 0 ==> !(cs.last() is Destroyed))
}

/// Every change in the log is well-formed.
pub open spec fn changes_wf(cs: Seq<ChangeModel>) -> bool {
    forall|i: int| 0 <= i < cs.len() ==> (#[trigger] cs[i]).wf_spec()
}

/// The state of accounts after execution of one or more transactions,
/// including receipts and new bytecode: the journal.
pub struct PostState {
    current_transition_id: u64,
    accounts: AList<Address, Option<Account>>,
    storage: AList<Address, Storage>,
    changes: Vec<Change>,
    bytecode: AList<H256, Bytecode>,
    receipts: Vec<Receipt>,
}

impl PostState {
    /// The id of the current (next-to-assign) transition; equals the
    /// number of finished transitions.
    pub closed spec fn count_spec(self) -> u64 {
        self.current_transition_id
    }

    /// The change log.
    pub closed spec fn changes_spec(self) -> Seq<ChangeModel> {
        change_models(self.changes@)
    }

    /// The latest-account cache.
    pub closed spec fn accounts_spec(self) -> Map<Address, Option<Account>> {
        self.accounts.map_spec()
    }

    /// The latest-storage cache.
    pub closed spec fn storage_spec(self) -> Map<Address, StorageModel> {
        storage_models(self.storage.map_spec())
    }

    /// The bytecode cache.
    pub closed spec fn bytecode_spec(self) -> Map<H256, Seq<u8>> {
        code_models(self.bytecode.map_spec())
    }

    /// The receipts in execution order.
    pub closed spec fn receipts_spec(self) -> Seq<Receipt> {
        self.receipts@
    }

    /// The caches are exactly the fold of the change log.
    pub open spec fn folds_ok(self) -> bool {
        &&& self.accounts_spec() == fold_accounts(self.changes_spec())
        &&& self.storage_spec() == fold_storage(self.changes_spec())
    }

    /// The backing structures are well-formed.
    pub closed spec fn caches_wf(self) -> bool {
        &&& self.accounts.wf()
        &&& self.storage.wf()
        &&& self.bytecode.wf()
        &&& forall|a: Address|
            self.storage.map_spec().contains_key(a) ==> (#[trigger] self.storage.map_spec()[
                a
            ]).storage.wf()
    }

    /// The journal's invariant.
    pub open spec fn wf(self) -> bool {
        &&& self.folds_ok()
        &&& self.caches_wf()
        &&& ids_bounded(self.changes_spec(), self.count_spec())
        &&& ids_nondecreasing(self.changes_spec())
        &&& destroys_paired(self.changes_spec())
        &&& changes_wf(self.changes_spec())
    }

    /// Everything a fresh journal guarantees.
    pub open spec fn is_empty_spec(self) -> bool {
        &&& self.count_spec() == 0
        &&& self.changes_spec() == Seq::<ChangeModel>::empty()
        &&& self.accounts_spec() == Map::<Address, Option<Account>>::empty()
        &&& self.storage_spec() == Map::<Address, StorageModel>::empty()
        &&& self.bytecode_spec() == Map::<H256, Seq<u8>>::empty()
        &&& self.receipts_spec() == Seq::<Receipt>::empty()
    }

    /// Create an empty journal.
    pub fn new() -> (r: PostState)
        ensures
            r.wf(),
            r.is_empty_spec(),
    {
        let r = PostState {
            current_transition_id: 0,
            accounts: AList::new(),
            storage: AList::new(),
            changes: Vec::new(),
            bytecode: AList::new(),
            receipts: Vec::new(),
        };
        proof {
            assert(r.changes_spec() =~= Seq::<ChangeModel>::empty());
            assert(r.storage_spec() =~= Map::<Address, StorageModel>::empty());
            assert(r.bytecode_spec() =~= Map::<H256, Seq<u8>>::empty());
        }
        r
    }

    /// Create an empty journal with space pre-reserved for about `txs`
    /// transactions: eight changes per transaction and one receipt each.
    pub fn with_tx_capacity(txs: usize) -> (r: PostState)
        requires
            txs <= usize::MAX / 8,
        ensures
            r.wf(),
            r.is_empty_spec(),
    {
        let r = PostState {
            current_transition_id: 0,
            accounts: AList::new(),
            storage: AList::new(),
            changes: Vec::with_capacity(txs * 8),
            bytecode: AList::new(),
            receipts: Vec::with_capacity(txs),
        };
        proof {
            assert(r.changes_spec() =~= Seq::<ChangeModel>::empty());
            assert(r.storage_spec() =~= Map::<Address, StorageModel>::empty());
            assert(r.bytecode_spec() =~= Map::<H256, Seq<u8>>::empty());
        }
        r
    }

    /// Get the latest state of accounts.
    pub fn accounts(&self) -> (r: &AList<Address, Option<Account>>)
        requires
            self.wf(),
        ensures
            r.wf(),
            r.map_spec() == self.accounts_spec(),
    {
        &self.accounts
    }

    /// Get the latest state of storage.
    pub fn storage(&self) -> (r: &AList<Address, Storage>)
        requires
            self.wf(),
        ensures
            r.wf(),
            storage_models(r.map_spec()) == self.storage_spec(),
            forall|i: int| 0 <= i < r.seq_spec().len() ==> (#[trigger] r.seq_spec()[i]).1.storage.wf(),
    {
        proof {
            self.storage.lemma_entries_in_map();
            assert forall|i: int| 0 <= i < self.storage.seq_spec().len() implies (
            #[trigger] self.storage.seq_spec()[i]).1.storage.wf() by {
                assert(self.storage.map_spec().contains_key(self.storage.seq_spec()[i].0));
            }
        }
        &self.storage
    }

    /// Get the changes causing this journal's state.
    pub fn changes(&self) -> (r: &Vec<Change>)
        ensures
            change_models(r@) == self.changes_spec(),
    {
        &self.changes
    }

    /// Get the newly created bytecodes.
    pub fn bytecode(&self) -> (r: &AList<H256, Bytecode>)
        requires
            self.wf(),
        ensures
            r.wf(),
            code_models(r.map_spec()) == self.bytecode_spec(),
    {
        &self.bytecode
    }

    /// Get the receipts of the executed transactions.
    pub fn receipts(&self) -> (r: &Vec<Receipt>)
        ensures
            r@ == self.receipts_spec(),
    {
        &self.receipts
    }

    /// Get the number of transitions causing this journal's state.
    pub fn transitions_count(&self) -> (r: u64)
        ensures
            r == self.count_spec(),
    {
        self.current_transition_id
    }

    /// Add a new change and apply its update to the latest-value caches.
    fn add_and_apply(&mut self, change: Change)
        requires
            old(self).folds_ok(),
            old(self).caches_wf(),
            change.wf(),
        ensures
            final(self).folds_ok(),
            final(self).caches_wf(),
            final(self).changes_spec() == old(self).changes_spec().push(change.view_spec()),
            final(self).accounts_spec() == apply_change_accounts(
                old(self).accounts_spec(),
                change.view_spec(),
            ),
            final(self).storage_spec() == apply_change_storage(
                old(self).storage_spec(),
                change.view_spec(),
            ),
            final(self).count_spec() == old(self).count_spec(),
            final(self).bytecode_spec() == old(self).bytecode_spec(),
            final(self).receipts_spec() == old(self).receipts_spec(),
    {
        match &change {
            Change::AccountCreated { address, account, .. } => {
                self.accounts.insert(*address, Some(*account));
            },
            Change::AccountChanged { address, new_info, .. } => {
                self.accounts.insert(*address, Some(*new_info));
            },
            Change::AccountDestroyed { address, .. } => {
                self.accounts.insert(*address, None);
            },
            Change::StorageChanged { address, changeset, .. } => {
                let ghost start_slots = storage_at(
                    old(self).storage_spec(),
                    *address,
                ).slots;
                let mut st: Storage = match self.storage.get(address) {
                    Some(s) => Storage { wiped: false, storage: s.storage.duplicate() },
                    None => Storage { wiped: false, storage: SlotList::new() },
                };
                proof {
                    if old(self).storage.map_spec().contains_key(*address) {
                        assert(old(self).storage_spec().contains_key(*address));
                        assert(st.storage.map_spec() == start_slots);
                    } else {
                        assert(!old(self).storage_spec().contains_key(*address));
                        assert(st.storage.map_spec() =~= start_slots);
                    }
                }
                let n = changeset.len();
                let mut k: usize = 0;
                while k < n
                    invariant
                        n == changeset.seq_spec().len(),
                        k <= n,
                        st.storage.wf(),
                        st.wiped == false,
                        st.storage.map_spec() == merge_changeset(
                            start_slots,
                            changeset.seq_spec().take(k as int),
                        ),
                    decreases n - k,
                {
                    let e = changeset.entry_at(k);
                    st.storage.insert(e.0, e.1.1);
                    proof {
                        let cs = changeset.seq_spec();
                        assert(cs.take(k + 1).drop_last() =~= cs.take(k as int));
                        assert(cs.take(k + 1).last() == cs[k as int]);
                    }
                    k = k + 1;
                }
                proof {
                    assert(changeset.seq_spec().take(n as int) =~= changeset.seq_spec());
                }
                self.storage.insert(*address, st);
            },
            Change::StorageWiped { address, .. } => {
                let st: Storage = match self.storage.get(address) {
                    Some(s) => Storage { wiped: true, storage: s.storage.duplicate() },
                    None => Storage { wiped: true, storage: SlotList::new() },
                };
                proof {
                    if !old(self).storage.map_spec().contains_key(*address) {
                        assert(st.storage.map_spec() =~= storage_at(
                            old(self).storage_spec(),
                            *address,
                        ).slots);
                    }
                }
                self.storage.insert(*address, st);
            },
        }
        proof {
            match change.view_spec() {
                ChangeModel::Created { address, account, .. } => {},
                ChangeModel::Changed { address, new_info, .. } => {},
                ChangeModel::Destroyed { address, .. } => {},
                ChangeModel::SlotsChanged { address, changeset, .. } => {
                    assert(self.storage_spec() =~= apply_change_storage(
                        old(self).storage_spec(),
                        change.view_spec(),
                    ));
                },
                ChangeModel::Wiped { address, .. } => {
                    assert(self.storage_spec() =~= apply_change_storage(
                        old(self).storage_spec(),
                        change.view_spec(),
                    ));
                },
            }
            assert(self.bytecode_spec() == old(self).bytecode_spec());
        }
        self.changes.push(change);
        proof {
            assert(self.changes_spec() =~= old(self).changes_spec().push(change.view_spec()));
            lemma_fold_push(old(self).changes_spec(), change.view_spec());
        }
    }

    /// Record a newly created account.
    pub fn create_account(&mut self, address: Address, account: Account)
        requires
            old(self).wf(),
        ensures
            final(self).wf(),
            final(self).changes_spec() == old(self).changes_spec().push(
                ChangeModel::Created { id: old(self).count_spec(), address, account },
            ),
            final(self).accounts_spec() == old(self).accounts_spec().insert(
                address,
                Some(account),
            ),
            final(self).storage_spec() == old(self).storage_spec(),
            final(self).count_spec() == old(self).count_spec(),
            final(self).bytecode_spec() == old(self).bytecode_spec(),
            final(self).receipts_spec() == old(self).receipts_spec(),
    {
        let id = self.current_transition_id;
        self.add_and_apply(Change::AccountCreated { id, address, account });
    }

    /// Record a changed account. The caller supplies the true prior value
    /// `old_info`, which history persistence records.
    pub fn change_account(&mut self, address: Address, old_info: Account, new_info: Account)
        requires
            old(self).wf(),
        ensures
            final(self).wf(),
            final(self).changes_spec() == old(self).changes_spec().push(
                ChangeModel::Changed { id: old(self).count_spec(), address, old_info, new_info },
            ),
            final(self).accounts_spec() == old(self).accounts_spec().insert(
                address,
                Some(new_info),
            ),
            final(self).storage_spec() == old(self).storage_spec(),
            final(self).count_spec() == old(self).count_spec(),
            final(self).bytecode_spec() == old(self).bytecode_spec(),
            final(self).receipts_spec() == old(self).receipts_spec(),
    {
        let id = self.current_transition_id;
        self.add_and_apply(Change::AccountChanged { id, address, old_info, new_info });
    }

    /// Mark an account as destroyed: records the destroy and the matching
    /// storage wipe back-to-back at the same transition.
    pub fn destroy_account(&mut self, address: Address, account: Account)
        requires
            old(self).wf(),
        ensures
            final(self).wf(),
            final(self).changes_spec() == old(self).changes_spec().push(
                ChangeModel::Destroyed { id: old(self).count_spec(), address, old_info: account },
            ).push(ChangeModel::Wiped { id: old(self).count_spec(), address }),
            final(self).accounts_spec() == old(self).accounts_spec().insert(address, None),
            final(self).storage_spec() == old(self).storage_spec().insert(
                address,
                StorageModel {
                    wiped: true,
                    slots: storage_at(old(self).storage_spec(), address).slots,
                },
            ),
            final(self).count_spec() == old(self).count_spec(),
            final(self).bytecode_spec() == old(self).bytecode_spec(),
            final(self).receipts_spec() == old(self).receipts_spec(),
    {
        let id = self.current_transition_id;
        self.add_and_apply(Change::AccountDestroyed { id, address, old_info: account });
        self.add_and_apply(Change::StorageWiped { id, address });
    }

    /// Record changed storage values for an account.
    pub fn change_storage(&mut self, address: Address, changeset: StorageChangeset)
        requires
            old(self).wf(),
            changeset.wf(),
        ensures
            final(self).wf(),
            final(self).changes_spec() == old(self).changes_spec().push(
                ChangeModel::SlotsChanged {
                    id: old(self).count_spec(),
                    address,
                    changeset: changeset.seq_spec(),
                },
            ),
            final(self).accounts_spec() == old(self).accounts_spec(),
            final(self).storage_spec() == old(self).storage_spec().insert(
                address,
                StorageModel {
                    wiped: false,
                    slots: merge_changeset(
                        storage_at(old(self).storage_spec(), address).slots,
                        changeset.seq_spec(),
                    ),
                },
            ),
            final(self).count_spec() == old(self).count_spec(),
            final(self).bytecode_spec() == old(self).bytecode_spec(),
            final(self).receipts_spec() == old(self).receipts_spec(),
    {
        let id = self.current_transition_id;
        self.add_and_apply(Change::StorageChanged { id, address, changeset });
    }

    /// Add new bytecode to the journal. Bytecode is immutable under its
    /// hash: a hash already present leaves the cache unchanged.
    pub fn add_bytecode(&mut self, code_hash: H256, bytecode: Bytecode)
        requires
            old(self).wf(),
        ensures
            final(self).wf(),
            final(self).bytecode_spec() == add_code_spec(
                old(self).bytecode_spec(),
                code_hash,
                bytecode.code@,
            ),
            final(self).changes_spec() == old(self).changes_spec(),
            final(self).accounts_spec() == old(self).accounts_spec(),
            final(self).storage_spec() == old(self).storage_spec(),
            final(self).count_spec() == old(self).count_spec(),
            final(self).receipts_spec() == old(self).receipts_spec(),
    {
        let present = match self.bytecode.get(&code_hash) {
            Some(_) => true,
            None => false,
        };
        if !present {
            proof {
                assert(!old(self).bytecode_spec().contains_key(code_hash));
            }
            let ghost target = old(self).bytecode_spec().insert(code_hash, bytecode.code@);
            self.bytecode.insert(code_hash, bytecode);
            proof {
                assert(self.bytecode_spec() =~= target);
            }
        } else {
            proof {
                assert(old(self).bytecode_spec().contains_key(code_hash));
            }
        }
    }

    /// Add a transaction receipt to the journal.
    pub fn add_receipt(&mut self, receipt: Receipt)
        requires
            old(self).wf(),
        ensures
            final(self).wf(),
            final(self).receipts_spec() == old(self).receipts_spec().push(receipt),
            final(self).changes_spec() == old(self).changes_spec(),
            final(self).accounts_spec() == old(self).accounts_spec(),
            final(self).storage_spec() == old(self).storage_spec(),
            final(self).count_spec() == old(self).count_spec(),
            final(self).bytecode_spec() == old(self).bytecode_spec(),
    {
        self.receipts.push(receipt);
    }

    /// Mark all prior changes as one finished transition and start a new
    /// one. The only operation that advances transition time.
    pub fn finish_transition(&mut self)
        requires
            old(self).wf(),
            old(self).count_spec() < u64::MAX,
        ensures
            final(self).wf(),
            final(self).count_spec() == old(self).count_spec() + 1,
            final(self).changes_spec() == old(self).changes_spec(),
            final(self).accounts_spec() == old(self).accounts_spec(),
            final(self).storage_spec() == old(self).storage_spec(),
            final(self).bytecode_spec() == old(self).bytecode_spec(),
            final(self).receipts_spec() == old(self).receipts_spec(),
    {
        self.current_transition_id = self.current_transition_id + 1;
    }

    /// Finish the block-level transition (rewards, withdrawals and other
    /// post-block effects coalesce into it). A synonym of
    /// [`PostState::finish_transition`].
    pub fn finish_block_transition(&mut self)
        requires
            old(self).wf(),
            old(self).count_spec() < u64::MAX,
        ensures
            final(self).wf(),
            final(self).count_spec() == old(self).count_spec() + 1,
            final(self).changes_spec() == old(self).changes_spec(),
            final(self).accounts_spec() == old(self).accounts_spec(),
            final(self).storage_spec() == old(self).storage_spec(),
            final(self).bytecode_spec() == old(self).bytecode_spec(),
            final(self).receipts_spec() == old(self).receipts_spec(),
    {
        self.finish_transition();
    }
}

/// A change log rebased into a later journal: every transition id is
/// shifted by `offset`.
pub open spec fn rebased(cs: Seq<ChangeModel>, offset: u64) -> Seq<ChangeModel> {
    cs.map_values(|c: ChangeModel| c.rebase_spec(offset))
}

/// What adding bytecode does to the bytecode cache: the first write under
/// a hash wins.
pub open spec fn add_code_spec(m: Map<H256, Seq<u8>>, h: H256, code: Seq<u8>) -> Map<
    H256,
    Seq<u8>,
> {
    if m.contains_key(h) {
        m
    } else {
        m.insert(h, code)
    }
}

impl PostState {
    /// Extend this journal with the changes, receipts and bytecodes of
    /// `other`, rebasing `other`'s transition ids by this journal's
    /// transition count. Afterwards the transition count is the sum of
    /// the two prior counts.
    #[verifier::rlimit(100)]
    pub fn extend(&mut self, other: PostState)
        requires
            old(self).wf(),
            other.wf(),
            old(self).count_spec() + other.count_spec() <= u64::MAX,
        ensures
            final(self).wf(),
            final(self).count_spec() == old(self).count_spec() + other.count_spec(),
            final(self).changes_spec() == old(self).changes_spec() + rebased(
                other.changes_spec(),
                old(self).count_spec(),
            ),
            final(self).receipts_spec() == old(self).receipts_spec() + other.receipts_spec(),
            final(self).bytecode_spec() == other.bytecode_spec().union_prefer_right(
                old(self).bytecode_spec(),
            ),
            final(self).accounts_spec() == fold_accounts(final(self).changes_spec()),
            final(self).storage_spec() == fold_storage(final(self).changes_spec()),
            final(self).journal_model() == extend_model(
                old(self).journal_model(),
                other.journal_model(),
            ),
    {
        let offset = self.current_transition_id;
        let ghost base_bc = old(self).bytecode_spec();
        let ghost target_changes = old(self).changes_spec() + rebased(
            other.changes_spec(),
            offset,
        );
        let n = self.changes_extend_loop(&other, offset);
        proof {
            assert(other.changes_spec().take(n as int) =~= other.changes_spec());
            assert(self.changes_spec() == target_changes);
        }
        self.append_receipts(&other);
        self.merge_bytecode(&other);
        self.current_transition_id = offset + other.current_transition_id;
    }

    /// Append `other`'s receipts to this journal's, in order.
    fn append_receipts(&mut self, other: &PostState)
        ensures
            final(self).receipts_spec() == old(self).receipts_spec() + other.receipts_spec(),
            final(self).changes_spec() == old(self).changes_spec(),
            final(self).accounts_spec() == old(self).accounts_spec(),
            final(self).storage_spec() == old(self).storage_spec(),
            final(self).bytecode_spec() == old(self).bytecode_spec(),
            final(self).count_spec() == old(self).count_spec(),
            old(self).caches_wf() ==> final(self).caches_wf(),
    {
        let rn = other.receipts.len();
        let mut j: usize = 0;
        while j < rn
            invariant
                rn == other.receipts_spec().len(),
                j <= rn,
                self.receipts_spec() == old(self).receipts_spec() + other.receipts_spec().take(
                    j as int,
                ),
                self.changes_spec() == old(self).changes_spec(),
                self.accounts_spec() == old(self).accounts_spec(),
                self.storage_spec() == old(self).storage_spec(),
                self.bytecode_spec() == old(self).bytecode_spec(),
                self.count_spec() == old(self).count_spec(),
                old(self).caches_wf() ==> self.caches_wf(),
            decreases rn - j,
        {
            self.receipts.push(other.receipts[j]);
            proof {
                assert(other.receipts_spec().take(j + 1) == other.receipts_spec().take(
                    j as int,
                ).push(other.receipts_spec()[j as int]));
            }
            j = j + 1;
        }
        proof {
            assert(other.receipts_spec().take(rn as int) =~= other.receipts_spec());
        }
    }

    /// Merge `other`'s bytecodes into this journal's cache; hashes this
    /// journal already holds keep their first-written code.
    #[verifier::rlimit(100)]
    fn merge_bytecode(&mut self, other: &PostState)
        requires
            old(self).caches_wf(),
            other.caches_wf(),
        ensures
            final(self).bytecode_spec() == other.bytecode_spec().union_prefer_right(
                old(self).bytecode_spec(),
            ),
            final(self).changes_spec() == old(self).changes_spec(),
            final(self).accounts_spec() == old(self).accounts_spec(),
            final(self).storage_spec() == old(self).storage_spec(),
            final(self).receipts_spec() == old(self).receipts_spec(),
            final(self).count_spec() == old(self).count_spec(),
            final(self).caches_wf(),
    {
        let ghost base_bc = old(self).bytecode_spec();
        let ghost oseq = other.bytecode.seq_spec();
        let bn = other.bytecode.len();
        let mut k: usize = 0;
        proof {
            assert(crate::alist::unique_keys(oseq));
            assert(oseq.take(0) =~= Seq::<(H256, Bytecode)>::empty());
            assert(self.bytecode_spec() =~= code_models(
                crate::alist::alist_map(oseq.take(0)),
            ).union_prefer_right(base_bc));
        }
        while k < bn
            invariant
                bn == oseq.len(),
                oseq == other.bytecode.seq_spec(),
                crate::alist::unique_keys(oseq),
                k <= bn,
                self.bytecode.wf(),
                self.bytecode_spec() == code_models(
                    crate::alist::alist_map(oseq.take(k as int)),
                ).union_prefer_right(base_bc),
                self.changes_spec() == old(self).changes_spec(),
                self.accounts_spec() == old(self).accounts_spec(),
                self.storage_spec() == old(self).storage_spec(),
                self.receipts_spec() == old(self).receipts_spec(),
                self.count_spec() == old(self).count_spec(),
                old(self).caches_wf() ==> self.caches_wf(),
            decreases bn - k,
        {
            let ghost acc = crate::alist::alist_map(oseq.take(k as int));
            let h = other.bytecode.key_at(k);
            proof {
                crate::alist::lemma_alist_map_contains(oseq.take(k as int), h);
                assert(forall|x: int|
                    0 <= x < k ==> (#[trigger] oseq.take(k as int)[x]).0 == oseq[x].0);
                assert(!acc.contains_key(h)) by {
                    if exists|x: int| 0 <= x < k && (#[trigger] oseq.take(k as int)[x]).0 == h {
                        let x = choose|x: int|
                            0 <= x < k && (#[trigger] oseq.take(k as int)[x]).0 == h;
                        assert(oseq[x].0 == oseq[k as int].0);
                    }
                }
                assert(oseq.take(k + 1).drop_last() =~= oseq.take(k as int));
                crate::alist::lemma_alist_map_push(oseq.take(k as int), oseq[k as int]);
                assert(oseq.take(k + 1) =~= oseq.take(k as int).push(oseq[k as int]));
            }
            let present = match self.bytecode.get(&h) {
                Some(_) => true,
                None => false,
            };
            if !present {
                let ghost mid = self.bytecode.map_spec();
                proof {
                    assert(!mid.contains_key(h));
                    assert(!self.bytecode_spec().contains_key(h));
                    assert(!base_bc.contains_key(h));
                    assert(code_models(mid) == code_models(acc).union_prefer_right(base_bc));
                }
                let code = other.bytecode.value_at(k).duplicate();
                self.bytecode.insert(h, code);
                proof {
                    assert(oseq[k as int].1.code@ == code.code@);
                    assert(self.bytecode.map_spec() == mid.insert(h, code));
                    assert(code_models(mid.insert(h, code)) =~= code_models(mid).insert(
                        h,
                        code.code@,
                    ));
                    assert(code_models(acc.insert(h, oseq[k as int].1)) =~= code_models(
                        acc,
                    ).insert(h, oseq[k as int].1.code@));
                    assert(self.bytecode_spec() =~= code_models(
                        crate::alist::alist_map(oseq.take(k + 1)),
                    ).union_prefer_right(base_bc));
                }
            } else {
                proof {
                    assert(self.bytecode.map_spec().contains_key(h));
                    assert(self.bytecode_spec().contains_key(h));
                    assert(base_bc.contains_key(h));
                    assert(self.bytecode_spec() =~= code_models(
                        crate::alist::alist_map(oseq.take(k + 1)),
                    ).union_prefer_right(base_bc));
                }
            }
            k = k + 1;
        }
        proof {
            assert(oseq.take(bn as int) =~= oseq);
            assert(crate::alist::alist_map(oseq) == other.bytecode.map_spec());
            assert(self.bytecode_spec() =~= other.bytecode_spec().union_prefer_right(base_bc));
        }
    }

    /// Append `other`'s changes, rebased by `offset`, applying each to
    /// the caches. Returns the number of changes appended.
    #[verifier::rlimit(100)]
    fn changes_extend_loop(&mut self, other: &PostState, offset: u64) -> (n: usize)
        requires
            old(self).wf(),
            other.wf(),
            offset == old(self).count_spec(),
            offset + other.count_spec() <= u64::MAX,
        ensures
            n == other.changes_spec().len(),
            final(self).changes_spec() == old(self).changes_spec() + rebased(
                other.changes_spec(),
                offset,
            ),
            final(self).folds_ok(),
            final(self).caches_wf(),
            changes_wf(final(self).changes_spec()),
            ids_nondecreasing(final(self).changes_spec()),
            ids_bounded(final(self).changes_spec(), (offset + other.count_spec()) as u64),
            destroys_paired(final(self).changes_spec()),
            final(self).count_spec() == offset,
            final(self).bytecode_spec() == old(self).bytecode_spec(),
            final(self).receipts_spec() == old(self).receipts_spec(),
    {
        let ghost ocs = other.changes_spec();
        let n = other.changes.len();
        let mut idx: usize = 0;
        proof {
            assert(ocs.take(0) =~= Seq::<ChangeModel>::empty());
            assert(rebased(ocs.take(0), offset) =~= Seq::<ChangeModel>::empty());
            assert(self.changes_spec() =~= old(self).changes_spec() + rebased(
                ocs.take(0),
                offset,
            ));
        }
        while idx < n
            invariant
                n == ocs.len(),
                ocs == other.changes_spec(),
                other.wf(),
                old(self).wf(),
                offset == old(self).count_spec(),
                offset + other.count_spec() <= u64::MAX,
                idx <= n,
                self.count_spec() == offset,
                self.changes_spec() == old(self).changes_spec() + rebased(
                    ocs.take(idx as int),
                    offset,
                ),
                self.folds_ok(),
                self.caches_wf(),
                changes_wf(self.changes_spec()),
                ids_nondecreasing(self.changes_spec()),
                ids_bounded(self.changes_spec(), (offset + other.count_spec()) as u64),
                destroys_paired_mid(self.changes_spec()),
                (self.changes_spec().len() > 0 && self.changes_spec().last() is Destroyed)
                    ==> (idx < n && ocs[idx as int] is Wiped && offset + ocs[idx as int].id_spec()
                    == self.changes_spec().last().id_spec() && ocs[idx as int].address_spec()
                    == self.changes_spec().last().address_spec()),
                self.bytecode_spec() == old(self).bytecode_spec(),
                self.receipts_spec() == old(self).receipts_spec(),
            decreases n - idx,
        {
            let ghost pre = self.changes_spec();
            let mut c = self.duplicate_change_at(other, idx);
            let oid = c.transition_id();
            proof {
                assert(ocs[idx as int].id_spec() <= other.count_spec());
            }
            c.set_transition_id(offset + oid);
            proof {
                assert(c.view_spec() == ocs[idx as int].rebase_spec(offset));
            }
            self.add_and_apply(c);
            proof {
                let cv = ocs[idx as int].rebase_spec(offset);
                assert(rebased(ocs.take(idx + 1), offset) =~= rebased(
                    ocs.take(idx as int),
                    offset,
                ).push(cv));
                assert(self.changes_spec() =~= old(self).changes_spec() + rebased(
                    ocs.take(idx + 1),
                    offset,
                ));
                let post = self.changes_spec();
                assert(post == pre.push(cv));
                // non-decreasing ids
                assert forall|i: int, j2: int| 0 <= i < j2 < post.len() implies (
                #[trigger] post[i]).id_spec() <= (#[trigger] post[j2]).id_spec() by {
                    if j2 < pre.len() {
                        assert(pre[i].id_spec() <= pre[j2].id_spec());
                    } else {
                        assert(post[j2] == cv);
                        if i < old(self).changes_spec().len() {
                            assert(post[i] == old(self).changes_spec()[i]);
                            assert(post[i].id_spec() <= offset);
                        } else {
                            let i2 = i - old(self).changes_spec().len();
                            assert(post[i] == ocs[i2].rebase_spec(offset));
                            assert(ocs[i2].id_spec() <= ocs[idx as int].id_spec());
                        }
                    }
                }
                // pairing in the middle
                assert forall|i: int|
                    0 <= i && i + 1 < post.len() && (#[trigger] post[i]) is Destroyed implies (
                    post[i + 1] is Wiped && post[i + 1].id_spec() == post[i].id_spec() && post[i
                        + 1].address_spec() == post[i].address_spec()) by {
                    if i + 1 < pre.len() {
                        assert(pre[i] is Destroyed);
                    } else {
                        assert(post[i] == pre.last());
                        assert(post[i + 1] == cv);
                    }
                }
                // trailing destroy is continued by the next change of `other`
                if post.last() is Destroyed {
                    assert(cv is Destroyed);
                    assert(ocs[idx as int] is Destroyed);
                    assert(idx + 1 < n) by {
                        if idx + 1 == n {
                            assert(ocs.last() is Destroyed);
                        }
                    }
                    assert(ocs[idx + 1] is Wiped && ocs[idx + 1].id_spec() == ocs[
                        idx as int
                    ].id_spec() && ocs[idx + 1].address_spec() == ocs[idx as int].address_spec());
                }
            }
            idx = idx + 1;
        }
        proof {
            assert(ocs.take(n as int) =~= ocs);
            if self.changes_spec().len() > 0 && self.changes_spec().last() is Destroyed {
                assert(false);
            }
        }
        n
    }

    /// An owned copy of the change at position `idx` of `other`'s log.
    fn duplicate_change_at(&self, other: &PostState, idx: usize) -> (r: Change)
        requires
            idx < other.changes_spec().len(),
            changes_wf(other.changes_spec()),
        ensures
            r.view_spec() == other.changes_spec()[idx as int],
            r.wf(),
    {
        other.changes[idx].duplicate()
    }
}


impl PostState {
    /// Write the journal to the store within the caller's transaction,
    /// consuming it. Changes are sorted by `(transition id, address)`,
    /// split into the account and storage classes, and appended to the
    /// changeset tables under keys rebased by `first_transition_id`;
    /// then the latest storage, account and bytecode state is written.
    /// The in-memory store cannot fail, so the result is always `Ok`;
    /// a store that can must have the enclosing transaction rolled back
    /// by the caller on error.
    ///
    /// The append path of the dup-sort changeset tables demands keys in
    /// non-decreasing order, which the sort guarantees only when no two
    /// storage-class changes share a `(transition id, address)` key; the
    /// executor emits at most one storage changeset, or one wipe, per
    /// account per transition.
    #[verifier::rlimit(100)]
    pub fn write_to_db(
        self,
        tx: &mut crate::db::DbTransaction,
        first_transition_id: u64,
    ) -> (r: Result<(), crate::types::StateError>)
        requires
            self.wf(),
            old(tx).wf(),
            first_transition_id + self.count_spec() <= u64::MAX,
            forall|i: int|
                0 <= i < old(tx).account_cs_view().len() ==> (#[trigger] old(
                    tx,
                ).account_cs_view()[i]).0 < first_transition_id,
            forall|i: int|
                0 <= i < old(tx).storage_cs_view().len() ==> (#[trigger] old(
                    tx,
                ).storage_cs_view()[i]).0.transition < first_transition_id,
            crate::persist::storage_keys_distinct(self.changes_spec()),
        ensures
            r == Ok::<(), crate::types::StateError>(()),
            final(tx).wf(),
            final(tx).account_cs_view() == old(tx).account_cs_view() + crate::persist::acs_rows(
                crate::persist::sort_changes_spec(self.changes_spec()).filter(
                    |c: ChangeModel| c.is_account_class(),
                ),
                first_transition_id,
            ),
            final(tx).storage_cs_view() == old(tx).storage_cs_view() + crate::persist::scs_rows(
                crate::persist::sort_changes_spec(self.changes_spec()).filter(
                    |c: ChangeModel| crate::persist::is_storage_class(c),
                ),
                first_transition_id,
                *old(tx),
            ),
            final(tx).accounts_view() == crate::persist::persisted_accounts(
                old(tx).accounts_view(),
                self.accounts_spec(),
            ),
            forall|a: Address|
                #[trigger] final(tx).slots_view(a) == if self.storage_spec().contains_key(a) {
                    crate::persist::persisted_slots(
                        if self.storage_spec()[a].wiped {
                            Map::<U256, U256>::empty()
                        } else {
                            old(tx).slots_view(a)
                        },
                        self.storage_spec()[a].slots,
                    )
                } else {
                    old(tx).slots_view(a)
                },
            final(tx).bytecodes_view() == old(tx).bytecodes_view().union_prefer_right(
                self.bytecode_spec(),
            ),
            final(tx).account_history_view() == old(tx).account_history_view(),
            final(tx).storage_history_view() == old(tx).storage_history_view(),
    {
        let ghost models = self.changes_spec();
        let ghost db0 = *old(tx);
        let PostState { accounts, storage, changes, bytecode, .. } = self;
        proof {
            assert(change_models(changes@) == models);
            assert forall|i: int| 0 <= i < changes@.len() implies (#[trigger] changes@[i]).wf() by {
                assert(models[i] == changes@[i].view_spec());
                assert(models[i].wf_spec());
            }
        }
        let sorted = crate::persist::sort_changes(&changes);
        let ghost sorted_models = change_models(sorted@);
        proof {
            crate::persist::lemma_sort_spec_multiset(models);
            broadcast use vstd::seq_lib::group_to_multiset_ensures;

            assert forall|i: int| 0 <= i < sorted_models.len() implies first_transition_id + (
            #[trigger] sorted_models[i]).id_spec() <= u64::MAX by {
                assert forall|x: ChangeModel|
                    #[trigger] sorted_models.to_multiset().count(x) <= models.to_multiset().count(
                        x,
                    ) by {
                }
                crate::persist::lemma_elements_carry(models, sorted_models, i);
                let j = choose|j: int| 0 <= j < models.len() && #[trigger] models[j]
                    == sorted_models[i];
                assert(models[j].id_spec() <= self.count_spec());
            }
            assert forall|x: ChangeModel| #[trigger] sorted_models.to_multiset().count(x)
                <= models.to_multiset().count(x) by {
            }
            crate::persist::lemma_distinct_submultiset(models, sorted_models);
        }
        let parts = crate::persist::partition_changes(sorted);
        let acct = parts.0;
        let stor = parts.1;
        let ghost acct_models = change_models(acct@);
        let ghost stor_models = change_models(stor@);
        proof {
            crate::persist::lemma_filter_submultiset(
                sorted_models,
                |c: ChangeModel| c.is_account_class(),
            );
            crate::persist::lemma_filter_submultiset(
                sorted_models,
                |c: ChangeModel| crate::persist::is_storage_class(c),
            );
            crate::persist::lemma_distinct_submultiset(sorted_models, stor_models);
            assert forall|i: int| 0 <= i < acct_models.len() implies first_transition_id + (
            #[trigger] acct_models[i]).id_spec() <= u64::MAX by {
                crate::persist::lemma_elements_carry(sorted_models, acct_models, i);
            }
            assert forall|i: int| 0 <= i < stor_models.len() implies first_transition_id + (
            #[trigger] stor_models[i]).id_spec() <= u64::MAX by {
                crate::persist::lemma_elements_carry(sorted_models, stor_models, i);
            }
            assert forall|i: int| 0 <= i < stor_models.len() implies crate::persist::is_storage_class(
                #[trigger] stor_models[i],
            ) by {
                sorted_models.lemma_filter_pred(
                    |c: ChangeModel| crate::persist::is_storage_class(c),
                    i,
                );
            }
        }
        crate::persist::write_account_changes(tx, &acct, first_transition_id);
        let ghost after_a = *tx;
        crate::persist::write_storage_changes(tx, &stor, first_transition_id);
        proof {
            crate::persist::lemma_scs_rows_entries(stor_models, first_transition_id, after_a, db0);
        }
        let ghost after_b = *tx;
        proof {
            storage.lemma_entries_in_map();
            assert forall|i: int| 0 <= i < storage.seq_spec().len() implies (
            #[trigger] storage.seq_spec()[i]).1.storage.wf() by {
                assert(storage.map_spec().contains_key(storage.seq_spec()[i].0));
            }
        }
        crate::persist::write_plain_storage(tx, &storage);
        let ghost after_c = *tx;
        crate::persist::write_plain_accounts(tx, &accounts);
        crate::persist::write_bytecodes(tx, &bytecode);
        proof {
            // the plain storage result carries through the later phases
            assert forall|a: Address|
                #[trigger] tx.slots_view(a) == if storage_models(
                    storage.map_spec(),
                ).contains_key(a) {
                    crate::persist::persisted_slots(
                        if storage_models(storage.map_spec())[a].wiped {
                            Map::<U256, U256>::empty()
                        } else {
                            db0.slots_view(a)
                        },
                        storage_models(storage.map_spec())[a].slots,
                    )
                } else {
                    db0.slots_view(a)
                } by {
                assert(tx.entries_view(a) == after_c.entries_view(a));
                assert(tx.slots_view(a) == after_c.slots_view(a));
                assert(after_b.entries_view(a) == db0.entries_view(a));
                assert(after_b.slots_view(a) == db0.slots_view(a));
                if storage.map_spec().contains_key(a) {
                    assert(storage_models(storage.map_spec())[a].wiped == storage.map_spec()[
                        a
                    ].wiped);
                    assert(storage_models(storage.map_spec())[a].slots == storage.map_spec()[
                        a
                    ].storage.map_spec());
                }
            }
            assert(tx.accounts_view() == crate::persist::persisted_accounts(
                db0.accounts_view(),
                accounts.map_spec(),
            ));
            assert(tx.bytecodes_view() == db0.bytecodes_view().union_prefer_right(
                code_models(bytecode.map_spec()),
            ));
        }
        Ok(())
    }
}

/// The observable state of a journal: transition count, change log,
/// receipts and bytecode. The account and storage caches are determined
/// by the change log through the folds.
pub struct JournalModel {
    /// The transition count.
    pub count: u64,
    /// The change log.
    pub changes: Seq<ChangeModel>,
    /// The receipts.
    pub receipts: Seq<Receipt>,
    /// The bytecode cache.
    pub bytecode: Map<H256, Seq<u8>>,
}

impl PostState {
    /// This journal's observable state.
    pub open spec fn journal_model(self) -> JournalModel {
        JournalModel {
            count: self.count_spec(),
            changes: self.changes_spec(),
            receipts: self.receipts_spec(),
            bytecode: self.bytecode_spec(),
        }
    }
}

/// What [`PostState::extend`] does, at the model level.
pub open spec fn extend_model(a: JournalModel, b: JournalModel) -> JournalModel
    recommends
        a.count + b.count <= u64::MAX,
{
    JournalModel {
        count: (a.count + b.count) as u64,
        changes: a.changes + rebased(b.changes, a.count),
        receipts: a.receipts + b.receipts,
        bytecode: b.bytecode.union_prefer_right(a.bytecode),
    }
}

/// Rebasing twice composes into one rebase by the summed offset.
pub proof fn lemma_rebase_compose(c: ChangeModel, m: u64, n: u64)
    requires
        n + m + c.id_spec() <= u64::MAX,
    ensures
        c.rebase_spec(m).rebase_spec(n) == c.rebase_spec((n + m) as u64),
{
    match c {
        ChangeModel::Created { .. } => {},
        ChangeModel::Changed { .. } => {},
        ChangeModel::SlotsChanged { .. } => {},
        ChangeModel::Wiped { .. } => {},
        ChangeModel::Destroyed { .. } => {},
    }
}

/// Extending is associative: folding `c` into `b` first and then the
/// result into `a` leaves the same journal as extending `a` by `b` and
/// then by `c`. Additivity of the transition count is part of the model:
/// an extension's count is the sum of the two counts.
pub proof fn lemma_extend_associative(a: JournalModel, b: JournalModel, c: JournalModel)
    requires
        a.count + b.count + c.count <= u64::MAX,
        ids_bounded(b.changes, b.count),
        ids_bounded(c.changes, c.count),
    ensures
        extend_model(extend_model(a, b), c) == extend_model(a, extend_model(b, c)),
{
    let lhs = extend_model(extend_model(a, b), c);
    let rhs = extend_model(a, extend_model(b, c));
    assert(lhs.count == rhs.count);
    assert(lhs.receipts =~= rhs.receipts);
    assert(lhs.bytecode =~= rhs.bytecode);
    assert(rebased(b.changes + rebased(c.changes, b.count), a.count) =~= rebased(
        b.changes,
        a.count,
    ) + rebased(rebased(c.changes, b.count), a.count));
    assert(rebased(rebased(c.changes, b.count), a.count) =~= rebased(
        c.changes,
        (a.count + b.count) as u64,
    )) by {
        assert forall|i: int| 0 <= i < c.changes.len() implies (#[trigger] rebased(
            rebased(c.changes, b.count),
            a.count,
        )[i]) == rebased(c.changes, (a.count + b.count) as u64)[i] by {
            lemma_rebase_compose(c.changes[i], b.count, a.count);
        }
    }
    assert(lhs.changes =~= rhs.changes);
}

/// Adding the same bytecode twice under one hash leaves the cache exactly
/// as one addition does: bytecodes are immutable under their hash.
pub proof fn lemma_bytecode_idempotent(m: Map<H256, Seq<u8>>, h: H256, code: Seq<u8>)
    ensures
        add_code_spec(add_code_spec(m, h, code), h, code) == add_code_spec(m, h, code),
{
}

/// Some change in the log carries transition id `t`.
pub open spec fn has_change_at(cs: Seq<ChangeModel>, t: u64) -> bool {
    exists|i: int| 0 <= i < cs.len() && (#[trigger] cs[i]).id_spec() == t
}

/// The transition count equals the greatest transition id plus one, under
/// the usage discipline that every transition holds at least one change
/// and `finish_transition` followed the last change; an empty journal
/// counts zero.
pub proof fn lemma_transition_count(ps: PostState)
    requires
        ps.wf(),
        forall|i: int|
            0 <= i < ps.changes_spec().len() ==> (#[trigger] ps.changes_spec()[i]).id_spec()
                < ps.count_spec(),
        forall|t: u64| t < ps.count_spec() ==> #[trigger] has_change_at(ps.changes_spec(), t),
    ensures
        ps.count_spec() == 0 ==> ps.changes_spec().len() == 0,
        ps.count_spec() > 0 ==> exists|i: int|
            0 <= i < ps.changes_spec().len() && (#[trigger] ps.changes_spec()[i]).id_spec() + 1
                == ps.count_spec(),
{
    if ps.count_spec() == 0 && ps.changes_spec().len() > 0 {
        assert(ps.changes_spec()[0].id_spec() < 0);
    }
    if ps.count_spec() > 0 {
        let t = (ps.count_spec() - 1) as u64;
        assert(has_change_at(ps.changes_spec(), t));
        let i = choose|i: int|
            0 <= i < ps.changes_spec().len() && (#[trigger] ps.changes_spec()[i]).id_spec() == t;
        assert(ps.changes_spec()[i].id_spec() + 1 == ps.count_spec());
    }
}

/// The journal's caches are always the left fold of its change log: the
/// fold-consistency invariant, re-stated as a law.
pub proof fn lemma_fold_consistency(ps: PostState)
    requires
        ps.wf(),
    ensures
        ps.accounts_spec() == fold_accounts(ps.changes_spec()),
        ps.storage_spec() == fold_storage(ps.changes_spec()),
{
}

/// Every destroy in a well-formed journal is immediately followed by the
/// matching wipe at the same transition and address.
pub proof fn lemma_destroy_pairs_wipe(ps: PostState, i: int)
    requires
        ps.wf(),
        0 <= i < ps.changes_spec().len(),
        ps.changes_spec()[i] is Destroyed,
    ensures
        i + 1 < ps.changes_spec().len(),
        ps.changes_spec()[i + 1] is Wiped,
        ps.changes_spec()[i + 1].id_spec() == ps.changes_spec()[i].id_spec(),
        ps.changes_spec()[i + 1].address_spec() == ps.changes_spec()[i].address_spec(),
{
    if i + 1 == ps.changes_spec().len() {
        assert(ps.changes_spec().last() is Destroyed);
    }
}

} // verus!
