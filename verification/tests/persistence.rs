use state_journal::db::{AddressSlot, DbTransaction, TidAddress};
use state_journal::history::{historical_account, historical_bytecode, historical_storage};
use state_journal::post_state::PostState;
use state_journal::slots::SlotList;
use state_journal::types::{Account, Address, Bytecode, StateError, H256, U256};

fn addr(n: u128) -> Address {
    Address { hi: 0, lo: n }
}

fn acct(balance: u128, nonce: u64) -> Account {
    Account { balance: U256 { hi: 0, lo: balance }, nonce, bytecode_hash: None }
}

fn u(n: u128) -> U256 {
    U256 { hi: 0, lo: n }
}

#[test]
fn zero_write_elision() {
    let a = addr(1);
    let mut ps = PostState::new();
    let mut cs: SlotList<(U256, U256)> = SlotList::new();
    cs.insert(u(7), (u(42), u(0)));
    ps.change_storage(a, cs);
    ps.finish_transition();

    let mut tx = DbTransaction::new();
    ps.write_to_db(&mut tx, 0).unwrap();

    // no plain row materialized for the zeroed slot
    assert_eq!(tx.get_storage(&a, &u(7)), None);
    // one changeset row holding the prior value
    assert_eq!(tx.storage_cs_len(), 1);
    let (key, entry) = tx.storage_cs_at(0);
    assert_eq!(key, TidAddress { transition: 0, address: a });
    assert_eq!(entry.key, H256 { hi: 0, lo: 7 });
    assert_eq!(entry.value, u(42));
}

#[test]
fn persistence_round_trip() {
    let a = addr(1);
    let b = addr(2);
    let mut ps = PostState::new();
    ps.create_account(a, acct(1, 0));
    let mut cs: SlotList<(U256, U256)> = SlotList::new();
    cs.insert(u(5), (u(0), u(11)));
    ps.change_storage(a, cs);
    ps.finish_transition();
    ps.change_account(a, acct(1, 0), acct(2, 1));
    ps.create_account(b, acct(7, 0));
    ps.finish_transition();
    let h = H256 { hi: 0, lo: 9 };
    ps.add_bytecode(h, Bytecode { code: vec![0x60, 0x00] });

    let mut tx = DbTransaction::new();
    ps.write_to_db(&mut tx, 10).unwrap();

    // plain state equals the final cache
    assert_eq!(tx.get_account(&a), Some(acct(2, 1)));
    assert_eq!(tx.get_account(&b), Some(acct(7, 0)));
    assert_eq!(tx.get_storage(&a, &u(5)), Some(u(11)));
    assert_eq!(tx.get_bytecode(&h).unwrap().code, vec![0x60, 0x00]);

    // account changeset rows carry the rebased keys and pre-states
    assert_eq!(tx.account_cs_len(), 3);
    let (k0, r0) = tx.account_cs_at(0);
    assert_eq!(k0, 10);
    assert_eq!(r0.address, a);
    assert_eq!(r0.info, None);
    let (k1, r1) = tx.account_cs_at(1);
    assert_eq!(k1, 11);
    assert_eq!(r1.address, a);
    assert_eq!(r1.info, Some(acct(1, 0)));
    let (k2, r2) = tx.account_cs_at(2);
    assert_eq!(k2, 11);
    assert_eq!(r2.address, b);
    assert_eq!(r2.info, None);
}

#[test]
fn changeset_rows_sort_by_transition_then_address() {
    // two accounts changed in the same transition, emitted in reverse
    // address order: the persisted rows come out address-sorted
    let lo = addr(1);
    let hi = addr(2);
    let mut ps = PostState::new();
    ps.create_account(hi, acct(2, 0));
    ps.create_account(lo, acct(1, 0));
    ps.finish_transition();

    let mut tx = DbTransaction::new();
    ps.write_to_db(&mut tx, 0).unwrap();
    assert_eq!(tx.account_cs_len(), 2);
    assert_eq!(tx.account_cs_at(0).1.address, lo);
    assert_eq!(tx.account_cs_at(1).1.address, hi);
}

#[test]
fn wipe_capture_records_prior_entries() {
    let a = addr(1);

    // first block: two live slots
    let mut ps1 = PostState::new();
    ps1.create_account(a, acct(1, 0));
    let mut cs: SlotList<(U256, U256)> = SlotList::new();
    cs.insert(u(1), (u(0), u(10)));
    cs.insert(u(2), (u(0), u(20)));
    ps1.change_storage(a, cs);
    ps1.finish_transition();
    let mut tx = DbTransaction::new();
    ps1.write_to_db(&mut tx, 0).unwrap();
    assert_eq!(tx.get_storage(&a, &u(1)), Some(u(10)));

    // second block: the account is destroyed; the wipe captures both
    let mut ps2 = PostState::new();
    ps2.destroy_account(a, acct(1, 0));
    ps2.finish_transition();
    ps2.write_to_db(&mut tx, 1).unwrap();

    assert_eq!(tx.get_storage(&a, &u(1)), None);
    assert_eq!(tx.get_storage(&a, &u(2)), None);
    let n = tx.storage_cs_len();
    let mut captured = Vec::new();
    for i in 0..n {
        let (key, entry) = tx.storage_cs_at(i);
        if key == (TidAddress { transition: 1, address: a }) {
            captured.push((entry.key.lo, entry.value.lo));
        }
    }
    assert_eq!(captured, vec![(1, 10), (2, 20)]);
}

#[test]
fn staged_writes_survive_a_wipe() {
    // a wipe retains staged entries; persisting writes them after clearing
    let a = addr(3);
    let mut ps = PostState::new();
    let mut cs: SlotList<(U256, U256)> = SlotList::new();
    cs.insert(u(8), (u(0), u(80)));
    ps.change_storage(a, cs);
    ps.destroy_account(a, acct(0, 0));
    ps.finish_transition();

    let mut tx = DbTransaction::new();
    ps.write_to_db(&mut tx, 0).unwrap();
    assert_eq!(tx.get_storage(&a, &u(8)), Some(u(80)));
}

#[test]
fn deleted_accounts_leave_plain_state() {
    let a = addr(1);
    let mut tx = DbTransaction::new();
    tx.upsert_account(a, acct(5, 5));
    let mut ps = PostState::new();
    ps.destroy_account(a, acct(5, 5));
    ps.finish_transition();
    ps.write_to_db(&mut tx, 0).unwrap();
    assert_eq!(tx.get_account(&a), None);
}

#[test]
fn historical_account_reads_pre_state() {
    let a = addr(1);
    let mut tx = DbTransaction::new();
    let mut ps = PostState::new();
    ps.create_account(a, acct(1, 0));
    ps.finish_transition();
    ps.change_account(a, acct(1, 0), acct(2, 0));
    ps.finish_transition();
    ps.write_to_db(&mut tx, 0).unwrap();
    tx.put_account_history(a, vec![0, 1]);

    // at transition 1 the first change at or after is the one at 1,
    // whose pre-state was the created account
    assert_eq!(historical_account(&tx, 1, &a), Ok(Some(acct(1, 0))));
    // past the recorded history the plain state answers
    assert_eq!(historical_account(&tx, 2, &a), Ok(Some(acct(2, 0))));
    // an unknown account is absent, not an error
    assert_eq!(historical_account(&tx, 0, &addr(9)), Ok(None));
}

#[test]
fn historical_account_surfaces_corruption() {
    let a = addr(1);
    let mut tx = DbTransaction::new();
    // the history index claims a change at transition 3 with no row
    tx.put_account_history(a, vec![3]);
    assert_eq!(historical_account(&tx, 0, &a), Err(StateError::Corruption));
}

#[test]
fn historical_storage_reads_pre_state() {
    let a = addr(1);
    let mut tx = DbTransaction::new();
    let mut ps = PostState::new();
    let mut cs: SlotList<(U256, U256)> = SlotList::new();
    cs.insert(u(7), (u(0), u(42)));
    ps.change_storage(a, cs);
    ps.finish_transition();
    let mut cs2: SlotList<(U256, U256)> = SlotList::new();
    cs2.insert(u(7), (u(42), u(43)));
    ps.change_storage(a, cs2);
    ps.finish_transition();
    ps.write_to_db(&mut tx, 0).unwrap();
    tx.put_storage_history(AddressSlot { address: a, slot: u(7) }, vec![0, 1]);

    assert_eq!(historical_storage(&tx, 1, &a, &u(7)), Some(u(42)));
    assert_eq!(historical_storage(&tx, 2, &a, &u(7)), Some(u(43)));
    assert_eq!(historical_storage(&tx, 0, &a, &u(9)), None);
}

#[test]
fn bytecode_lookup_is_transition_independent() {
    let h = H256 { hi: 1, lo: 2 };
    let mut tx = DbTransaction::new();
    tx.upsert_bytecode(h, Bytecode { code: vec![5, 6, 7] });
    assert_eq!(historical_bytecode(&tx, &h).unwrap().code, vec![5, 6, 7]);
    assert!(historical_bytecode(&tx, &H256 { hi: 0, lo: 0 }).is_none());
}
