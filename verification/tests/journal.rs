use state_journal::change::Change;
use state_journal::types::{Bytecode, Receipt};
use state_journal::post_state::PostState;
use state_journal::slots::SlotList;
use state_journal::types::{Account, Address, H256, U256};

fn addr(n: u128) -> Address {
    Address { hi: 0, lo: n }
}

fn acct(balance: u128, nonce: u64) -> Account {
    Account { balance: U256 { hi: 0, lo: balance }, nonce, bytecode_hash: None }
}

fn u(n: u128) -> U256 {
    U256 { hi: 0, lo: n }
}

#[test]
fn create_then_change() {
    let a = addr(1);
    let mut ps = PostState::new();
    ps.create_account(a, acct(1, 0));
    ps.finish_transition();
    ps.change_account(a, acct(1, 0), acct(2, 0));
    ps.finish_transition();

    assert_eq!(ps.accounts().get(&a), Some(&Some(acct(2, 0))));
    assert_eq!(ps.transitions_count(), 2);
    let changes = ps.changes();
    assert_eq!(changes.len(), 2);
    assert!(matches!(changes[0], Change::AccountCreated { id: 0, .. }));
    assert!(matches!(changes[1], Change::AccountChanged { id: 1, .. }));
}

#[test]
fn destroy_wipes_storage() {
    let a = addr(1);
    let mut ps = PostState::new();
    ps.create_account(a, acct(1, 0));
    let mut cs: SlotList<(U256, U256)> = SlotList::new();
    cs.insert(u(7), (u(0), u(42)));
    ps.change_storage(a, cs);
    ps.finish_transition();
    ps.destroy_account(a, acct(1, 0));
    ps.finish_transition();

    assert_eq!(ps.accounts().get(&a), Some(&None));
    let st = ps.storage().get(&a).expect("storage entry");
    assert!(st.wiped);
    let changes = ps.changes();
    assert!(matches!(changes[changes.len() - 1], Change::StorageWiped { id: 1, .. }));
    assert!(matches!(
        changes[changes.len() - 2],
        Change::AccountDestroyed { id: 1, .. }
    ));
}

#[test]
fn change_storage_updates_latest_values() {
    let a = addr(9);
    let mut ps = PostState::new();
    let mut cs: SlotList<(U256, U256)> = SlotList::new();
    cs.insert(u(7), (u(0), u(42)));
    cs.insert(u(3), (u(0), u(5)));
    ps.change_storage(a, cs);
    let st = ps.storage().get(&a).expect("storage entry");
    assert!(!st.wiped);
    assert_eq!(st.storage.get(&u(7)), Some(u(42)));
    assert_eq!(st.storage.get(&u(3)), Some(u(5)));
    assert_eq!(st.storage.get(&u(1)), None);
}

#[test]
fn storage_write_after_wipe_clears_marker() {
    let a = addr(4);
    let mut ps = PostState::new();
    ps.destroy_account(a, acct(1, 0));
    ps.finish_transition();
    let mut cs: SlotList<(U256, U256)> = SlotList::new();
    cs.insert(u(1), (u(0), u(9)));
    ps.change_storage(a, cs);
    let st = ps.storage().get(&a).expect("storage entry");
    assert!(!st.wiped);
    assert_eq!(st.storage.get(&u(1)), Some(u(9)));
}

#[test]
fn extend_rebases_transitions() {
    let a = addr(1);
    let b = addr(2);
    let mut left = PostState::new();
    left.create_account(a, acct(1, 0));
    left.finish_transition();
    left.change_account(a, acct(1, 0), acct(2, 0));
    left.finish_transition();

    let mut right = PostState::new();
    right.create_account(b, acct(3, 0));
    right.finish_transition();

    left.extend(right);
    assert_eq!(left.transitions_count(), 3);
    let ids: Vec<u64> = left.changes().iter().map(|c| c.transition_id()).collect();
    assert_eq!(ids, vec![0, 1, 2]);
    assert_eq!(left.accounts().get(&b), Some(&Some(acct(3, 0))));
}

#[test]
fn extend_merges_receipts_and_bytecode() {
    let h = H256 { hi: 0, lo: 5 };
    let mut left = PostState::new();
    left.add_receipt(Receipt { success: true, cumulative_gas_used: 21000 });
    left.add_bytecode(h, Bytecode { code: vec![1, 2] });
    left.finish_transition();

    let mut right = PostState::new();
    right.add_receipt(Receipt { success: false, cumulative_gas_used: 42 });
    // the same hash with other bytes: the first write wins
    right.add_bytecode(h, Bytecode { code: vec![9] });
    right.finish_transition();

    left.extend(right);
    assert_eq!(left.receipts().len(), 2);
    assert_eq!(left.receipts()[1].cumulative_gas_used, 42);
    assert_eq!(left.bytecode().get(&h).unwrap().code, vec![1, 2]);
}

#[test]
fn bytecode_first_write_wins() {
    let h = H256 { hi: 0, lo: 1 };
    let mut ps = PostState::new();
    ps.add_bytecode(h, Bytecode { code: vec![1] });
    ps.add_bytecode(h, Bytecode { code: vec![2] });
    assert_eq!(ps.bytecode().get(&h).unwrap().code, vec![1]);
}

#[test]
fn transitions_count_counts_finishes() {
    let mut ps = PostState::new();
    assert_eq!(ps.transitions_count(), 0);
    ps.finish_transition();
    ps.finish_block_transition();
    assert_eq!(ps.transitions_count(), 2);
}
