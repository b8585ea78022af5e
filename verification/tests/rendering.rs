use state_journal::hex::{hex64, hex_short};
use state_journal::prestate::{prestate_account, render_storage_object, ExecutedAccount};
use state_journal::slots::SlotList;
use state_journal::sync::{
    ForkchoiceState, PipelineState, SealedBlock, SyncAction, SyncController,
    SyncControllerMessage,
};
use state_journal::tables::{table_count, table_type, Table, TableType};
use state_journal::types::{Address, H256, U256};

fn u(n: u128) -> U256 {
    U256 { hi: 0, lo: n }
}

#[test]
fn word_builders() {
    assert_eq!(U256::zero(), u(0));
    assert!(U256::zero().is_zero());
    assert_eq!(U256::from_u128(7), u(7));
    assert!(U256::from_u128(3).lt(&U256::from_u128(4)));
    assert_eq!(H256::zero(), H256 { hi: 0, lo: 0 });
    assert_eq!(H256::from_slot(&u(9)), H256 { hi: 0, lo: 9 });
}

#[test]
fn hex64_pads_to_sixty_four_nibbles() {
    let one = hex64(&u(1));
    assert_eq!(
        one,
        "0x0000000000000000000000000000000000000000000000000000000000000001"
    );
    let ff = hex64(&u(255));
    assert_eq!(
        ff,
        "0x00000000000000000000000000000000000000000000000000000000000000ff"
    );
    let top = hex64(&U256 { hi: 1, lo: 0 });
    assert_eq!(
        top,
        "0x0000000000000000000000000000000100000000000000000000000000000000"
    );
}

#[test]
fn hex_short_drops_leading_zeros() {
    assert_eq!(hex_short(&u(0)), "0x0");
    assert_eq!(hex_short(&u(255)), "0xff");
    assert_eq!(hex_short(&u(0x1a2b)), "0x1a2b");
    assert_eq!(
        hex_short(&U256 { hi: 1, lo: 0 }),
        "0x100000000000000000000000000000000"
    );
}

#[test]
fn storage_object_renders_prestate_pairs() {
    let mut st: SlotList<U256> = SlotList::new();
    st.insert(u(1), u(255));
    let rendered = render_storage_object(&st);
    assert_eq!(
        rendered,
        "{\"0x0000000000000000000000000000000000000000000000000000000000000001\": \
         \"0x00000000000000000000000000000000000000000000000000000000000000ff\"}"
    );
}

#[test]
fn storage_object_orders_and_separates_members() {
    let mut st: SlotList<U256> = SlotList::new();
    st.insert(u(2), u(20));
    st.insert(u(1), u(10));
    let rendered = render_storage_object(&st);
    let one = "0x0000000000000000000000000000000000000000000000000000000000000001";
    let ten = "0x000000000000000000000000000000000000000000000000000000000000000a";
    let two = "0x0000000000000000000000000000000000000000000000000000000000000002";
    let twenty = "0x0000000000000000000000000000000000000000000000000000000000000014";
    let expected = format!(
        "{{\"{}\": \"{}\", \"{}\": \"{}\"}}",
        one, ten, two, twenty
    );
    assert_eq!(rendered, expected);
}

#[test]
fn prestate_excludes_not_existing_accounts() {
    let e = ExecutedAccount {
        address: Address { hi: 0, lo: 1 },
        not_existing: true,
        balance: u(1),
        nonce: 0,
        storage: SlotList::new(),
        code: vec![],
    };
    assert!(prestate_account(&e).is_none());
}

#[test]
fn prestate_drops_empty_code() {
    let e = ExecutedAccount {
        address: Address { hi: 0, lo: 1 },
        not_existing: false,
        balance: u(5),
        nonce: 3,
        storage: SlotList::new(),
        code: vec![],
    };
    let p = prestate_account(&e).unwrap();
    assert!(p.code.is_none());
    assert_eq!(p.balance, u(5));
    assert_eq!(p.nonce, 3);

    let e2 = ExecutedAccount { code: vec![0x60], ..e };
    let p2 = prestate_account(&e2).unwrap();
    assert_eq!(p2.code.unwrap().code, vec![0x60]);
}

#[test]
fn sync_controller_parks_without_forkchoice() {
    let mut c = SyncController::new();
    let action = c.poll(&vec![], false, true);
    assert_eq!(action, SyncAction::Park);
    assert_eq!(c.pipeline_state, PipelineState::Idle);
}

#[test]
fn sync_controller_starts_pipeline_when_needed() {
    let mut c = SyncController::new();
    let zero = H256 { hi: 0, lo: 0 };
    let fc = ForkchoiceState {
        head_block_hash: H256 { hi: 0, lo: 7 },
        safe_block_hash: zero,
        finalized_block_hash: zero,
    };
    let msgs = vec![
        SyncControllerMessage::NewPayload(SealedBlock { number: 1, hash: zero }),
        SyncControllerMessage::ForkchoiceUpdated(fc),
    ];
    let action = c.poll(&msgs, false, true);
    assert_eq!(action, SyncAction::StartPipeline);
    assert_eq!(c.pipeline_state, PipelineState::Running);
    assert_eq!(c.forkchoice_state, Some(fc));
}

#[test]
fn sync_controller_goes_idle_when_done() {
    let mut c = SyncController::new();
    c.on_message(SyncControllerMessage::ForkchoiceUpdated(ForkchoiceState {
        head_block_hash: H256 { hi: 0, lo: 1 },
        safe_block_hash: H256 { hi: 0, lo: 1 },
        finalized_block_hash: H256 { hi: 0, lo: 1 },
    }));
    let action = c.poll(&vec![], false, true);
    assert_eq!(action, SyncAction::StartPipeline);
    // the running pipeline is pending: keep polling
    let action = c.poll(&vec![], false, true);
    assert_eq!(action, SyncAction::PollPipeline);
    // it completes and sync is no longer needed: back to idle
    let action = c.poll(&vec![], true, false);
    assert_eq!(action, SyncAction::Park);
    assert_eq!(c.pipeline_state, PipelineState::Idle);
}

#[test]
fn table_catalogue_marks_dup_sort_tables() {
    assert_eq!(table_count(), 20);
    assert_eq!(table_type(Table::PlainStorageState), TableType::DupSort);
    assert_eq!(table_type(Table::AccountChangeSet), TableType::DupSort);
    assert_eq!(table_type(Table::StorageChangeSet), TableType::DupSort);
    assert_eq!(table_type(Table::PlainAccountState), TableType::Table);
    assert_eq!(table_type(Table::Headers), TableType::Table);
}
