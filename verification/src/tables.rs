//! The catalogue of database tables and their kinds.

use vstd::prelude::*;

verus! {

/// The kinds of tables the store can hold.
#[derive(Clone, Copy, Debug, PartialEq, Eq, Structural)]
pub enum TableType {
    /// A plain key-value table.
    Table,
    /// A duplicate-key (dup-sort) table: several values may share a key
    /// and iterate in sorted sub-key order.
    DupSort,
}

/// The tables the store declares.
#[derive(Clone, Copy, Debug, PartialEq, Eq, Structural)]
pub enum Table {
    /// Header hashes of the canonical chain, by block number.
    CanonicalHeaders,
    /// Total difficulty, by block.
    HeaderTd,
    /// Block numbers, by header hash.
    HeaderNumbers,
    /// Header bodies.
    Headers,
    /// Block bodies.
    BlockBodies,
    /// Cumulative transaction counts, by block.
    CumulativeTxCount,
    /// Bodies of non-canonical transactions.
    NonCanonicalTransactions,
    /// Canonical transaction bodies, by transaction number.
    Transactions,
    /// Transaction receipts, by transaction number.
    Receipts,
    /// Transaction logs, by transaction number.
    Logs,
    /// The current state of each account.
    PlainAccountState,
    /// The current value of each storage slot.
    PlainStorageState,
    /// Contract bytecodes, by hash.
    Bytecodes,
    /// Transitions that changed each account.
    AccountHistory,
    /// Transitions that changed each storage slot.
    StorageHistory,
    /// Account state before each transition.
    AccountChangeSet,
    /// Storage state before each transition.
    StorageChangeSet,
    /// Transaction senders.
    TxSenders,
    /// Configuration values.
    Config,
    /// The highest synced block of each stage.
    SyncStage,
}

/// The number of declared tables.
pub fn table_count() -> (r: usize)
    ensures
        r == 20,
{
    20
}

/// The kind of each table: the plain-storage table and the two changeset
/// tables are dup-sorted, every other table maps one key to one value.
pub fn table_type(t: Table) -> (r: TableType)
    ensures
        r == TableType::DupSort <==> (t == Table::PlainStorageState || t
            == Table::AccountChangeSet || t == Table::StorageChangeSet),
{
    match t {
        Table::PlainStorageState => TableType::DupSort,
        Table::AccountChangeSet => TableType::DupSort,
        Table::StorageChangeSet => TableType::DupSort,
        _ => TableType::Table,
    }
}

} // verus!
