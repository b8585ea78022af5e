//! The historical read path: given a store snapshot and a transition id,
//! answer what an account or storage slot held as of that transition, by
//! walking the history indexes and change sets backwards.

use crate::db::{AccountBeforeTx, AddressSlot, DbTransaction, TidAddress};
use crate::types::{Account, Address, StateError, StorageEntry, H256, U256};
use vstd::prelude::*;

verus! {

/// The first element of a sorted transition list at or after `t`.
pub open spec fn smallest_geq_spec(s: Seq<u64>, t: u64) -> Option<u64>
    decreases s.len(),
{
    if s.len() == 0 {
        None
    } else if s.first() >= t {
        Some(s.first())
    } else {
        smallest_geq_spec(s.drop_first(), t)
    }
}

/// The info of the first account changeset row under key `t` whose
/// subkey is `a`.
pub open spec fn find_acs_row(
    rows: Seq<(u64, AccountBeforeTx)>,
    t: u64,
    a: Address,
) -> Option<Option<Account>>
    decreases rows.len(),
{
    if rows.len() == 0 {
        None
    } else if rows.first().0 == t && rows.first().1.address == a {
        Some(rows.first().1.info)
    } else {
        find_acs_row(rows.drop_first(), t, a)
    }
}

/// The value of the first storage changeset row under key `(t, a)` whose
/// slot is `slot`.
pub open spec fn find_scs_row(
    rows: Seq<(TidAddress, StorageEntry)>,
    t: u64,
    a: Address,
    slot: U256,
) -> Option<U256>
    decreases rows.len(),
{
    if rows.len() == 0 {
        None
    } else if rows.first().0.transition == t && rows.first().0.address == a
        && rows.first().1.key == H256::from_slot_spec(slot) {
        Some(rows.first().1.value)
    } else {
        find_scs_row(rows.drop_first(), t, a, slot)
    }
}

/// The account state of `a` as of transition `t`: the pre-change info of
/// the first change recorded at or after `t`, or the current plain state
/// when no such change is recorded. A history entry whose changeset row
/// is missing is corruption.
pub open spec fn account_as_of(db: DbTransaction, t: u64, a: Address) -> Result<
    Option<Account>,
    StateError,
> {
    let from_plain: Result<Option<Account>, StateError> = if db.accounts_view().contains_key(a) {
        Ok(Some(db.accounts_view()[a]))
    } else {
        Ok(None)
    };
    if db.account_history_view().contains_key(a) {
        match smallest_geq_spec(db.account_history_view()[a], t) {
            Some(tstar) => match find_acs_row(db.account_cs_view(), tstar, a) {
                Some(info) => Ok(info),
                None => Err(StateError::Corruption),
            },
            None => from_plain,
        }
    } else {
        from_plain
    }
}

/// The value of `(a, slot)` as of transition `t`: the pre-change value
/// of the first change of that slot recorded at or after `t` (a wipe
/// captures every live slot, so a slot with no row at its recorded
/// change did not exist then), or the current plain state when no later
/// change is recorded.
pub open spec fn storage_as_of(db: DbTransaction, t: u64, a: Address, slot: U256) -> Option<
    U256,
> {
    let key = AddressSlot { address: a, slot };
    let from_plain: Option<U256> = if db.slots_view(a).contains_key(slot) {
        Some(db.slots_view(a)[slot])
    } else {
        None
    };
    if db.storage_history_view().contains_key(key) {
        match smallest_geq_spec(db.storage_history_view()[key], t) {
            Some(tstar) => find_scs_row(db.storage_cs_view(), tstar, a, slot),
            None => from_plain,
        }
    } else {
        from_plain
    }
}

/// Find the first element of a sorted list at or after `t`.
fn smallest_geq(list: &Vec<u64>, t: u64) -> (r: Option<u64>)
    ensures
        r == smallest_geq_spec(list@, t),
{
    let n = list.len();
    let mut i: usize = 0;
    proof {
        assert(list@.skip(0) =~= list@);
    }
    while i < n
        invariant
            n == list@.len(),
            i <= n,
            smallest_geq_spec(list@, t) == smallest_geq_spec(list@.skip(i as int), t),
            forall|j: int| 0 <= j < i ==> #[trigger] list@[j] < t,
        decreases n - i,
    {
        let v = list[i];
        proof {
            assert(list@.skip(i as int).first() == list@[i as int]);
            assert(list@.skip(i as int).drop_first() =~= list@.skip(i + 1));
        }
        if v >= t {
            return Some(v);
        }
        i = i + 1;
    }
    proof {
        assert(list@.skip(n as int).len() == 0);
    }
    None
}

/// Look up the account state of `address` as of `transition`.
pub fn historical_account(db: &DbTransaction, transition: u64, address: &Address) -> (r: Result<
    Option<Account>,
    StateError,
>)
    requires
        db.wf(),
    ensures
        r == account_as_of(*db, transition, *address),
{
    let tstar = match db.account_history_of(address) {
        Some(list) => smallest_geq(list, transition),
        None => None,
    };
    match tstar {
        Some(tstar) => {
            let n = db.account_cs_len();
            let mut i: usize = 0;
            proof {
                assert(db.account_cs_view().skip(0) =~= db.account_cs_view());
            }
            while i < n
                invariant
                    db.wf(),
                    n == db.account_cs_view().len(),
                    i <= n,
                    db.account_history_view().contains_key(*address),
                    smallest_geq_spec(db.account_history_view()[*address], transition) == Some(
                        tstar,
                    ),
                    find_acs_row(db.account_cs_view(), tstar, *address) == find_acs_row(
                        db.account_cs_view().skip(i as int),
                        tstar,
                        *address,
                    ),
                decreases n - i,
            {
                let row = db.account_cs_at(i);
                proof {
                    assert(db.account_cs_view().skip(i as int).first() == db.account_cs_view()[
                        i as int
                    ]);
                    assert(db.account_cs_view().skip(i as int).drop_first()
                        =~= db.account_cs_view().skip(i + 1));
                }
                if row.0 == tstar && row.1.address.hi == address.hi && row.1.address.lo
                    == address.lo {
                    proof {
                        assert(row.1.address == *address);
                        assert(find_acs_row(
                            db.account_cs_view().skip(i as int),
                            tstar,
                            *address,
                        ) == Some(row.1.info));
                    }
                    return Ok(row.1.info);
                }
                i = i + 1;
            }
            proof {
                assert(db.account_cs_view().skip(n as int).len() == 0);
            }
            Err(StateError::Corruption)
        },
        None => Ok(db.get_account(address)),
    }
}

/// Look up the value of `(address, slot)` as of `transition`. Absence is
/// not an error: a slot with no recorded value returns nothing.
pub fn historical_storage(
    db: &DbTransaction,
    transition: u64,
    address: &Address,
    slot: &U256,
) -> (r: Option<U256>)
    requires
        db.wf(),
    ensures
        r == storage_as_of(*db, transition, *address, *slot),
{
    let key = AddressSlot { address: *address, slot: *slot };
    let tstar = match db.storage_history_of(&key) {
        Some(list) => smallest_geq(list, transition),
        None => None,
    };
    match tstar {
        Some(tstar) => {
            let subkey = H256::from_slot(slot);
            let n = db.storage_cs_len();
            let mut i: usize = 0;
            proof {
                assert(db.storage_cs_view().skip(0) =~= db.storage_cs_view());
            }
            while i < n
                invariant
                    db.wf(),
                    n == db.storage_cs_view().len(),
                    i <= n,
                    subkey == H256::from_slot_spec(*slot),
                    key == (AddressSlot { address: *address, slot: *slot }),
                    db.storage_history_view().contains_key(key),
                    smallest_geq_spec(db.storage_history_view()[key], transition) == Some(tstar),
                    find_scs_row(db.storage_cs_view(), tstar, *address, *slot) == find_scs_row(
                        db.storage_cs_view().skip(i as int),
                        tstar,
                        *address,
                        *slot,
                    ),
                decreases n - i,
            {
                let row = db.storage_cs_at(i);
                proof {
                    assert(db.storage_cs_view().skip(i as int).first() == db.storage_cs_view()[
                        i as int
                    ]);
                    assert(db.storage_cs_view().skip(i as int).drop_first()
                        =~= db.storage_cs_view().skip(i + 1));
                }
                if row.0.transition == tstar && row.0.address.hi == address.hi
                    && row.0.address.lo == address.lo && row.1.key.hi == subkey.hi
                    && row.1.key.lo == subkey.lo {
                    proof {
                        assert(row.0.address == *address);
                        assert(row.1.key == H256::from_slot_spec(*slot));
                        assert(find_scs_row(
                            db.storage_cs_view().skip(i as int),
                            tstar,
                            *address,
                            *slot,
                        ) == Some(row.1.value));
                    }
                    return Some(row.1.value);
                }
                i = i + 1;
            }
            proof {
                assert(db.storage_cs_view().skip(n as int).len() == 0);
            }
            None
        },
        None => db.get_storage(address, slot),
    }
}

/// Look a bytecode up by its hash; transition-independent.
pub fn historical_bytecode<'a>(db: &'a DbTransaction, hash: &H256) -> (r: Option<
    &'a crate::types::Bytecode,
>)
    requires
        db.wf(),
    ensures
        (r is Some <==> db.bytecodes_view().contains_key(*hash)),
        (r matches Some(code) ==> db.bytecodes_view()[*hash] == code.code@),
{
    db.get_bytecode(hash)
}

} // verus!
