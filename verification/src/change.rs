//! A single mutation to accounts or storage, tagged with the transition
//! it belongs to.

use crate::slots::{slot_sorted, SlotList};
use crate::types::{Account, Address, U256};
use vstd::prelude::*;

verus! {

/// A storage changeset: for each touched slot, the value before and the
/// value after, ordered by slot key.
pub type StorageChangeset = SlotList<(U256, U256)>;

/// A change to the state of accounts or storage.
pub enum Change {
    /// A new account was created.
    AccountCreated {
        /// The transition this change is part of.
        id: u64,
        /// The account's address.
        address: Address,
        /// The created account.
        account: Account,
    },
    /// An existing account was changed.
    AccountChanged {
        /// The transition this change is part of.
        id: u64,
        /// The account's address.
        address: Address,
        /// The account before the change.
        old_info: Account,
        /// The account after the change.
        new_info: Account,
    },
    /// Storage slots for an account were changed.
    StorageChanged {
        /// The transition this change is part of.
        id: u64,
        /// The account whose storage changed.
        address: Address,
        /// The changed slots with their prior and new values.
        changeset: StorageChangeset,
    },
    /// All storage for an account was wiped. Always emitted directly
    /// after the matching [`Change::AccountDestroyed`].
    StorageWiped {
        /// The transition this change is part of.
        id: u64,
        /// The account whose storage was wiped.
        address: Address,
    },
    /// An account was destroyed.
    AccountDestroyed {
        /// The transition this change is part of.
        id: u64,
        /// The destroyed account's address.
        address: Address,
        /// The account before it was destroyed.
        old_info: Account,
    },
}

/// The mathematical shape of a [`Change`], with the changeset as a
/// sequence of `(slot, (old value, new value))` pairs in ascending slot
/// order.
pub enum ChangeModel {
    /// A new account was created.
    Created { id: u64, address: Address, account: Account },
    /// An existing account was changed.
    Changed { id: u64, address: Address, old_info: Account, new_info: Account },
    /// Storage slots were changed.
    SlotsChanged { id: u64, address: Address, changeset: Seq<(U256, (U256, U256))> },
    /// All storage was wiped.
    Wiped { id: u64, address: Address },
    /// An account was destroyed.
    Destroyed { id: u64, address: Address, old_info: Account },
}

impl ChangeModel {
    /// The transition the change belongs to.
    pub open spec fn id_spec(self) -> u64 {
        match self {
            ChangeModel::Created { id, .. } => id,
            ChangeModel::Changed { id, .. } => id,
            ChangeModel::SlotsChanged { id, .. } => id,
            ChangeModel::Wiped { id, .. } => id,
            ChangeModel::Destroyed { id, .. } => id,
        }
    }

    /// The address the change operates on.
    pub open spec fn address_spec(self) -> Address {
        match self {
            ChangeModel::Created { address, .. } => address,
            ChangeModel::Changed { address, .. } => address,
            ChangeModel::SlotsChanged { address, .. } => address,
            ChangeModel::Wiped { address, .. } => address,
            ChangeModel::Destroyed { address, .. } => address,
        }
    }

    /// The same change rebased into another journal: its transition id
    /// shifted by `offset`.
    pub open spec fn rebase_spec(self, offset: u64) -> ChangeModel
        recommends
            offset + self.id_spec() <= u64::MAX,
    {
        match self {
            ChangeModel::Created { id, address, account } => ChangeModel::Created {
                id: (offset + id) as u64,
                address,
                account,
            },
            ChangeModel::Changed { id, address, old_info, new_info } => ChangeModel::Changed {
                id: (offset + id) as u64,
                address,
                old_info,
                new_info,
            },
            ChangeModel::SlotsChanged { id, address, changeset } => ChangeModel::SlotsChanged {
                id: (offset + id) as u64,
                address,
                changeset,
            },
            ChangeModel::Wiped { id, address } => ChangeModel::Wiped {
                id: (offset + id) as u64,
                address,
            },
            ChangeModel::Destroyed { id, address, old_info } => ChangeModel::Destroyed {
                id: (offset + id) as u64,
                address,
                old_info,
            },
        }
    }

    /// Whether the change belongs to the account class (as opposed to the
    /// storage class) when persisting.
    pub open spec fn is_account_class(self) -> bool {
        self is Created || self is Changed || self is Destroyed
    }

    /// Well-formed: a storage changeset is sorted by slot.
    pub open spec fn wf_spec(self) -> bool {
        match self {
            ChangeModel::SlotsChanged { changeset, .. } => slot_sorted(changeset),
            _ => true,
        }
    }
}

/// Sort key order for persisting: by transition id, then by address.
pub open spec fn change_key_le(a: ChangeModel, b: ChangeModel) -> bool {
    a.id_spec() < b.id_spec() || (a.id_spec() == b.id_spec() && (
    a.address_spec().lt_spec(b.address_spec()) || a.address_spec() == b.address_spec()))
}

impl Change {
    /// The mathematical shape of this change.
    pub open spec fn view_spec(self) -> ChangeModel {
        match self {
            Change::AccountCreated { id, address, account } => ChangeModel::Created {
                id,
                address,
                account,
            },
            Change::AccountChanged { id, address, old_info, new_info } => ChangeModel::Changed {
                id,
                address,
                old_info,
                new_info,
            },
            Change::StorageChanged { id, address, changeset } => ChangeModel::SlotsChanged {
                id,
                address,
                changeset: changeset.seq_spec(),
            },
            Change::StorageWiped { id, address } => ChangeModel::Wiped { id, address },
            Change::AccountDestroyed { id, address, old_info } => ChangeModel::Destroyed {
                id,
                address,
                old_info,
            },
        }
    }

    /// Well-formed: a storage changeset is sorted by slot.
    pub open spec fn wf(self) -> bool {
        self.view_spec().wf_spec()
    }

    /// Get the transition id of the change.
    pub fn transition_id(&self) -> (r: u64)
        ensures
            r == self.view_spec().id_spec(),
    {
        match self {
            Change::AccountCreated { id, .. } => *id,
            Change::AccountChanged { id, .. } => *id,
            Change::StorageChanged { id, .. } => *id,
            Change::StorageWiped { id, .. } => *id,
            Change::AccountDestroyed { id, .. } => *id,
        }
    }

    /// Get the address of the account this change operates on.
    pub fn address(&self) -> (r: Address)
        ensures
            r == self.view_spec().address_spec(),
    {
        match self {
            Change::AccountCreated { address, .. } => *address,
            Change::AccountChanged { address, .. } => *address,
            Change::StorageChanged { address, .. } => *address,
            Change::StorageWiped { address, .. } => *address,
            Change::AccountDestroyed { address, .. } => *address,
        }
    }

    /// Set the transition id of this change.
    pub fn set_transition_id(&mut self, new_id: u64)
        ensures
            final(self).view_spec() == match old(self).view_spec() {
                ChangeModel::Created { address, account, .. } => ChangeModel::Created {
                    id: new_id,
                    address,
                    account,
                },
                ChangeModel::Changed { address, old_info, new_info, .. } => ChangeModel::Changed {
                    id: new_id,
                    address,
                    old_info,
                    new_info,
                },
                ChangeModel::SlotsChanged { address, changeset, .. } => ChangeModel::SlotsChanged {
                    id: new_id,
                    address,
                    changeset,
                },
                ChangeModel::Wiped { address, .. } => ChangeModel::Wiped { id: new_id, address },
                ChangeModel::Destroyed { address, old_info, .. } => ChangeModel::Destroyed {
                    id: new_id,
                    address,
                    old_info,
                },
            },
            final(self).wf() == old(self).wf(),
    {
        match self {
            Change::AccountCreated { id, .. } => {
                *id = new_id;
            },
            Change::AccountChanged { id, .. } => {
                *id = new_id;
            },
            Change::StorageChanged { id, .. } => {
                *id = new_id;
            },
            Change::StorageWiped { id, .. } => {
                *id = new_id;
            },
            Change::AccountDestroyed { id, .. } => {
                *id = new_id;
            },
        }
    }

    /// An owned copy of this change, equal in shape.
    pub fn duplicate(&self) -> (r: Change)
        ensures
            r.view_spec() == self.view_spec(),
            r.wf() == self.wf(),
    {
        match self {
            Change::AccountCreated { id, address, account } => Change::AccountCreated {
                id: *id,
                address: *address,
                account: *account,
            },
            Change::AccountChanged { id, address, old_info, new_info } => Change::AccountChanged {
                id: *id,
                address: *address,
                old_info: *old_info,
                new_info: *new_info,
            },
            Change::StorageChanged { id, address, changeset } => Change::StorageChanged {
                id: *id,
                address: *address,
                changeset: changeset.duplicate(),
            },
            Change::StorageWiped { id, address } => Change::StorageWiped {
                id: *id,
                address: *address,
            },
            Change::AccountDestroyed { id, address, old_info } => Change::AccountDestroyed {
                id: *id,
                address: *address,
                old_info: *old_info,
            },
        }
    }
}

} // verus!
