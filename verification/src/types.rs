//! Scalar value types of the state model: addresses, 256-bit words and
//! hashes, accounts, bytecode, storage entries and receipts.

use vstd::prelude::*;

verus! {

/// A 20-byte account identifier, held as a 160-bit value split into a
/// 32-bit high part and a 128-bit low part (big-endian order: `hi` holds
/// the 4 leading bytes).
#[derive(Clone, Copy, Debug, PartialEq, Eq, Structural)]
pub struct Address {
    /// The 4 leading bytes.
    pub hi: u32,
    /// The 16 trailing bytes.
    pub lo: u128,
}

/// A 256-bit unsigned integer, split into two 128-bit halves
/// (`hi` holds the most significant half).
#[derive(Clone, Copy, Debug, PartialEq, Eq, Structural)]
pub struct U256 {
    /// The most significant 128 bits.
    pub hi: u128,
    /// The least significant 128 bits.
    pub lo: u128,
}

/// A 32-byte hash, split into two 128-bit halves in big-endian order.
#[derive(Clone, Copy, Debug, PartialEq, Eq, Structural)]
pub struct H256 {
    /// The 16 leading bytes.
    pub hi: u128,
    /// The 16 trailing bytes.
    pub lo: u128,
}

impl Address {
    /// Lexicographic (numeric) order on addresses.
    pub open spec fn lt_spec(self, other: Address) -> bool {
        self.hi < other.hi || (self.hi == other.hi && self.lo < other.lo)
    }

    /// Compare two addresses numerically.
    pub fn lt(&self, other: &Address) -> (r: bool)
        ensures
            r == self.lt_spec(*other),
    {
        self.hi < other.hi || (self.hi == other.hi && self.lo < other.lo)
    }
}

impl U256 {
    /// The zero word.
    pub fn zero() -> (r: U256)
        ensures
            r == (U256 { hi: 0, lo: 0 }),
    {
        U256 { hi: 0, lo: 0 }
    }

    /// Whether this word is zero.
    pub open spec fn is_zero_spec(self) -> bool {
        self.hi == 0 && self.lo == 0
    }

    /// Whether this word is zero. A storage slot holding zero is never
    /// materialized in the plain-state table.
    pub fn is_zero(&self) -> (r: bool)
        ensures
            r == self.is_zero_spec(),
    {
        self.hi == 0 && self.lo == 0
    }

    /// Numeric order on 256-bit words.
    pub open spec fn lt_spec(self, other: U256) -> bool {
        self.hi < other.hi || (self.hi == other.hi && self.lo < other.lo)
    }

    /// Compare two words numerically.
    pub fn lt(&self, other: &U256) -> (r: bool)
        ensures
            r == self.lt_spec(*other),
    {
        self.hi < other.hi || (self.hi == other.hi && self.lo < other.lo)
    }

    /// Build a word from a small value.
    pub fn from_u128(v: u128) -> (r: U256)
        ensures
            r == (U256 { hi: 0, lo: v }),
    {
        U256 { hi: 0, lo: v }
    }
}

impl H256 {
    /// The hash whose bytes are all zero.
    pub fn zero() -> (r: H256)
        ensures
            r == (H256 { hi: 0, lo: 0 }),
    {
        H256 { hi: 0, lo: 0 }
    }

    /// The big-endian interpretation of a 256-bit storage slot key as a
    /// 32-byte hash: the halves carry over unchanged.
    pub open spec fn from_slot_spec(slot: U256) -> H256 {
        H256 { hi: slot.hi, lo: slot.lo }
    }

    /// Convert a storage slot key to the 32-byte hash form used by the
    /// storage tables. Order-preserving by construction.
    pub fn from_slot(slot: &U256) -> (r: H256)
        ensures
            r == H256::from_slot_spec(*slot),
    {
        H256 { hi: slot.hi, lo: slot.lo }
    }
}

/// An account: balance, nonce, and the hash of its bytecode if it has any.
/// Equality is component-wise.
#[derive(Clone, Copy, Debug, PartialEq, Eq)]
pub struct Account {
    /// The account's balance.
    pub balance: U256,
    /// The account's nonce.
    pub nonce: u64,
    /// Hash of the account's bytecode, absent for accounts without code.
    pub bytecode_hash: Option<H256>,
}

/// An opaque byte sequence addressed by its hash.
#[derive(Debug, PartialEq, Eq)]
pub struct Bytecode {
    /// The raw code bytes.
    pub code: Vec<u8>,
}

impl Bytecode {
    /// An owned copy of this bytecode.
    pub fn duplicate(&self) -> (r: Bytecode)
        ensures
            r.code@ == self.code@,
    {
        let n = self.code.len();
        let mut out: Vec<u8> = Vec::new();
        let mut i: usize = 0;
        while i < n
            invariant
                n == self.code@.len(),
                i <= n,
                out@ == self.code@.take(i as int),
            decreases n - i,
        {
            out.push(self.code[i]);
            proof {
                assert(self.code@.take(i + 1) == self.code@.take(i as int).push(
                    self.code@[i as int],
                ));
            }
            i = i + 1;
        }
        proof {
            assert(self.code@.take(n as int) == self.code@);
        }
        Bytecode { code: out }
    }
}

/// A single storage slot as stored in the plain and changeset tables:
/// the slot key in hash form, and its 256-bit value.
#[derive(Clone, Copy, Debug, PartialEq, Eq, Structural)]
pub struct StorageEntry {
    /// The storage slot key.
    pub key: H256,
    /// The slot's value.
    pub value: U256,
}

/// The receipt of one executed transaction.
#[derive(Clone, Copy, Debug, PartialEq, Eq, Structural)]
pub struct Receipt {
    /// Whether the transaction succeeded.
    pub success: bool,
    /// Cumulative gas used in the block up to and including this transaction.
    pub cumulative_gas_used: u64,
}

/// The kinds of failure surfaced by the state components.
#[derive(Clone, Copy, Debug, PartialEq, Eq, Structural)]
pub enum StateError {
    /// A block, transaction or account was not found.
    NotFound,
    /// Stored data is malformed (for example a history shard that is not
    /// sorted).
    Corruption,
    /// A database failure.
    Io,
    /// A malformed argument.
    InvalidInput,
}

} // verus!
