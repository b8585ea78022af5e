//! The prestate dump: the computing half of the prestate command. Given
//! the accounts an execution touched, keep those that exist, drop empty
//! code, and render storage as a JSON object whose keys and values are
//! `0x`-prefixed 64-nibble hex.

use crate::hex::{hex64, hex64_digits};
use crate::slots::SlotList;
use crate::types::{Address, Bytecode, U256};
use vstd::prelude::*;
use vstd::string::StringExecFns;

verus! {

/// The state of an account prior to execution of the target transaction.
pub struct PrestateAccount {
    /// The account's address.
    pub address: Address,
    /// The account's balance.
    pub balance: U256,
    /// The account's nonce.
    pub nonce: u64,
    /// The storage slots read or written during execution.
    pub storage: SlotList<U256>,
    /// The account's bytecode; omitted when empty.
    pub code: Option<Bytecode>,
}

/// An account as the executor's substate reports it.
pub struct ExecutedAccount {
    /// The account's address.
    pub address: Address,
    /// The executor marked the account as not existing.
    pub not_existing: bool,
    /// The account's balance.
    pub balance: U256,
    /// The account's nonce.
    pub nonce: u64,
    /// The storage slots read or written during execution.
    pub storage: SlotList<U256>,
    /// The account's bytecode, possibly empty.
    pub code: Vec<u8>,
}

/// Which fields the dump keeps.
pub open spec fn prestate_matches(e: ExecutedAccount, p: PrestateAccount) -> bool {
    &&& p.address == e.address
    &&& p.balance == e.balance
    &&& p.nonce == e.nonce
    &&& p.storage.seq_spec() == e.storage.seq_spec()
    &&& (e.code@.len() == 0 ==> p.code is None)
    &&& (e.code@.len() > 0 ==> (p.code matches Some(c) && c.code@ == e.code@))
}

/// The prestate entry of one executed account: an account the executor
/// marked as not existing is excluded; empty code is dropped.
pub fn prestate_account(e: &ExecutedAccount) -> (r: Option<PrestateAccount>)
    ensures
        (r is Some <==> !e.not_existing),
        (r matches Some(p) ==> prestate_matches(*e, p)),
{
    if e.not_existing {
        return None;
    }
    let code = if e.code.len() > 0 {
        Some(Bytecode { code: duplicate_bytes(&e.code) })
    } else {
        None
    };
    Some(
        PrestateAccount {
            address: e.address,
            balance: e.balance,
            nonce: e.nonce,
            storage: e.storage.duplicate(),
            code,
        },
    )
}

/// An owned copy of a byte vector.
fn duplicate_bytes(v: &Vec<u8>) -> (r: Vec<u8>)
    ensures
        r@ == v@,
{
    let n = v.len();
    let mut out: Vec<u8> = Vec::new();
    let mut i: usize = 0;
    while i < n
        invariant
            n == v@.len(),
            i <= n,
            out@ == v@.take(i as int),
        decreases n - i,
    {
        out.push(v[i]);
        proof {
            assert(v@.take(i + 1) == v@.take(i as int).push(v@[i as int]));
        }
        i = i + 1;
    }
    proof {
        assert(v@.take(n as int) == v@);
    }
    out
}

/// One storage pair as JSON: `"0x<key>": "0x<value>"`, both padded to 64
/// nibbles.
pub open spec fn storage_pair_json(p: (U256, U256)) -> Seq<char> {
    seq!['"', '0', 'x'] + hex64_digits(p.0) + seq!['"', ':', ' ', '"', '0', 'x'] + hex64_digits(
        p.1,
    ) + seq!['"']
}

/// The members of the storage JSON object, comma-separated, in ascending
/// slot order.
pub open spec fn storage_members_json(s: Seq<(U256, U256)>) -> Seq<char>
    decreases s.len(),
{
    if s.len() == 0 {
        Seq::empty()
    } else if s.len() == 1 {
        storage_pair_json(s[0])
    } else {
        storage_members_json(s.drop_last()) + seq![',', ' '] + storage_pair_json(s.last())
    }
}

/// The storage JSON object: the members wrapped in braces.
pub open spec fn storage_object_json(s: Seq<(U256, U256)>) -> Seq<char> {
    seq!['{'] + storage_members_json(s) + seq!['}']
}

/// Render one storage pair.
fn render_storage_pair(p: (U256, U256)) -> (r: String)
    ensures
        r@ == storage_pair_json(p),
{
    proof {
        reveal_strlit("\"");
        reveal_strlit("\": \"");
    }
    let mut s = String::from_str("\"");
    let k = hex64(&p.0);
    s.append(k.as_str());
    s.append("\": \"");
    let v = hex64(&p.1);
    s.append(v.as_str());
    s.append("\"");
    proof {
        assert(s@ =~= storage_pair_json(p));
    }
    s
}

/// Render an account's touched storage as a JSON object in ascending
/// slot order; the shape the prestate dump emits.
pub fn render_storage_object(storage: &SlotList<U256>) -> (r: String)
    ensures
        r@ == storage_object_json(storage.seq_spec()),
{
    proof {
        reveal_strlit("{");
        reveal_strlit("}");
        reveal_strlit(", ");
    }
    let ghost sseq = storage.seq_spec();
    let mut s = String::from_str("{");
    let n = storage.len();
    let mut i: usize = 0;
    while i < n
        invariant
            n == sseq.len(),
            sseq == storage.seq_spec(),
            i <= n,
            s@ == seq!['{'] + storage_members_json(sseq.take(i as int)),
        decreases n - i,
    {
        let e = storage.entry_at(i);
        if i > 0 {
            proof {
                reveal_strlit(", ");
            }
            s.append(", ");
        }
        let pair = render_storage_pair(e);
        s.append(pair.as_str());
        proof {
            assert(sseq.take(i + 1).drop_last() =~= sseq.take(i as int));
            assert(sseq.take(i + 1).last() == sseq[i as int]);
            if i == 0 {
                assert(s@ =~= seq!['{'] + storage_members_json(sseq.take(1)));
            } else {
                assert(s@ =~= seq!['{'] + storage_members_json(sseq.take(i + 1)));
            }
        }
        i = i + 1;
    }
    s.append("}");
    proof {
        assert(sseq.take(n as int) =~= sseq);
        assert(s@ =~= storage_object_json(sseq));
    }
    s
}

} // verus!
