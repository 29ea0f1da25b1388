//! Accounts of the chain and their addresses, and the bytes they are
//! stored as.
//!
//! An address is an ed25519 public key, held as its 32 compressed bytes.
//! Amounts are arbitrary-precision unsigned integers; the nonce and the
//! contribution are held as their big-endian bytes, the balance keeps the
//! `BigUint` values it is given.
use vstd::prelude::*;
use std::collections::HashMap;
use num_bigint::BigUint;
use crate::ipld::{default_cid, default_cid_bytes};

verus! {

broadcast use vstd::std_specs::hash::group_hash_axioms;

#[verifier::external_type_specification]
#[verifier::external_body]
pub struct ExBigUint(BigUint);

/// Whether 32 bytes are the compressed form of a point of the ed25519
/// curve, i.e. whether ed25519-dalek `PublicKey::from_bytes` accepts them.
pub uninterp spec fn ed25519_decompresses(bytes: Seq<u8>) -> bool;

/// Calls ed25519-dalek `PublicKey::from_bytes`, then `to_bytes`. Claims
/// what its source shows: the call fails on any length but 32; on 32 bytes
/// it succeeds exactly when the point decompresses, and the key keeps the
/// given bytes.
#[verifier::external_body]
fn decode_public_key(bytes: &[u8]) -> (r: Option<[u8; 32]>)
    ensures
        bytes@.len() != 32 ==> r is None,
        bytes@.len() == 32 ==> (r is Some <==> ed25519_decompresses(bytes@)),
        r matches Some(k) ==> k@ == bytes@,
{
    match ed25519_dalek::PublicKey::from_bytes(bytes) {
        Ok(k) => Some(k.to_bytes()),
        Err(_) => None,
    }
}

/// The bytes of the default ed25519 key: the compressed identity point,
/// a 1 followed by 31 zeros.
pub open spec fn identity_key_bytes() -> Seq<u8> {
    seq![1u8].add(Seq::new(31, |i: int| 0u8))
}

/// Calls ed25519-dalek `PublicKey::default`, then `to_bytes`. Claims what
/// its source shows: the default key is the compressed identity point.
#[verifier::external_body]
fn default_public_key_bytes() -> (r: [u8; 32])
    ensures
        r@ == identity_key_bytes(),
{
    ed25519_dalek::PublicKey::default().to_bytes()
}

/// The eight bytes of `n`, least significant first.
pub open spec fn u64_le_bytes(n: nat) -> Seq<u8> {
    Seq::new(8, |i: int| ((n as int / pow256(i)) % 256) as u8)
}

/// 256 to the power `i`.
pub open spec fn pow256(i: int) -> int
    decreases i,
{
    if i <= 0 {
        1
    } else {
        256 * pow256(i - 1)
    }
}

/// The bincode bytes of a byte vector: its length as eight little-endian
/// bytes, then its bytes.
pub open spec fn bincode_bytes(v: Seq<u8>) -> Seq<u8> {
    u64_le_bytes(v.len()) + v
}

/// Calls bincode `serialize` on a 32-byte array. Claims what its source
/// shows for the default options: an array is written as its bytes, with
/// no length, and writing into a vector does not fail.
#[verifier::external_body]
fn bincode_array32(a: &[u8; 32]) -> (r: Vec<u8>)
    ensures
        r@ == a@,
{
    bincode::serialize(a).unwrap()
}

/// Calls bincode `serialize` on three byte vectors. Claims what its
/// source shows for the default options: the fields are written one after
/// the other, each as its length in eight little-endian bytes and then its
/// bytes, and writing into a vector does not fail.
#[verifier::external_body]
fn bincode_three(a: &Vec<u8>, b: &Vec<u8>, c: &Vec<u8>) -> (r: Vec<u8>)
    ensures
        r@ == bincode_bytes(a@) + bincode_bytes(b@) + bincode_bytes(c@),
{
    bincode::serialize(&(a, b, c)).unwrap()
}

/// Calls num-bigint `BigUint::default`, then `to_bytes_be`. Claims what
/// its source shows: zero is written as the single byte 0.
#[verifier::external_body]
fn biguint_zero_be() -> (r: Vec<u8>)
    ensures
        r@ == seq![0u8],
{
    BigUint::default().to_bytes_be()
}

/// Whether the UTF-8 bytes of `did` are the compressed bytes of an
/// ed25519 key.
pub open spec fn did_key_valid(did: Seq<char>) -> bool {
    vstd::utf8::encode_utf8(did).len() == 32 && ed25519_decompresses(vstd::utf8::encode_utf8(did))
}

/// Whether the UTF-8 bytes of `did` are the compressed bytes of an
/// ed25519 key, as `set_did` and `set_account` require.
pub fn did_is_valid(did: &String) -> (r: bool)
    ensures
        r == did_key_valid(did@),
{
    let bytes = did.as_str().as_bytes();
    if bytes.len() != 32 {
        return false;
    }
    decode_public_key(bytes).is_some()
}

/// An account address: an ed25519 public key, as its compressed bytes.
#[derive(PartialEq, Debug)]
pub struct Address {
    did: [u8; 32],
}

impl Address {
    /// The compressed bytes of the key.
    pub closed spec fn spec_did(&self) -> Seq<u8> {
        self.did@
    }

    /// The key of every address is 32 bytes long.
    pub proof fn lemma_did_len(&self)
        ensures
            self.spec_did().len() == 32,
    {
    }

    /// The address of the key with compressed bytes `did`.
    pub fn new(did: [u8; 32]) -> (r: Self)
        ensures
            r.spec_did() == did@,
    {
        Self { did }
    }

    /// The address of the default key, the identity point.
    pub fn default() -> (r: Self)
        ensures
            r.spec_did() == identity_key_bytes(),
    {
        Self { did: default_public_key_bytes() }
    }

    /// The address of the key whose compressed bytes are the UTF-8 bytes of
    /// `did`; these must be 32 bytes of a point of the curve.
    pub fn set_did(&mut self, did: String)
        requires
            did_key_valid(did@),
        ensures
            final(self).spec_did() == vstd::utf8::encode_utf8(did@),
    {
        let bytes = did.as_str().as_bytes();
        match decode_public_key(bytes) {
            Some(k) => {
                self.did = k;
            },
            None => {},
        }
    }

    /// Like `set_did`, but leaves the address unchanged and answers `false`
    /// if the UTF-8 bytes of `did` are not the compressed bytes of a key.
    pub fn try_set_did(&mut self, did: String) -> (ok: bool)
        ensures
            ok == did_key_valid(did@),
            ok ==> final(self).spec_did() == vstd::utf8::encode_utf8(did@),
            !ok ==> final(self).spec_did() == old(self).spec_did(),
    {
        if did_is_valid(&did) {
            self.set_did(did);
            true
        } else {
            false
        }
    }

    /// The stored form of the address: the bincode bytes of its key, the
    /// 32 compressed bytes.
    pub fn to_bytes(&self) -> (r: Vec<u8>)
        ensures
            r@ == self.spec_did(),
            r@.len() == 32,
    {
        bincode_array32(&self.did)
    }
}

/// An account of the chain.
#[derive(PartialEq, Debug)]
pub struct Account {
    // current account
    account: Address,
    // number of current account transaction times, big-endian
    nonce: Vec<u8>,
    // contribute, big-endian
    contribute: Vec<u8>,
    // balance {age: amount}, age is transaction time
    balance: HashMap<u128, BigUint>,
    // contract database
    storage_root: Vec<u8>,
    // contract code data
    code_cid: Vec<u8>,
    // contract owner
    owner: Address,
}

/// The parts of an account, as plain values.
pub struct AccountView {
    pub account: Seq<u8>,
    pub nonce: Seq<u8>,
    pub contribute: Seq<u8>,
    pub balance: Map<u128, BigUint>,
    pub storage_root: Seq<u8>,
    pub code_cid: Seq<u8>,
    pub owner: Seq<u8>,
}

impl View for Account {
    type V = AccountView;

    closed spec fn view(&self) -> AccountView {
        AccountView {
            account: self.account.spec_did(),
            nonce: self.nonce@,
            contribute: self.contribute@,
            balance: self.balance@,
            storage_root: self.storage_root@,
            code_cid: self.code_cid@,
            owner: self.owner.spec_did(),
        }
    }
}

/// The stored form of an account: the bincode bytes of its address bytes,
/// then of its nonce, twice (the nonce is written in the place of the
/// contribution).
pub open spec fn account_bytes(a: AccountView) -> Seq<u8> {
    bincode_bytes(a.account) + bincode_bytes(a.nonce) + bincode_bytes(a.nonce)
}

impl Account {
    /// A new account: the default address as account and owner, a zero
    /// nonce and contribution, no balance, and the default cid as storage
    /// root and code.
    pub fn new() -> (r: Self)
        ensures
            r@.account == identity_key_bytes(),
            r@.owner == identity_key_bytes(),
            r@.nonce == seq![0u8],
            r@.contribute == seq![0u8],
            r@.balance == Map::<u128, BigUint>::empty(),
            r@.storage_root == default_cid(),
            r@.code_cid == default_cid(),
    {
        Self {
            account: Address::default(),
            nonce: biguint_zero_be(),
            contribute: biguint_zero_be(),
            balance: HashMap::new(),
            storage_root: default_cid_bytes(),
            code_cid: default_cid_bytes(),
            owner: Address::default(),
        }
    }

    /// Sets the account's address to the key with the UTF-8 bytes of `did`.
    pub fn set_account(&mut self, did: String)
        requires
            did_key_valid(did@),
        ensures
            final(self)@ == (AccountView {
                account: vstd::utf8::encode_utf8(did@),
                ..old(self)@
            }),
    {
        self.account.set_did(did);
    }

    /// Like `set_account`, but leaves the account unchanged and answers
    /// `false` if the UTF-8 bytes of `did` are not the compressed bytes of a key.
    pub fn try_set_account(&mut self, did: String) -> (ok: bool)
        ensures
            ok == did_key_valid(did@),
            ok ==> final(self)@ == (AccountView {
                account: vstd::utf8::encode_utf8(did@),
                ..old(self)@
            }),
            !ok ==> final(self)@ == old(self)@,
    {
        if did_is_valid(&did) {
            self.set_account(did);
            true
        } else {
            false
        }
    }

    /// Records `amount` as the balance received at time `age`, replacing an
    /// amount recorded at the same time.
    pub fn plus_blance(&mut self, amount: BigUint, age: u128)
        ensures
            final(self)@ == (AccountView { balance: old(self)@.balance.insert(age, amount), ..old(self)@ }),
    {
        self.balance.insert(age, amount);
    }

    /// The stored form of the account.
    pub fn to_bytes(self) -> (r: Vec<u8>)
        ensures
            r@ == account_bytes(self@),
    {
        let account = self.account.to_bytes();
        bincode_three(&account, &self.nonce, &self.nonce)
    }
}

} // verus!
