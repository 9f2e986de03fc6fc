//! The chain's hash function: blake2b with a 32-byte digest and the
//! personalization "ckb-default-hash".
use vstd::prelude::*;
use crate::types::{Byte32, Script};

verus! {

/// The personalization of the chain's hash, the ASCII bytes of
/// "ckb-default-hash".
pub const CKB_HASH_PERSONALIZATION: [u8; 16] = [
    0x63, 0x6b, 0x62, 0x2d, 0x64, 0x65, 0x66, 0x61, 0x75, 0x6c, 0x74, 0x2d, 0x68, 0x61, 0x73, 0x68,
];

/// The 32-byte blake2b digest of `data` under the personalization
/// `personal`.
pub uninterp spec fn blake2b_256_of(personal: Seq<u8>, data: Seq<u8>) -> Seq<u8>;

/// The chain's hash of `data`.
pub open spec fn ckb_hash_of(data: Seq<u8>) -> Seq<u8> {
    blake2b_256_of(CKB_HASH_PERSONALIZATION@, data)
}

/// Calls `Blake2bBuilder::new(32).personal(..).build()`, `update` and
/// `finalize` (crate `blake2b-rs`). Claimed: the digest is the value
/// `blake2b_256_of` names for the personalization and the data; it has 32
/// bytes by its type. Required: the personalization has at most 16 bytes
/// (the builder asserts it).
#[verifier::external_body]
fn blake2b_256_personal(personal: &[u8], data: &[u8]) -> (r: Byte32)
    requires
        personal@.len() <= 16,
    ensures
        r@ == blake2b_256_of(personal@, data@),
{
    let mut out = [0u8; 32];
    let mut hasher = blake2b_rs::Blake2bBuilder::new(32).personal(personal).build();
    hasher.update(data);
    hasher.finalize(&mut out);
    out
}

/// The chain's hash of `data`.
pub fn blake2b_256(data: &[u8]) -> (r: Byte32)
    ensures
        r@ == ckb_hash_of(data@),
{
    let personal: [u8; 16] = CKB_HASH_PERSONALIZATION;
    blake2b_256_personal(personal.as_slice(), data)
}

/// The hash of a script: the digest of its serialized bytes.
pub open spec fn script_hash_of(script: Script) -> Seq<u8> {
    ckb_hash_of(script.bytes@)
}

/// Computes the hash of a script.
pub fn calc_script_hash(script: &Script) -> (r: Byte32)
    ensures
        r@ == script_hash_of(*script),
{
    blake2b_256(script.bytes.as_slice())
}

} // verus!
