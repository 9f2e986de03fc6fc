//! The chain data that the filters read: hashes, scripts, cells, blocks.
use vstd::prelude::*;

verus! {

/// A 32-byte hash (block hash, transaction hash, script hash).
pub type Byte32 = [u8; 32];

/// Whether two hashes hold the same bytes.
pub fn byte32_eq(a: &Byte32, b: &Byte32) -> (r: bool)
    ensures
        r == (a@ == b@),
{
    let mut i: usize = 0;
    while i < 32
        invariant
            0 <= i <= 32,
            a@.len() == 32,
            b@.len() == 32,
            forall|j: int| 0 <= j < i ==> a@[j] == b@[j],
        decreases 32 - i,
    {
        if a[i] != b[i] {
            return false;
        }
        i = i + 1;
    }
    assert(a@ =~= b@);
    true
}

/// A lock or type script, held in its serialized form; its hash is the
/// hash of these bytes.
pub struct Script {
    pub bytes: Vec<u8>,
}

/// A cell: its capacity, the lock script that guards it, and an optional
/// type script.
pub struct CellOutput {
    pub capacity: u64,
    pub lock: Script,
    pub type_: Option<Script>,
}

/// A reference to the `index`-th output of the transaction `tx_hash`.
#[derive(Clone, Copy)]
pub struct OutPoint {
    pub tx_hash: Byte32,
    pub index: u32,
}

/// A transaction: its hash, its serialized form, the cells it spends and
/// the cells it creates.
pub struct Transaction {
    pub hash: Byte32,
    pub data: Vec<u8>,
    pub inputs: Vec<OutPoint>,
    pub outputs: Vec<CellOutput>,
}

/// An uncle of a block: its hash and its serialized header.
pub struct UncleBlock {
    pub hash: Byte32,
    pub header: Vec<u8>,
}

/// A block: hash, number, epoch, the serialized header, uncles and
/// proposals, and its transactions in order.
pub struct Block {
    pub hash: Byte32,
    pub number: u64,
    pub epoch: u64,
    pub header: Vec<u8>,
    pub uncles: Vec<UncleBlock>,
    pub uncles_data: Vec<u8>,
    pub proposals: Vec<u8>,
    pub transactions: Vec<Transaction>,
}

} // verus!

verus! {

/// The bytes of a hash, as a vector.
pub fn byte32_to_vec(h: &Byte32) -> (r: Vec<u8>)
    ensures
        r@ == h@,
{
    let mut v: Vec<u8> = Vec::new();
    let mut i: usize = 0;
    while i < 32
        invariant
            i <= 32,
            h@.len() == 32,
            v@ == h@.take(i as int),
        decreases 32 - i,
    {
        v.push(h[i]);
        i = i + 1;
        assert(v@ =~= h@.take(i as int));
    }
    assert(h@.take(32) =~= h@);
    v
}

} // verus!
