//! Bloom filters that peers set on the node, held as the raw bucket bytes
//! they were sent with, the number of hash functions and the hash seed.
use vstd::prelude::*;
use crate::types::Byte32;
use bloom_filters::{BloomFilter, UpdatableBloomFilter};

verus! {

/// A peer's bloom filter as it travels in `SetFilter`: the bucket bits (one
/// bit per bucket, little-endian 64-bit words), the number of hash
/// functions and the seed added to every hash.
pub struct BloomFilterData {
    pub raw: Vec<u8>,
    pub num_hashes: u8,
    pub hash_seed: u32,
}

/// The mathematical value of a bloom filter.
pub struct BloomFilterView {
    pub raw: Seq<u8>,
    pub num_hashes: u8,
    pub hash_seed: u32,
}

impl View for BloomFilterData {
    type V = BloomFilterView;

    open spec fn view(&self) -> BloomFilterView {
        BloomFilterView { raw: self.raw@, num_hashes: self.num_hashes, hash_seed: self.hash_seed }
    }
}

impl BloomFilterView {
    /// The buckets can be read back as whole 64-bit words.
    pub open spec fn words_aligned(self) -> bool {
        self.raw.len() % 8 == 0
    }

    /// A lookup can be made: the buckets are whole words, and there is at
    /// least one bucket whenever a hash function is applied.
    pub open spec fn usable(self) -> bool {
        &&& self.words_aligned()
        &&& (self.num_hashes == 0 || self.raw.len() > 0)
    }
}

impl BloomFilterData {
    /// Whether a lookup can be made in the filter (`usable`).
    pub fn is_usable(&self) -> (r: bool)
        ensures
            r == self@.usable(),
    {
        self.raw.len() % 8 == 0 && (self.num_hashes == 0 || self.raw.len() > 0)
    }

    /// Copies the filter.
    pub fn duplicate(&self) -> (r: Self)
        ensures
            r@ == self@,
    {
        BloomFilterData { raw: self.raw.clone(), num_hashes: self.num_hashes, hash_seed: self.hash_seed }
    }
}

/// Whether the bloom filter with these buckets, hash count and seed reports
/// the 32-byte item as present, the item hashed as its 32 bytes written in
/// order with nothing before or after them.
pub uninterp spec fn bloom_contains_of(raw: Seq<u8>, num_hashes: u8, hash_seed: u32, item: Seq<u8>) -> bool;

/// `more` has the length of `raw` and every bit set that `raw` has.
pub open spec fn bits_superset(raw: Seq<u8>, more: Seq<u8>) -> bool {
    &&& more.len() == raw.len()
    &&& forall|i: int| 0 <= i < raw.len() ==> (#[trigger] raw[i] & more[i]) == raw[i]
}

/// No bit of the buckets is set.
pub open spec fn no_bits(raw: Seq<u8>) -> bool {
    forall|i: int| 0 <= i < raw.len() ==> #[trigger] raw[i] == 0
}

/// Calls `ClassicBloomFilter::with_raw_data` and `contains` (crate
/// `bloom-filters`) with the default hash kernels seeded by the filter's
/// seed, on the item's 32 bytes as two 16-byte integers in memory order, so
/// that the hasher is fed the 32 bytes and nothing else. Claimed: the answer
/// is the value `bloom_contains_of` names for the filter's fields and the
/// item. As the lookup checks that every bucket that one of the hash
/// functions picks is set, and the buckets it picks depend on the item, the
/// hash count, the seed and the bucket count alone: a filter with no hash
/// function holds every item; one with hash functions and no bit set holds
/// none; and an item it holds is held by every filter with the same hash
/// count, seed and length and more bits set. Required: the buckets are whole
/// words (the crate copies eight bytes per word) and, when a hash function
/// is applied, there is a bucket (the crate reduces the hash modulo the
/// bucket count).
#[verifier::external_body]
pub(crate) fn bloom_contains(filter: &BloomFilterData, item: &Byte32) -> (r: bool)
    requires
        filter@.usable(),
    ensures
        r == bloom_contains_of(filter.raw@, filter.num_hashes, filter.hash_seed, item@),
        filter.num_hashes == 0 ==> r,
        filter.num_hashes > 0 && no_bits(filter.raw@) ==> !r,
        r ==> forall|more: Seq<u8>| #[trigger] bits_superset(filter.raw@, more)
            ==> bloom_contains_of(more, filter.num_hashes, filter.hash_seed, item@),
{
    let f = bloom_filters::ClassicBloomFilter::with_raw_data(
        filter.raw.as_slice(),
        filter.num_hashes as usize,
        bloom_filters::DefaultBuildHashKernels::new(filter.hash_seed as usize, bloom_filters::DefaultBuildHasher),
    );
    let (mut head, mut tail) = ([0u8; 16], [0u8; 16]);
    head.copy_from_slice(&item[..16]);
    tail.copy_from_slice(&item[16..]);
    f.contains(&(u128::from_ne_bytes(head), u128::from_ne_bytes(tail)))
}

/// Calls `ClassicBloomFilter::with_raw_data`, `update` and
/// `buckets().raw_data()` (crate `bloom-filters`). Claimed, as its source
/// shows for buckets and update of the same length: the new buckets are the
/// bytewise OR of the two; and, since a lookup checks that every bucket its
/// hashes pick is set, and the bucket count, hash count and seed stay, an
/// item the filter held is still held.
#[verifier::external_body]
fn bloom_update(filter: &BloomFilterData, other: &Vec<u8>) -> (r: Vec<u8>)
    requires
        filter@.words_aligned(),
        other.len() == filter.raw.len(),
    ensures
        r.len() == filter.raw.len(),
        forall|i: int| 0 <= i < r.len() ==> r@[i] == (filter.raw@[i] | other@[i]),
        forall|item: Seq<u8>| #[trigger] bloom_contains_of(filter.raw@, filter.num_hashes, filter.hash_seed, item)
            ==> bloom_contains_of(r@, filter.num_hashes, filter.hash_seed, item),
{
    let mut f = bloom_filters::ClassicBloomFilter::with_raw_data(
        filter.raw.as_slice(),
        filter.num_hashes as usize,
        bloom_filters::DefaultBuildHashKernels::new(filter.hash_seed as usize, bloom_filters::DefaultBuildHasher),
    );
    f.update(other.as_slice());
    f.buckets().raw_data()
}

/// The buckets after `other` is ORed into `raw`: byte `i` of `other` goes
/// into byte `i` of the buckets, and the buckets keep their length.
pub open spec fn or_into(raw: Seq<u8>, other: Seq<u8>) -> Seq<u8> {
    Seq::new(raw.len(), |i: int| if i < other.len() { raw[i] | other[i] } else { raw[i] })
}

/// Merges the buckets `other` into the filter (an `AddFilter` message).
/// Bytes of `other` past the filter's length are ignored, as the crate does.
/// Where `other` is shorter, the crate drops the filter's words past it but
/// keeps its bucket count, so that a later lookup whose buckets all lie in
/// the words kept answers as here, and any other lookup panics; here those
/// words are kept. The merged filter holds every item the filter held.
pub fn merge_filter(filter: &BloomFilterData, other: &Vec<u8>) -> (r: BloomFilterData)
    requires
        filter@.words_aligned(),
    ensures
        r.raw@ == or_into(filter.raw@, other@),
        r.num_hashes == filter.num_hashes,
        r.hash_seed == filter.hash_seed,
        forall|item: Seq<u8>| #[trigger] bloom_contains_of(filter.raw@, filter.num_hashes, filter.hash_seed, item)
            ==> bloom_contains_of(r.raw@, r.num_hashes, r.hash_seed, item),
{
    let n = filter.raw.len();
    let mut fitted: Vec<u8> = Vec::new();
    let mut i: usize = 0;
    while i < n
        invariant
            n == filter.raw.len(),
            i <= n,
            fitted.len() == i,
            forall|j: int| 0 <= j < i ==> fitted@[j] == (if j < other.len() { other@[j] } else { 0u8 }),
        decreases n - i,
    {
        if i < other.len() {
            fitted.push(other[i]);
        } else {
            fitted.push(0u8);
        }
        i = i + 1;
    }
    let raw = bloom_update(filter, &fitted);
    assert forall|j: int| 0 <= j < n implies raw@[j] == or_into(filter.raw@, other@)[j] by {
        if j >= other.len() {
            let b = filter.raw@[j];
            assert(b | 0u8 == b) by (bit_vector);
        }
    }
    assert(raw@ =~= or_into(filter.raw@, other@));
    BloomFilterData { raw, num_hashes: filter.num_hashes, hash_seed: filter.hash_seed }
}

/// The buckets completed with zero bytes up to a whole number of 64-bit
/// words.
pub open spec fn padded_to_words(raw: Seq<u8>) -> Seq<u8> {
    Seq::new(((raw.len() + 7) / 8 * 8) as nat, |i: int| if i < raw.len() { raw[i] } else { 0u8 })
}

/// Completes the buckets with zero bytes up to a whole number of 64-bit
/// words, as the filter crate reads them; whole words are kept as they are.
pub fn pad_to_words(raw: Vec<u8>) -> (r: Vec<u8>)
    ensures
        r@ == padded_to_words(raw@),
        r@.len() % 8 == 0,
        raw@.len() % 8 == 0 ==> r@ == raw@,
{
    let ghost r0 = raw@;
    let mut r = raw;
    while r.len() % 8 != 0
        invariant
            r0.len() <= r@.len() < r0.len() + 8,
            r@.len() <= (r0.len() + 7) / 8 * 8,
            forall|i: int| 0 <= i < r@.len() ==> #[trigger] r@[i] == (if i < r0.len() { r0[i] } else { 0u8 }),
        decreases (r0.len() + 7) / 8 * 8 - r@.len(),
    {
        r.push(0u8);
    }
    assert(r@ =~= padded_to_words(r0));
    r
}

/// Padding keeps every byte of the buckets in place, adds only zero bytes,
/// and adds fewer than eight of them: just enough for whole 64-bit words.
pub proof fn law_padding_adds_only_zero_bytes(raw: Seq<u8>)
    ensures
        padded_to_words(raw).len() % 8 == 0,
        raw.len() <= padded_to_words(raw).len() < raw.len() + 8,
        forall|i: int| 0 <= i < raw.len() ==> #[trigger] padded_to_words(raw)[i] == raw[i],
        forall|i: int| raw.len() <= i < padded_to_words(raw).len() ==> #[trigger] padded_to_words(raw)[i] == 0,
{
}

} // verus!
