//! The bloom filter protocol: which transactions of a block a peer's filter
//! selects, how replies to `GetFilteredBlocks` are cut into messages, and
//! the filters that peers set, extend and clear.
use vstd::prelude::*;
use crate::types::{Byte32, CellOutput, Transaction, Block};
use crate::hash::{script_hash_of, calc_script_hash};
use vstd::std_specs::iter::IteratorSpec;
use crate::bloom::{
    BloomFilterData, BloomFilterView, bloom_contains, bloom_contains_of, or_into, padded_to_words, bits_superset, no_bits,
};

verus! {

/// Whether the filter reports `item` as present.
pub open spec fn filter_has(f: BloomFilterView, item: Seq<u8>) -> bool {
    bloom_contains_of(f.raw, f.num_hashes, f.hash_seed, item)
}

/// A cell matches when the filter holds the hash of its lock script or of
/// its type script.
pub open spec fn output_matches(output: CellOutput, f: BloomFilterView) -> bool {
    ||| filter_has(f, script_hash_of(output.lock))
    ||| (output.type_ matches Some(t) && filter_has(f, script_hash_of(t)))
}

/// A transaction matches when the filter holds its hash, when one of the
/// cells it creates matches, or when one of the cells it spends (as far as
/// the store knows them: `prev[j]` is the cell spent by input `j`) matches.
pub open spec fn tx_matches(tx: Transaction, prev: Seq<Option<CellOutput>>, f: BloomFilterView) -> bool {
    ||| filter_has(f, tx.hash@)
    ||| (exists|i: int| 0 <= i < tx.outputs@.len() && output_matches(#[trigger] tx.outputs@[i], f))
    ||| (exists|j: int| 0 <= j < prev.len() && (#[trigger] prev[j] matches Some(o) && output_matches(o, f)))
}

/// The indices, in increasing order, of the first `k` transactions that
/// match.
pub open spec fn matched_indices(
    txs: Seq<Transaction>,
    prev: Seq<Vec<Option<CellOutput>>>,
    f: BloomFilterView,
    k: int,
) -> Seq<u32>
    decreases k,
{
    if k <= 0 {
        seq![]
    } else {
        let s = matched_indices(txs, prev, f, k - 1);
        if tx_matches(txs[k - 1], prev[k - 1]@, f) {
            s.push((k - 1) as u32)
        } else {
            s
        }
    }
}

/// The cells spent by a block's transactions line up with their inputs.
pub open spec fn prev_outputs_align(block: Block, prev: Seq<Vec<Option<CellOutput>>>) -> bool {
    &&& prev.len() == block.transactions@.len()
    &&& forall|i: int| 0 <= i < prev.len() ==> (#[trigger] prev[i])@.len() == block.transactions@[i].inputs@.len()
}

/// `g` has the hash count, seed and length of `f`, and every bit set that
/// `f` has.
pub open spec fn covers(f: BloomFilterView, g: BloomFilterView) -> bool {
    &&& g.num_hashes == f.num_hashes
    &&& g.hash_seed == f.hash_seed
    &&& bits_superset(f.raw, g.raw)
}

/// Every filter that covers `f` matches the transaction.
pub open spec fn tx_kept(tx: Transaction, prev: Seq<Option<CellOutput>>, f: BloomFilterView) -> bool {
    forall|g: BloomFilterView| #[trigger] covers(f, g) ==> tx_matches(tx, prev, g)
}

/// Whether the cell matches the filter. A filter with no hash function
/// matches every cell, one with hash functions and no bit set matches none;
/// a cell that matches also matches every filter that covers this one.
pub fn match_output(output: &CellOutput, filter: &BloomFilterData) -> (r: bool)
    requires
        filter@.usable(),
    ensures
        r == output_matches(*output, filter@),
        filter.num_hashes == 0 ==> r,
        filter.num_hashes > 0 && no_bits(filter.raw@) ==> !r,
        r ==> forall|g: BloomFilterView| #[trigger] covers(filter@, g) ==> output_matches(*output, g),
{
    let lock_hash = calc_script_hash(&output.lock);
    if bloom_contains(filter, &lock_hash) {
        assert forall|g: BloomFilterView| #[trigger] covers(filter@, g) implies output_matches(*output, g) by {
            assert(bits_superset(filter.raw@, g.raw));
        }
        return true;
    }
    match &output.type_ {
        Some(t) => {
            let type_hash = calc_script_hash(t);
            let r = bloom_contains(filter, &type_hash);
            if r {
                assert forall|g: BloomFilterView| #[trigger] covers(filter@, g) implies output_matches(*output, g) by {
                    assert(bits_superset(filter.raw@, g.raw));
                }
            }
            r
        },
        None => false,
    }
}

/// Whether the transaction matches the filter, given the cells its inputs
/// spend. A filter with no hash function matches every transaction, one with
/// hash functions and no bit set matches none; a transaction that matches
/// also matches every filter that covers this one.
pub fn match_transaction(tx: &Transaction, prev: &Vec<Option<CellOutput>>, filter: &BloomFilterData) -> (r: bool)
    requires
        filter@.usable(),
    ensures
        r == tx_matches(*tx, prev@, filter@),
        filter.num_hashes == 0 ==> r,
        filter.num_hashes > 0 && no_bits(filter.raw@) ==> !r,
        r ==> tx_kept(*tx, prev@, filter@),
{
    if bloom_contains(filter, &tx.hash) {
        assert forall|g: BloomFilterView| #[trigger] covers(filter@, g) implies tx_matches(*tx, prev@, g) by {
            assert(bits_superset(filter.raw@, g.raw));
        }
        return true;
    }
    let mut i: usize = 0;
    while i < tx.outputs.len()
        invariant
            filter@.usable(),
            i <= tx.outputs@.len(),
            forall|k: int| 0 <= k < i ==> !output_matches(#[trigger] tx.outputs@[k], filter@),
        decreases tx.outputs@.len() - i,
    {
        if match_output(&tx.outputs[i], filter) {
            assert forall|g: BloomFilterView| #[trigger] covers(filter@, g) implies tx_matches(*tx, prev@, g) by {
                assert(output_matches(tx.outputs@[i as int], g));
            }
            return true;
        }
        i = i + 1;
    }
    let mut j: usize = 0;
    while j < prev.len()
        invariant
            filter@.usable(),
            j <= prev@.len(),
            forall|k: int| 0 <= k < j ==> !(#[trigger] prev@[k] matches Some(o) && output_matches(o, filter@)),
        decreases prev@.len() - j,
    {
        match &prev[j] {
            Some(o) => {
                if match_output(o, filter) {
                    assert forall|g: BloomFilterView| #[trigger] covers(filter@, g) implies tx_matches(*tx, prev@, g) by {
                        assert(prev@[j as int] matches Some(o) && output_matches(o, g));
                    }
                    return true;
                }
            },
            None => {},
        }
        j = j + 1;
    }
    false
}

/// The transactions of a block that a filter selects: their indices in the
/// block, in increasing order, and their serialized forms.
pub struct MatchedTransactions {
    pub indices: Vec<u32>,
    pub transactions: Vec<Vec<u8>>,
}

/// `r` is what the filter selects of the block: `None` when no transaction
/// matches, else the indices of the matching transactions in increasing order
/// with their serialized forms.
pub open spec fn selection_is(
    r: Option<MatchedTransactions>,
    block: Block,
    prev: Seq<Vec<Option<CellOutput>>>,
    f: BloomFilterView,
) -> bool {
    let m = matched_indices(block.transactions@, prev, f, block.transactions@.len() as int);
    match r {
        None => m.len() == 0,
        Some(t) => {
            &&& m.len() > 0
            &&& t.indices@ == m
            &&& t.transactions@.len() == m.len()
            &&& forall|j: int| 0 <= j < m.len() ==>
                (#[trigger] t.transactions@[j])@ == block.transactions@[m[j] as int].data@
        },
    }
}

/// Every transaction that `f` selects of the transactions `txs` is selected
/// by `g` too, so `g` selects something whenever `f` does.
pub open spec fn selects_within(
    txs: Seq<Transaction>,
    prev: Seq<Vec<Option<CellOutput>>>,
    f: BloomFilterView,
    g: BloomFilterView,
) -> bool {
    let m1 = matched_indices(txs, prev, f, txs.len() as int);
    let m2 = matched_indices(txs, prev, g, txs.len() as int);
    &&& forall|i: int| 0 <= i < txs.len() && #[trigger] m1.contains(i as u32) ==> m2.contains(i as u32)
    &&& m1.len() > 0 ==> m2.len() > 0
}

/// Selects the transactions of `block` that match `filter`; `None` when none
/// does. `prev[i][j]` is the cell spent by input `j` of transaction `i`, or
/// `None` where the store does not hold the transaction that created it.
/// A filter with no hash function selects every transaction; one with hash
/// functions and no bit set (a new one) selects nothing; and every filter that covers this one (more bits set, same hash count,
/// seed and length, as after an update or insert) selects at least what
/// this one selects. A filter that cannot be looked up can still filter a
/// block without transactions, since no lookup is made.
pub fn build_filtered_transactions(
    block: &Block,
    filter: &BloomFilterData,
    prev: &Vec<Vec<Option<CellOutput>>>,
) -> (r: Option<MatchedTransactions>)
    requires
        filter@.usable() || block.transactions@.len() == 0,
        prev_outputs_align(*block, prev@),
        block.transactions@.len() <= u32::MAX,
    ensures
        selection_is(r, *block, prev@, filter@),
        filter.num_hashes > 0 && no_bits(filter.raw@) ==> r is None,
        filter.num_hashes == 0 ==> (r is Some <==> block.transactions@.len() > 0),
        forall|g: BloomFilterView| #[trigger] covers(filter@, g) ==> selects_within(block.transactions@, prev@, filter@, g),
{
    let n = block.transactions.len();
    let mut indices: Vec<u32> = Vec::new();
    let mut txs: Vec<Vec<u8>> = Vec::new();
    let mut i: usize = 0;
    while i < n
        invariant
            filter@.usable() || n == 0,
            n == block.transactions@.len(),
            n <= u32::MAX,
            prev_outputs_align(*block, prev@),
            i <= n,
            indices@ == matched_indices(block.transactions@, prev@, filter@, i as int),
            txs@.len() == indices@.len(),
            forall|j: int| 0 <= j < indices@.len() ==> (indices@[j] as int) < i,
            forall|j: int| 0 <= j < txs@.len() ==>
                (#[trigger] txs@[j])@ == block.transactions@[indices@[j] as int].data@,
            filter.num_hashes > 0 && no_bits(filter.raw@) ==> indices@.len() == 0,
            filter.num_hashes == 0 ==> indices@.len() == i,
            forall|j: int| 0 <= j < i && tx_matches(block.transactions@[j], prev@[j]@, filter@)
                ==> #[trigger] tx_kept(block.transactions@[j], prev@[j]@, filter@),
        decreases n - i,
    {
        let tx = &block.transactions[i];
        if match_transaction(tx, &prev[i], filter) {
            indices.push(i as u32);
            txs.push(tx.data.clone());
        }
        i = i + 1;
    }
    proof {
        let all = block.transactions@;
        let nn = n as int;
        law_selection_is_exact(all, prev@, filter@, nn);
        assert forall|g: BloomFilterView| #[trigger] covers(filter@, g) implies selects_within(all, prev@, filter@, g) by {
            law_selection_is_exact(all, prev@, g, nn);
            let m1 = matched_indices(all, prev@, filter@, nn);
            let m2 = matched_indices(all, prev@, g, nn);
            assert forall|k: int| 0 <= k < nn && #[trigger] m1.contains(k as u32) implies m2.contains(k as u32) by {
                assert(tx_matches(all[k], prev@[k]@, filter@));
                assert(tx_kept(all[k], prev@[k]@, filter@));
                assert(tx_matches(all[k], prev@[k]@, g));
            }
            if m1.len() > 0 {
                let k = m1[0] as int;
                assert(m1.contains(m1[0]));
                assert(m2.contains(k as u32));
            }
        }
    }
    if indices.len() == 0 {
        None
    } else {
        Some(MatchedTransactions { indices, transactions: txs })
    }
}

} // verus!

verus! {

/// The most block hashes a `GetFilteredBlocks` request may carry.
pub const MAX_GET_FILTERED_BLOCKS_LEN: usize = 512;

/// The most matched blocks one `FilteredBlocks` reply carries.
pub const MAX_FILTERED_BLOCKS_LEN: usize = 4;

/// A reply to `GetFilteredBlocks`: the requested hashes whose blocks the
/// filter did not select (or that the store does not hold), the hashes of
/// the selected blocks, and for each of them what was selected.
pub struct FilteredBlocks<T> {
    pub unmatched_block_hashes: Vec<Byte32>,
    pub matched_block_hashes: Vec<Byte32>,
    pub matched_blocks: Vec<T>,
}

/// How many of the requests `lo..hi` found a match.
pub open spec fn matches_in<T>(rs: Seq<Option<T>>, lo: int, hi: int) -> nat
    decreases hi - lo,
{
    if hi <= lo {
        0
    } else {
        matches_in(rs, lo, hi - 1) + if rs[hi - 1] is Some { 1nat } else { 0nat }
    }
}

/// The hashes of the requests `lo..hi` that found no match, in order.
pub open spec fn unmatched_in<T>(hs: Seq<Byte32>, rs: Seq<Option<T>>, lo: int, hi: int) -> Seq<Byte32>
    decreases hi - lo,
{
    if hi <= lo {
        seq![]
    } else {
        let s = unmatched_in(hs, rs, lo, hi - 1);
        if rs[hi - 1] is None { s.push(hs[hi - 1]) } else { s }
    }
}

/// The hashes of the requests `lo..hi` that found a match, in order.
pub open spec fn matched_in<T>(hs: Seq<Byte32>, rs: Seq<Option<T>>, lo: int, hi: int) -> Seq<Byte32>
    decreases hi - lo,
{
    if hi <= lo {
        seq![]
    } else {
        let s = matched_in(hs, rs, lo, hi - 1);
        if rs[hi - 1] is Some { s.push(hs[hi - 1]) } else { s }
    }
}

/// What the requests `lo..hi` that found a match found, in order.
pub open spec fn found_in<T>(rs: Seq<Option<T>>, lo: int, hi: int) -> Seq<T>
    decreases hi - lo,
{
    if hi <= lo {
        seq![]
    } else {
        let s = found_in(rs, lo, hi - 1);
        if rs[hi - 1] is Some { s.push(rs[hi - 1]->0) } else { s }
    }
}

/// Where the reply that starts at request `lo` ends, scanning from `j`: right
/// after the request that brings its matches to `MAX_FILTERED_BLOCKS_LEN`, or
/// at the end of the requests.
pub open spec fn batch_end<T>(rs: Seq<Option<T>>, lo: int, j: int) -> int
    decreases rs.len() - j,
{
    if j >= rs.len() {
        rs.len() as int
    } else if matches_in(rs, lo, j + 1) == MAX_FILTERED_BLOCKS_LEN {
        j + 1
    } else {
        batch_end(rs, lo, j + 1)
    }
}

pub proof fn lemma_batch_end_bounds<T>(rs: Seq<Option<T>>, lo: int, j: int)
    requires
        0 <= j < rs.len(),
    ensures
        j < batch_end(rs, lo, j) <= rs.len(),
    decreases rs.len() - j,
{
    if matches_in(rs, lo, j + 1) != MAX_FILTERED_BLOCKS_LEN {
        if j + 1 < rs.len() {
            lemma_batch_end_bounds(rs, lo, j + 1);
        } else {
            assert(batch_end(rs, lo, j + 1) == rs.len());
        }
    }
}

/// The ranges of requests, from `lo` on, that the replies cover, in order.
pub open spec fn batch_ranges<T>(rs: Seq<Option<T>>, lo: int) -> Seq<(int, int)>
    decreases rs.len() - lo,
{
    if lo < 0 || lo >= rs.len() {
        seq![]
    } else {
        let e = batch_end(rs, lo, lo);
        proof {
            lemma_batch_end_bounds(rs, lo, lo);
        }
        seq![(lo, e)] + batch_ranges(rs, e)
    }
}

/// The reply `b` is the one for the requests `lo..hi`.
pub open spec fn is_batch_of<T>(b: FilteredBlocks<T>, hs: Seq<Byte32>, rs: Seq<Option<T>>, lo: int, hi: int) -> bool {
    &&& b.unmatched_block_hashes@ == unmatched_in(hs, rs, lo, hi)
    &&& b.matched_block_hashes@ == matched_in(hs, rs, lo, hi)
    &&& b.matched_blocks@ == found_in(rs, lo, hi)
}

/// The replies to `GetFilteredBlocks` for the requested hashes `hs`, where
/// `rs[i]` is what the filter selected of block `hs[i]` (`None` when it
/// selected nothing or the store does not hold the block): one reply per
/// range of `batch_ranges`, in order.
pub open spec fn replies_are<T>(out: Seq<FilteredBlocks<T>>, hs: Seq<Byte32>, rs: Seq<Option<T>>) -> bool {
    let ranges = batch_ranges(rs, 0);
    &&& out.len() == ranges.len()
    &&& forall|k: int| 0 <= k < out.len() ==> is_batch_of(#[trigger] out[k], hs, rs, ranges[k].0, ranges[k].1)
}

/// Cuts the answers to a `GetFilteredBlocks` request into replies: a reply is
/// closed as soon as it holds `MAX_FILTERED_BLOCKS_LEN` matched blocks, and
/// the last request closes the last reply.
pub fn batch_filtered_blocks<T>(block_hashes: &Vec<Byte32>, results: Vec<Option<T>>) -> (out: Vec<FilteredBlocks<T>>)
    requires
        results@.len() == block_hashes@.len(),
    ensures
        replies_are(out@, block_hashes@, results@),
{
    let ghost hs = block_hashes@;
    let ghost rs0 = results@;
    let n = results.len();
    let mut results = results;
    let mut out: Vec<FilteredBlocks<T>> = Vec::new();
    let ghost mut done: Seq<(int, int)> = seq![];
    let mut lo: usize = 0;
    while lo < n
        invariant
            n == rs0.len(),
            hs.len() == n,
            hs == block_hashes@,
            lo <= n,
            results@.len() == n,
            forall|k: int| lo <= k < n ==> results@[k] == rs0[k],
            batch_ranges(rs0, 0) == done + batch_ranges(rs0, lo as int),
            out@.len() == done.len(),
            forall|k: int| 0 <= k < out@.len() ==> is_batch_of(#[trigger] out@[k], hs, rs0, done[k].0, done[k].1),
        decreases n - lo,
    {
        let ghost e = batch_end(rs0, lo as int, lo as int);
        proof {
            lemma_batch_end_bounds(rs0, lo as int, lo as int);
            assert(batch_ranges(rs0, lo as int) == seq![(lo as int, e)] + batch_ranges(rs0, e));
        }
        let mut unmatched: Vec<Byte32> = Vec::new();
        let mut matched: Vec<Byte32> = Vec::new();
        let mut blocks: Vec<T> = Vec::new();
        let mut j: usize = lo;
        loop
            invariant_except_break
                lo <= j < n,
                matched@.len() == matches_in(rs0, lo as int, j as int),
                matched@.len() < MAX_FILTERED_BLOCKS_LEN,
                e == batch_end(rs0, lo as int, j as int),
            invariant
                n == rs0.len(),
                hs.len() == n,
                hs == block_hashes@,
                lo < n,
                lo <= j <= n,
                results@.len() == n,
                forall|k: int| j <= k < n ==> results@[k] == rs0[k],
                unmatched@ == unmatched_in(hs, rs0, lo as int, j as int),
                matched@ == matched_in(hs, rs0, lo as int, j as int),
                blocks@ == found_in(rs0, lo as int, j as int),
            ensures
                j == e,
            decreases n - j,
        {
            let mut item: Option<T> = None;
            results.set_and_swap(j, &mut item);
            proof {
                assert(matched_in(hs, rs0, lo as int, j + 1) == (if rs0[j as int] is Some { matched_in(hs, rs0, lo as int, j as int).push(hs[j as int]) } else { matched_in(hs, rs0, lo as int, j as int) }));
            }
            match item {
                Some(found) => {
                    matched.push(block_hashes[j]);
                    blocks.push(found);
                },
                None => {
                    unmatched.push(block_hashes[j]);
                },
            }
            j = j + 1;
            proof {
                assert(e == if matches_in(rs0, lo as int, j as int) == MAX_FILTERED_BLOCKS_LEN { j as int } else { batch_end(rs0, lo as int, j as int) });
                if j == n {
                    assert(batch_end(rs0, lo as int, j as int) == n);
                }
            }
            assert(matched@.len() == matches_in(rs0, lo as int, j as int)) by {
                assert(matched_in(hs, rs0, lo as int, j as int).len() == matches_in(rs0, lo as int, j as int)) by {
                    lemma_matched_in_len(hs, rs0, lo as int, j as int);
                }
            }
            if matched.len() == MAX_FILTERED_BLOCKS_LEN || j == n {
                break;
            }
        }
        out.push(FilteredBlocks {
            unmatched_block_hashes: unmatched,
            matched_block_hashes: matched,
            matched_blocks: blocks,
        });
        proof {
            done = done.push((lo as int, e));
            assert(batch_ranges(rs0, 0) == done + batch_ranges(rs0, e));
        }
        lo = j;
    }
    out
}

pub proof fn lemma_matched_in_len<T>(hs: Seq<Byte32>, rs: Seq<Option<T>>, lo: int, hi: int)
    ensures
        matched_in(hs, rs, lo, hi).len() == matches_in(rs, lo, hi),
        found_in(rs, lo, hi).len() == matches_in(rs, lo, hi),
    decreases hi - lo,
{
    if hi > lo {
        lemma_matched_in_len(hs, rs, lo, hi - 1);
    }
}

} // verus!

verus! {

/// The unmatched hashes of the replies, one reply after the other.
pub open spec fn replies_unmatched<T>(out: Seq<FilteredBlocks<T>>) -> Seq<Byte32>
    decreases out.len(),
{
    if out.len() == 0 {
        seq![]
    } else {
        out[0].unmatched_block_hashes@ + replies_unmatched(out.drop_first())
    }
}

/// The matched hashes of the replies, one reply after the other.
pub open spec fn replies_matched<T>(out: Seq<FilteredBlocks<T>>) -> Seq<Byte32>
    decreases out.len(),
{
    if out.len() == 0 {
        seq![]
    } else {
        out[0].matched_block_hashes@ + replies_matched(out.drop_first())
    }
}

/// The matched blocks of the replies, one reply after the other.
pub open spec fn replies_found<T>(out: Seq<FilteredBlocks<T>>) -> Seq<T>
    decreases out.len(),
{
    if out.len() == 0 {
        seq![]
    } else {
        out[0].matched_blocks@ + replies_found(out.drop_first())
    }
}

proof fn lemma_split<T>(hs: Seq<Byte32>, rs: Seq<Option<T>>, lo: int, mid: int, hi: int)
    requires
        lo <= mid <= hi,
    ensures
        unmatched_in(hs, rs, lo, mid) + unmatched_in(hs, rs, mid, hi) == unmatched_in(hs, rs, lo, hi),
        matched_in(hs, rs, lo, mid) + matched_in(hs, rs, mid, hi) == matched_in(hs, rs, lo, hi),
        found_in(rs, lo, mid) + found_in(rs, mid, hi) == found_in(rs, lo, hi),
        matches_in(rs, lo, mid) + matches_in(rs, mid, hi) == matches_in(rs, lo, hi),
    decreases hi - mid,
{
    if hi > mid {
        lemma_split(hs, rs, lo, mid, hi - 1);
        assert(unmatched_in(hs, rs, lo, mid) + unmatched_in(hs, rs, mid, hi) =~= unmatched_in(hs, rs, lo, hi));
        assert(matched_in(hs, rs, lo, mid) + matched_in(hs, rs, mid, hi) =~= matched_in(hs, rs, lo, hi));
        assert(found_in(rs, lo, mid) + found_in(rs, mid, hi) =~= found_in(rs, lo, hi));
    } else {
        assert(unmatched_in(hs, rs, lo, mid) + unmatched_in(hs, rs, mid, hi) =~= unmatched_in(hs, rs, lo, hi));
        assert(matched_in(hs, rs, lo, mid) + matched_in(hs, rs, mid, hi) =~= matched_in(hs, rs, lo, hi));
        assert(found_in(rs, lo, mid) + found_in(rs, mid, hi) =~= found_in(rs, lo, hi));
    }
}

proof fn lemma_batch_end_count<T>(rs: Seq<Option<T>>, lo: int, j: int)
    requires
        lo <= j <= rs.len(),
        matches_in(rs, lo, j) < MAX_FILTERED_BLOCKS_LEN,
    ensures
        j <= batch_end(rs, lo, j) <= rs.len(),
        matches_in(rs, lo, batch_end(rs, lo, j)) <= MAX_FILTERED_BLOCKS_LEN,
        batch_end(rs, lo, j) < rs.len() ==> matches_in(rs, lo, batch_end(rs, lo, j)) == MAX_FILTERED_BLOCKS_LEN,
    decreases rs.len() - j,
{
    if j < rs.len() {
        assert(matches_in(rs, lo, j + 1) <= matches_in(rs, lo, j) + 1);
        if matches_in(rs, lo, j + 1) != MAX_FILTERED_BLOCKS_LEN {
            lemma_batch_end_count(rs, lo, j + 1);
        }
    }
}

/// The ranges that the replies cover, and what they hold, from request `lo`
/// on.
proof fn lemma_ranges<T>(hs: Seq<Byte32>, rs: Seq<Option<T>>, lo: int)
    requires
        0 <= lo <= rs.len(),
    ensures
        ({
            let r = batch_ranges(rs, lo);
            &&& (r.len() == 0) == (lo == rs.len())
            &&& r.len() > 0 ==> r[0].0 == lo && r[r.len() - 1].1 == rs.len()
            &&& forall|k: int| 0 <= k < r.len() ==> lo <= (#[trigger] r[k]).0 < r[k].1 <= rs.len()
            &&& forall|k: int| 0 <= k < r.len() - 1 ==> (#[trigger] r[k]).1 == r[k + 1].0
            &&& forall|k: int| 0 <= k < r.len() ==> matches_in(rs, (#[trigger] r[k]).0, r[k].1) <= MAX_FILTERED_BLOCKS_LEN
            &&& forall|k: int| 0 <= k < r.len() - 1 ==> matches_in(rs, (#[trigger] r[k]).0, r[k].1) == MAX_FILTERED_BLOCKS_LEN
        }),
    decreases rs.len() - lo,
{
    if lo < rs.len() {
        let e = batch_end(rs, lo, lo);
        lemma_batch_end_bounds(rs, lo, lo);
        lemma_batch_end_count(rs, lo, lo);
        lemma_ranges(hs, rs, e);
        let r = batch_ranges(rs, lo);
        let tail = batch_ranges(rs, e);
        assert(r == seq![(lo, e)] + tail);
        assert forall|k: int| 0 <= k < r.len() implies lo <= (#[trigger] r[k]).0 < r[k].1 <= rs.len()
            && matches_in(rs, r[k].0, r[k].1) <= MAX_FILTERED_BLOCKS_LEN by {
            if k > 0 {
                assert(r[k] == tail[k - 1]);
            }
        }
        assert forall|k: int| 0 <= k < r.len() - 1 implies (#[trigger] r[k]).1 == r[k + 1].0
            && matches_in(rs, r[k].0, r[k].1) == MAX_FILTERED_BLOCKS_LEN by {
            assert(r[k + 1] == tail[k]);
            if k > 0 {
                assert(r[k] == tail[k - 1]);
            }
        }
    }
}

/// The replies for requests `lo..` hold, one after the other, exactly the
/// unmatched hashes, matched hashes and matched blocks of `lo..`.
proof fn lemma_replies_concat<T>(out: Seq<FilteredBlocks<T>>, hs: Seq<Byte32>, rs: Seq<Option<T>>, lo: int)
    requires
        0 <= lo <= rs.len(),
        out.len() == batch_ranges(rs, lo).len(),
        forall|k: int| 0 <= k < out.len() ==> is_batch_of(#[trigger] out[k], hs, rs, batch_ranges(rs, lo)[k].0, batch_ranges(rs, lo)[k].1),
    ensures
        replies_unmatched(out) == unmatched_in(hs, rs, lo, rs.len() as int),
        replies_matched(out) == matched_in(hs, rs, lo, rs.len() as int),
        replies_found(out) == found_in(rs, lo, rs.len() as int),
    decreases rs.len() - lo,
{
    if lo < rs.len() {
        let e = batch_end(rs, lo, lo);
        lemma_batch_end_bounds(rs, lo, lo);
        let r = batch_ranges(rs, lo);
        let tail = batch_ranges(rs, e);
        assert(r == seq![(lo, e)] + tail);
        let rest = out.drop_first();
        assert forall|k: int| 0 <= k < rest.len() implies is_batch_of(#[trigger] rest[k], hs, rs, tail[k].0, tail[k].1) by {
            assert(rest[k] == out[k + 1]);
            assert(r[k + 1] == tail[k]);
        }
        lemma_replies_concat(rest, hs, rs, e);
        assert(is_batch_of(out[0], hs, rs, lo, e));
        lemma_split(hs, rs, lo, e, rs.len() as int);
    } else {
        assert(unmatched_in(hs, rs, lo, rs.len() as int) == Seq::<Byte32>::empty());
        assert(matched_in(hs, rs, lo, rs.len() as int) == Seq::<Byte32>::empty());
        assert(found_in(rs, lo, rs.len() as int) == Seq::<T>::empty());
    }
}

/// Replies to `GetFilteredBlocks` lose nothing and invent nothing: read one
/// after the other they hold every requested hash exactly once, the
/// unmatched ones in request order, the matched ones in request order each
/// with what the filter selected of it. Every reply but the last holds
/// exactly `MAX_FILTERED_BLOCKS_LEN` matched blocks, the last at most that
/// many; no reply is empty, and an empty request gets no reply.
pub proof fn law_filtered_blocks_replies<T>(out: Seq<FilteredBlocks<T>>, hs: Seq<Byte32>, rs: Seq<Option<T>>)
    requires
        hs.len() == rs.len(),
        replies_are(out, hs, rs),
    ensures
        replies_unmatched(out) == unmatched_in(hs, rs, 0, rs.len() as int),
        replies_matched(out) == matched_in(hs, rs, 0, rs.len() as int),
        replies_found(out) == found_in(rs, 0, rs.len() as int),
        (out.len() == 0) == (rs.len() == 0),
        forall|k: int| 0 <= k < out.len() ==> (#[trigger] out[k]).matched_block_hashes@.len() <= MAX_FILTERED_BLOCKS_LEN,
        forall|k: int| 0 <= k < out.len() - 1 ==> (#[trigger] out[k]).matched_block_hashes@.len() == MAX_FILTERED_BLOCKS_LEN,
        forall|k: int| 0 <= k < out.len() ==>
            (#[trigger] out[k]).matched_block_hashes@.len() + out[k].unmatched_block_hashes@.len() > 0,
{
    lemma_ranges(hs, rs, 0);
    lemma_replies_concat(out, hs, rs, 0);
    let r = batch_ranges(rs, 0);
    assert forall|k: int| 0 <= k < out.len() implies
        (#[trigger] out[k]).matched_block_hashes@.len() <= MAX_FILTERED_BLOCKS_LEN
        && (k < out.len() - 1 ==> out[k].matched_block_hashes@.len() == MAX_FILTERED_BLOCKS_LEN)
        && out[k].matched_block_hashes@.len() + out[k].unmatched_block_hashes@.len() > 0 by {
        lemma_matched_in_len(hs, rs, r[k].0, r[k].1);
        lemma_unmatched_len(hs, rs, r[k].0, r[k].1);
    }
}

proof fn lemma_unmatched_len<T>(hs: Seq<Byte32>, rs: Seq<Option<T>>, lo: int, hi: int)
    requires
        lo <= hi,
    ensures
        unmatched_in(hs, rs, lo, hi).len() + matches_in(rs, lo, hi) == hi - lo,
    decreases hi - lo,
{
    if hi > lo {
        lemma_unmatched_len(hs, rs, lo, hi - 1);
    }
}

} // verus!

verus! {

/// What a filter selected of a block, with the merkle proof that ties the
/// selected transactions to the block's transactions root.
pub struct FilteredTransactions {
    pub transactions: Vec<Vec<u8>>,
    pub proof_indices: Vec<u32>,
    pub proof_lemmas: Vec<Byte32>,
}

/// A new block as a peer's filter sees it: its serialized header and what
/// the filter selected of it.
pub struct FilteredBlock {
    pub header: Vec<u8>,
    pub transactions: Option<FilteredTransactions>,
}

/// The messages of the bloom filter protocol.
pub enum FilterMessage {
    /// Replace the peer's filter.
    SetFilter { hash_seed: u32, filter: Vec<u8>, num_hashes: u8 },
    /// OR more buckets into the peer's filter.
    AddFilter { filter: Vec<u8> },
    /// Drop the peer's filter.
    ClearFilter,
    /// Ask which transactions of these blocks the peer's filter selects.
    GetFilteredBlocks { block_hashes: Vec<Byte32> },
    /// A reply to `GetFilteredBlocks`; only the node sends it.
    FilteredBlocks(FilteredBlocks<FilteredTransactions>),
    /// A new block as filtered; only the node sends it.
    FilteredBlock(FilteredBlock),
}

/// Why a peer is banned.
pub enum FilterBanReason {
    /// It asked for more than `MAX_GET_FILTERED_BLOCKS_LEN` blocks at once;
    /// the number it asked for.
    BlockHashesOverLimit(usize),
    /// It sent a message that only the node sends.
    UnexpectedFilteredBlocks,
}

/// What the node does after a message of the bloom filter protocol.
pub enum FilterAction {
    /// Nothing more (the peer's filter may have changed).
    Done,
    /// Ban the peer.
    Ban(FilterBanReason),
    /// The peer asked for filtered blocks but set no filter: send it an
    /// empty `FilteredBlocks`.
    ReplyEmpty,
    /// Look up the blocks with these hashes, select of each what this
    /// filter selects (`select_requested_blocks`), prove the selections and
    /// send the replies that `filtered_blocks_replies` makes.
    ServeFilteredBlocks { filter: BloomFilterData, block_hashes: Vec<Byte32> },
}

/// The node's side of the bloom filter protocol: the filter each peer set.
pub struct FilterProtocol {
    peer_filters: std::collections::HashMap<usize, BloomFilterData>,
}

/// The peers' filters after `peer` sent `message`: `SetFilter` replaces its
/// filter (its buckets completed with zero bytes to whole 64-bit words, as
/// the filter crate reads them), `AddFilter` ORs buckets into the filter it has (and does nothing
/// if it has none), `ClearFilter` drops it, and the other messages leave the
/// filters as they are.
pub open spec fn filters_after(m: Map<usize, BloomFilterView>, peer: usize, message: FilterMessage) -> Map<usize, BloomFilterView> {
    match message {
        FilterMessage::SetFilter { hash_seed, filter, num_hashes } =>
            m.insert(peer, BloomFilterView { raw: padded_to_words(filter@), num_hashes, hash_seed }),
        FilterMessage::AddFilter { filter } =>
            if m.contains_key(peer) {
                let f = m[peer];
                m.insert(peer, BloomFilterView { raw: or_into(f.raw, filter@), ..f })
            } else {
                m
            },
        FilterMessage::ClearFilter => m.remove(peer),
        _ => m,
    }
}

/// The values of stored filters.
pub open spec fn filters_view(m: Map<usize, BloomFilterData>) -> Map<usize, BloomFilterView> {
    m.map_values(|f: BloomFilterData| f@)
}

impl FilterProtocol {
    /// The filter of each peer that set one.
    pub closed spec fn filters(&self) -> Map<usize, BloomFilterView> {
        filters_view(self.peer_filters@)
    }

    /// Every stored filter has whole 64-bit words of buckets.
    #[verifier::type_invariant]
    spec fn wf(&self) -> bool {
        forall|p: usize| #[trigger] self.peer_filters@.contains_key(p) ==> self.peer_filters@[p]@.words_aligned()
    }

    /// A protocol where no peer has set a filter.
    pub fn new() -> (r: Self)
        ensures
            r.filters() == Map::<usize, BloomFilterView>::empty(),
    {
        let r = FilterProtocol { peer_filters: std::collections::HashMap::new() };
        assert(r.filters() =~= Map::<usize, BloomFilterView>::empty());
        r
    }

    /// The filter that `peer` set, if any.
    pub fn peer_filter(&self, peer: usize) -> (r: Option<&BloomFilterData>)
        ensures
            match r {
                Some(f) => self.filters().contains_key(peer) && f@ == self.filters()[peer],
                None => !self.filters().contains_key(peer),
            },
    {
        broadcast use vstd::std_specs::hash::group_hash_axioms;
        self.peer_filters.get(&peer)
    }

    /// Handles a message from `peer`: sets, extends or clears its filter, or
    /// says what to answer.
    pub fn process(&mut self, peer: usize, message: FilterMessage) -> (action: FilterAction)
        ensures
            final(self).filters() == filters_after(old(self).filters(), peer, message),
            message is AddFilter && old(self).filters().contains_key(peer) ==> forall|item: Seq<u8>|
                #[trigger] filter_has(old(self).filters()[peer], item) ==> filter_has(final(self).filters()[peer], item),
            match message {
                FilterMessage::GetFilteredBlocks { block_hashes } => {
                    if block_hashes@.len() > MAX_GET_FILTERED_BLOCKS_LEN {
                        action == FilterAction::Ban(FilterBanReason::BlockHashesOverLimit(block_hashes@.len() as usize))
                    } else if old(self).filters().contains_key(peer) {
                        action matches FilterAction::ServeFilteredBlocks { filter: f, block_hashes: hs }
                            && f@ == old(self).filters()[peer] && hs@ == block_hashes@
                    } else {
                        action is ReplyEmpty
                    }
                },
                FilterMessage::FilteredBlocks(_) | FilterMessage::FilteredBlock(_) => {
                    action == FilterAction::Ban(FilterBanReason::UnexpectedFilteredBlocks)
                },
                _ => action is Done,
            },
    {
        broadcast use vstd::std_specs::hash::group_hash_axioms;
        proof {
            use_type_invariant(&*self);
        }
        let ghost before = old(self).filters();
        let mut filters: std::collections::HashMap<usize, BloomFilterData> = std::collections::HashMap::new();
        std::mem::swap(&mut filters, &mut self.peer_filters);
        assert(filters_view(filters@) == before);
        let action = match message {
            FilterMessage::SetFilter { hash_seed, filter, num_hashes } => {
                let ghost given = filter@;
                let raw = crate::bloom::pad_to_words(filter);
                let f = BloomFilterData { raw, num_hashes, hash_seed };
                filters.insert(peer, f);
                assert(filters_view(filters@) =~= before.insert(peer, BloomFilterView { raw: padded_to_words(given), num_hashes, hash_seed }));
                FilterAction::Done
            },
            FilterMessage::AddFilter { filter } => {
                let merged = match filters.get(&peer) {
                    Some(f) => Some(crate::bloom::merge_filter(f, &filter)),
                    None => None,
                };
                match merged {
                    Some(m) => {
                        proof {
                            assert(m.raw@.len() % 8 == 0);
                        }
                        filters.insert(peer, m);
                        assert(filters_view(filters@) =~= {
                            let f = before[peer];
                            before.insert(peer, BloomFilterView { raw: or_into(f.raw, filter@), ..f })
                        });
                    },
                    None => {},
                }
                FilterAction::Done
            },
            FilterMessage::ClearFilter => {
                filters.remove(&peer);
                assert(filters_view(filters@) =~= before.remove(peer));
                FilterAction::Done
            },
            FilterMessage::GetFilteredBlocks { block_hashes } => {
                if block_hashes.len() > MAX_GET_FILTERED_BLOCKS_LEN {
                    FilterAction::Ban(FilterBanReason::BlockHashesOverLimit(block_hashes.len()))
                } else {
                    match filters.get(&peer) {
                        Some(f) => FilterAction::ServeFilteredBlocks { filter: f.duplicate(), block_hashes },
                        None => FilterAction::ReplyEmpty,
                    }
                }
            },
            FilterMessage::FilteredBlocks(_) | FilterMessage::FilteredBlock(_) => {
                FilterAction::Ban(FilterBanReason::UnexpectedFilteredBlocks)
            },
        };
        self.peer_filters = filters;
        action
    }

    /// Forgets the filter of a peer that disconnected.
    pub fn disconnected(&mut self, peer: usize)
        ensures
            final(self).filters() == old(self).filters().remove(peer),
    {
        broadcast use vstd::std_specs::hash::group_hash_axioms;
        proof {
            use_type_invariant(&*self);
        }
        let mut filters: std::collections::HashMap<usize, BloomFilterData> = std::collections::HashMap::new();
        std::mem::swap(&mut filters, &mut self.peer_filters);
        filters.remove(&peer);
        self.peer_filters = filters;
        assert(self.filters() =~= old(self).filters().remove(peer));
    }
}

} // verus!

verus! {

impl FilterProtocol {
    /// Every stored filter can be looked up (`usable`).
    pub open spec fn all_usable(&self) -> bool {
        forall|p: usize| #[trigger] self.filters().contains_key(p) ==> self.filters()[p].usable()
    }

    /// Whether every stored filter can be looked up; a filter with no bucket
    /// and some hash function cannot (the filter crate divides by zero).
    pub fn filters_usable(&self) -> (r: bool)
        ensures
            r == self.all_usable(),
    {
        broadcast use vstd::std_specs::hash::group_hash_axioms;
        proof {
            use_type_invariant(self);
        }
        let ghost m = self.peer_filters@;
        let ghost v = vstd::std_specs::hash::spec_hash_map_iter(&self.peer_filters).remaining();
        let ghost mut seen: Seq<(&usize, &BloomFilterData)> = seq![];
        let mut ok = true;
        for entry in it: self.peer_filters.iter()
            invariant
                m == self.peer_filters@,
                v == vstd::std_specs::hash::spec_hash_map_iter(&self.peer_filters).remaining(),
                it.seq() == v,
                seen == v.take(it.index()),
                self.wf(),
                ok == forall|i: int| 0 <= i < seen.len() ==> (*#[trigger] seen[i].1)@.usable(),
        {
            let (_p, f) = entry;
            let here = f.num_hashes == 0 || f.raw.len() > 0;
            proof {
                assert(entry == v[it.index()]);
                assert(m.contains_key(*v[it.index()].0) && m[*v[it.index()].0] == *v[it.index()].1);
                assert((*entry.1)@.usable() == here);
                assert(v.take(it.index() + 1) == seen.push(entry));
                let old_seen = seen;
                seen = seen.push(entry);
                assert((forall|i: int| 0 <= i < seen.len() ==> (*#[trigger] seen[i].1)@.usable())
                    == ((forall|i: int| 0 <= i < old_seen.len() ==> (*#[trigger] old_seen[i].1)@.usable()) && here)) by {
                    if forall|i: int| 0 <= i < seen.len() ==> (*#[trigger] seen[i].1)@.usable() {
                        assert forall|i: int| 0 <= i < old_seen.len() implies (*#[trigger] old_seen[i].1)@.usable() by {
                            assert(old_seen[i] == seen[i]);
                        }
                        assert(seen[old_seen.len() as int] == entry);
                    }
                    if (forall|i: int| 0 <= i < old_seen.len() ==> (*#[trigger] old_seen[i].1)@.usable()) && here {
                        assert forall|i: int| 0 <= i < seen.len() implies (*#[trigger] seen[i].1)@.usable() by {
                            if i < old_seen.len() {
                                assert(old_seen[i] == seen[i]);
                            }
                        }
                    }
                }
            }
            ok = ok && here;
        }
        proof {
            assert(seen == v);
            assert(v.len() == m.dom().len());
            if ok {
                assert forall|p: usize| #[trigger] self.filters().contains_key(p) implies self.filters()[p].usable() by {
                    assert(m.contains_key(p));
                    assert(self.filters()[p] == m[p]@);
                    assert(v.contains((&p, &m[p])));
                    let i = choose|i: int| 0 <= i < v.len() && v[i] == (&p, &m[p]);
                    assert((*seen[i].1)@.usable());
                }
            } else {
                let i = choose|i: int| 0 <= i < seen.len() && !(*#[trigger] seen[i].1)@.usable();
                let p = *v[i].0;
                assert(m.contains_key(*v[i].0) && m[*v[i].0] == *v[i].1);
                assert(self.filters().contains_key(p));
                assert(self.filters()[p] == m[p]@);
                assert(!self.filters()[p].usable());
            }
        }
        ok
    }

    /// For a new block, what the filter of each peer selects of it: one
    /// entry per peer with a filter, each peer once (the order is that of the
    /// map, which nothing fixes).
    pub fn filtered_block_selections(
        &self,
        block: &Block,
        prev: &Vec<Vec<Option<CellOutput>>>,
    ) -> (out: Vec<(usize, Option<MatchedTransactions>)>)
        requires
            self.all_usable() || block.transactions@.len() == 0,
            prev_outputs_align(*block, prev@),
            block.transactions@.len() <= u32::MAX,
        ensures
            out@.len() == self.filters().dom().len(),
            forall|i: int| 0 <= i < out@.len() ==> self.filters().contains_key((#[trigger] out@[i]).0)
                && selection_is(out@[i].1, *block, prev@, self.filters()[out@[i].0]),
            forall|p: usize| #[trigger] self.filters().contains_key(p) ==> exists|i: int| 0 <= i < out@.len() && (#[trigger] out@[i]).0 == p,
            forall|i: int, j: int| 0 <= i < j < out@.len() ==> (#[trigger] out@[i]).0 != (#[trigger] out@[j]).0,
    {
        broadcast use vstd::std_specs::hash::group_hash_axioms;
        let ghost m = self.peer_filters@;
        let ghost v = vstd::std_specs::hash::spec_hash_map_iter(&self.peer_filters).remaining();
        let mut out: Vec<(usize, Option<MatchedTransactions>)> = Vec::new();
        for entry in it: self.peer_filters.iter()
            invariant
                m == self.peer_filters@,
                self.all_usable() || block.transactions@.len() == 0,
                prev_outputs_align(*block, prev@),
                block.transactions@.len() <= u32::MAX,
                v == vstd::std_specs::hash::spec_hash_map_iter(&self.peer_filters).remaining(),
                it.seq() == v,
                out@.len() == it.index(),
                forall|i: int| 0 <= i < out@.len() ==> (#[trigger] out@[i]).0 == *v[i].0
                    && selection_is(out@[i].1, *block, prev@, (*v[i].1)@),
        {
            let (p, f) = entry;
            proof {
                assert(entry == v[it.index()]);
                assert(m.contains_key(*v[it.index()].0) && m[*v[it.index()].0] == *v[it.index()].1);
                assert(self.filters().contains_key(*p) && self.filters()[*p] == f@);
            }
            let selected = build_filtered_transactions(block, f, prev);
            out.push((*p, selected));
        }
        proof {
            assert(v.len() == m.dom().len());
            assert(out@.len() == v.len());
            assert(self.filters().dom() =~= m.dom());
            assert forall|i: int| 0 <= i < out@.len() implies self.filters().contains_key((#[trigger] out@[i]).0)
                && selection_is(out@[i].1, *block, prev@, self.filters()[out@[i].0]) by {
                assert(m.contains_key(*v[i].0) && m[*v[i].0] == *v[i].1);
            }
            assert forall|p: usize| #[trigger] self.filters().contains_key(p) implies exists|i: int| 0 <= i < out@.len() && (#[trigger] out@[i]).0 == p by {
                assert(m.contains_key(p));
                assert(v.contains((&p, &m[p])));
                let i = choose|i: int| 0 <= i < v.len() && v[i] == (&p, &m[p]);
                assert(out@[i].0 == p);
            }
            assert forall|i: int, j: int| 0 <= i < j < out@.len() implies (#[trigger] out@[i]).0 != (#[trigger] out@[j]).0 by {
                assert(m.contains_key(*v[i].0) && m[*v[i].0] == *v[i].1);
                assert(m.contains_key(*v[j].0) && m[*v[j].0] == *v[j].1);
                if *v[i].0 == *v[j].0 {
                    assert(v[i] == v[j]);
                }
            }
        }
        out
    }
}

} // verus!

verus! {

/// A filter that a peer sets is the filter it has afterwards: with the same
/// hash count and seed, and the same buckets when they are whole 64-bit
/// words (else completed with zero bytes).
pub proof fn law_set_filter_read_back(m: Map<usize, BloomFilterView>, peer: usize, message: FilterMessage)
    requires
        message is SetFilter,
    ensures
        match message {
            FilterMessage::SetFilter { hash_seed, filter, num_hashes } => {
                &&& filters_after(m, peer, message).contains_key(peer)
                &&& filters_after(m, peer, message)[peer] == BloomFilterView { raw: padded_to_words(filter@), num_hashes, hash_seed }
                &&& filter@.len() % 8 == 0 ==> filters_after(m, peer, message)[peer].raw == filter@
                &&& filters_after(m, peer, message)[peer].raw.len() % 8 == 0
            },
            _ => true,
        },
{
    match message {
        FilterMessage::SetFilter { hash_seed, filter, num_hashes } => {
            let s = filter@;
            assert((s.len() + 7) / 8 * 8 % 8 == 0);
            if s.len() % 8 == 0 {
                assert((s.len() + 7) / 8 * 8 == s.len());
                assert(padded_to_words(s) =~= s);
            }
        },
        _ => {},
    }
}

/// After `ClearFilter` the peer has no filter; after `SetFilter` then
/// `ClearFilter` the filters are those before with the peer's dropped.
pub proof fn law_clear_forgets(m: Map<usize, BloomFilterView>, peer: usize, set: FilterMessage)
    requires
        set is SetFilter,
    ensures
        !filters_after(m, peer, FilterMessage::ClearFilter).contains_key(peer),
        filters_after(filters_after(m, peer, set), peer, FilterMessage::ClearFilter) == m.remove(peer),
{
    assert(filters_after(filters_after(m, peer, set), peer, FilterMessage::ClearFilter) =~= m.remove(peer));
}

/// A message from one peer leaves the filters of the other peers as they
/// were.
pub proof fn law_peers_independent(m: Map<usize, BloomFilterView>, peer: usize, other: usize, message: FilterMessage)
    requires
        other != peer,
    ensures
        filters_after(m, peer, message).contains_key(other) == m.contains_key(other),
        m.contains_key(other) ==> filters_after(m, peer, message)[other] == m[other],
{
}

/// `AddFilter` from a peer without a filter changes nothing; on a filter it
/// keeps the hash count, the seed and the number of buckets, and clears no
/// bucket: the new filter covers the old one, and so selects all it did.
pub proof fn law_add_filter_only_sets_bits(m: Map<usize, BloomFilterView>, peer: usize, message: FilterMessage)
    requires
        message is AddFilter,
    ensures
        !m.contains_key(peer) ==> filters_after(m, peer, message) == m,
        m.contains_key(peer) ==> {
            let before = m[peer];
            let after = filters_after(m, peer, message)[peer];
            &&& after.num_hashes == before.num_hashes
            &&& after.hash_seed == before.hash_seed
            &&& after.raw.len() == before.raw.len()
            &&& forall|i: int| 0 <= i < before.raw.len() ==> (#[trigger] after.raw[i] & before.raw[i]) == before.raw[i]
            &&& covers(before, after)
        },
{
    if m.contains_key(peer) {
        let before = m[peer];
        let after = filters_after(m, peer, message)[peer];
        assert forall|i: int| 0 <= i < before.raw.len() implies (#[trigger] after.raw[i] & before.raw[i]) == before.raw[i]
            && (before.raw[i] & after.raw[i]) == before.raw[i] by {
            let b = before.raw[i];
            match message {
                FilterMessage::AddFilter { filter } => {
                    if i < filter@.len() {
                        let o = filter@[i];
                        assert((b | o) & b == b && b & (b | o) == b) by (bit_vector);
                    } else {
                        assert(b & b == b) by (bit_vector);
                    }
                },
                _ => {},
            }
        }
        assert(bits_superset(before.raw, after.raw));
    }
}

/// `AddFilter` ORs its bytes into the peer's filter: byte `i` of the new
/// buckets has every bit of byte `i` of the old buckets and of the message
/// (where the message has one), and no other bit.
pub proof fn law_add_filter_ors_in(m: Map<usize, BloomFilterView>, peer: usize, bytes: Vec<u8>)
    requires
        m.contains_key(peer),
    ensures
        ({
            let before = m[peer].raw;
            let after = filters_after(m, peer, FilterMessage::AddFilter { filter: bytes })[peer].raw;
            &&& after.len() == before.len()
            &&& forall|i: int| 0 <= i < before.len() ==> {
                let given: u8 = if i < bytes@.len() { bytes@[i] } else { 0u8 };
                &&& (#[trigger] after[i] & before[i]) == before[i]
                &&& (after[i] & given) == given
                &&& (after[i] & !(before[i] | given)) == 0
            }
        }),
{
    let before = m[peer].raw;
    let after = filters_after(m, peer, FilterMessage::AddFilter { filter: bytes })[peer].raw;
    assert forall|i: int| 0 <= i < before.len() implies {
        let given: u8 = if i < bytes@.len() { bytes@[i] } else { 0u8 };
        &&& (#[trigger] after[i] & before[i]) == before[i]
        &&& (after[i] & given) == given
        &&& (after[i] & !(before[i] | given)) == 0
    } by {
        let b = before[i];
        if i < bytes@.len() {
            let o = bytes@[i];
            assert(after[i] == b | o);
            assert(((b | o) & b) == b && ((b | o) & o) == o && ((b | o) & !(b | o)) == 0) by (bit_vector);
        } else {
            assert(after[i] == b);
            assert((b & b) == b && (b & 0u8) == 0u8 && (b & !(b | 0u8)) == 0) by (bit_vector);
        }
    }
}

/// Requests and messages that only the node sends leave every filter as
/// it was.
pub proof fn law_requests_keep_filters(m: Map<usize, BloomFilterView>, peer: usize, message: FilterMessage)
    requires
        message is GetFilteredBlocks || message is FilteredBlocks || message is FilteredBlock,
    ensures
        filters_after(m, peer, message) == m,
{
}

} // verus!

verus! {

/// The selected indices are exactly the matching transactions, each once,
/// in increasing order: a transaction whose hash, created cell or spent cell
/// the filter holds is always selected, and no other is.
pub proof fn law_selection_is_exact(
    txs: Seq<Transaction>,
    prev: Seq<Vec<Option<CellOutput>>>,
    f: BloomFilterView,
    k: int,
)
    requires
        0 <= k <= txs.len(),
        prev.len() == txs.len(),
        txs.len() <= u32::MAX,
    ensures
        forall|i: int| 0 <= i < k ==>
            (matched_indices(txs, prev, f, k).contains(i as u32) <==> tx_matches(#[trigger] txs[i], prev[i]@, f)),
        forall|a: int, b: int| 0 <= a < b < matched_indices(txs, prev, f, k).len() ==>
            (#[trigger] matched_indices(txs, prev, f, k)[a]) < (#[trigger] matched_indices(txs, prev, f, k)[b]),
        forall|a: int| 0 <= a < matched_indices(txs, prev, f, k).len() ==>
            (#[trigger] matched_indices(txs, prev, f, k)[a]) < k,
    decreases k,
{
    if k > 0 {
        law_selection_is_exact(txs, prev, f, k - 1);
        let s = matched_indices(txs, prev, f, k - 1);
        let t = matched_indices(txs, prev, f, k);
        assert forall|i: int| 0 <= i < k implies
            (t.contains(i as u32) <==> tx_matches(#[trigger] txs[i], prev[i]@, f)) by {
            if i < k - 1 {
                if t.contains(i as u32) && !s.contains(i as u32) {
                    let a = choose|a: int| 0 <= a < t.len() && t[a] == i as u32;
                    assert(a == s.len());
                }
                if s.contains(i as u32) {
                    let a = choose|a: int| 0 <= a < s.len() && s[a] == i as u32;
                    assert(t[a] == i as u32);
                }
            } else {
                if tx_matches(txs[i], prev[i]@, f) {
                    assert(t[s.len() as int] == i as u32);
                } else if t.contains(i as u32) {
                    let a = choose|a: int| 0 <= a < t.len() && t[a] == i as u32;
                    assert(s[a] < k - 1);
                }
            }
        }
    }
}

} // verus!

verus! {

/// The filter holds the lock script hash of the cell, or the hash of its
/// type script.
pub open spec fn holds_script_of(f: BloomFilterView, cell: CellOutput) -> bool {
    ||| bloom_contains_of(f.raw, f.num_hashes, f.hash_seed, script_hash_of(cell.lock))
    ||| (cell.type_ matches Some(t) && bloom_contains_of(f.raw, f.num_hashes, f.hash_seed, script_hash_of(t)))
}

/// Transaction `i` is selected exactly when the filter holds its hash, or
/// the lock or type script hash of any one of the cells it creates
/// (whichever cell it is), or of any one of the cells it spends that the
/// store knows.
pub proof fn law_selected_by_any_cell(
    txs: Seq<Transaction>,
    prev: Seq<Vec<Option<CellOutput>>>,
    f: BloomFilterView,
    i: int,
)
    requires
        0 <= i < txs.len(),
        prev.len() == txs.len(),
        txs.len() <= u32::MAX,
    ensures
        matched_indices(txs, prev, f, txs.len() as int).contains(i as u32) <==> {
            ||| bloom_contains_of(f.raw, f.num_hashes, f.hash_seed, txs[i].hash@)
            ||| (exists|k: int| 0 <= k < txs[i].outputs@.len() && holds_script_of(f, #[trigger] txs[i].outputs@[k]))
            ||| (exists|j: int| 0 <= j < prev[i]@.len() && (#[trigger] prev[i]@[j] matches Some(o) && holds_script_of(f, o)))
        },
{
    law_selection_is_exact(txs, prev, f, txs.len() as int);
    let tx = txs[i];
    if exists|k: int| 0 <= k < tx.outputs@.len() && holds_script_of(f, #[trigger] tx.outputs@[k]) {
        let k = choose|k: int| 0 <= k < tx.outputs@.len() && holds_script_of(f, #[trigger] tx.outputs@[k]);
        assert(output_matches(tx.outputs@[k], f));
    }
    if exists|k: int| 0 <= k < tx.outputs@.len() && output_matches(#[trigger] tx.outputs@[k], f) {
        let k = choose|k: int| 0 <= k < tx.outputs@.len() && output_matches(#[trigger] tx.outputs@[k], f);
        assert(holds_script_of(f, tx.outputs@[k]));
    }
    if exists|j: int| 0 <= j < prev[i]@.len() && (#[trigger] prev[i]@[j] matches Some(o) && holds_script_of(f, o)) {
        let j = choose|j: int| 0 <= j < prev[i]@.len() && (#[trigger] prev[i]@[j] matches Some(o) && holds_script_of(f, o));
        assert(prev[i]@[j] matches Some(o) && output_matches(o, f));
    }
    if exists|j: int| 0 <= j < prev[i]@.len() && (#[trigger] prev[i]@[j] matches Some(o) && output_matches(o, f)) {
        let j = choose|j: int| 0 <= j < prev[i]@.len() && (#[trigger] prev[i]@[j] matches Some(o) && output_matches(o, f));
        assert(prev[i]@[j] matches Some(o) && holds_script_of(f, o));
    }
}

proof fn lemma_tx_matches_more(tx: Transaction, prev: Seq<Option<CellOutput>>, f1: BloomFilterView, f2: BloomFilterView)
    requires
        forall|item: Seq<u8>| #[trigger] filter_has(f1, item) ==> filter_has(f2, item),
        tx_matches(tx, prev, f1),
    ensures
        tx_matches(tx, prev, f2),
{
    if !filter_has(f1, tx.hash@) {
        if exists|i: int| 0 <= i < tx.outputs@.len() && output_matches(#[trigger] tx.outputs@[i], f1) {
            let i = choose|i: int| 0 <= i < tx.outputs@.len() && output_matches(#[trigger] tx.outputs@[i], f1);
            assert(output_matches(tx.outputs@[i], f2));
        } else {
            let j = choose|j: int| 0 <= j < prev.len() && (#[trigger] prev[j] matches Some(o) && output_matches(o, f1));
            assert(prev[j] matches Some(o) && output_matches(o, f2));
        }
    }
}

/// A filter that holds every item another holds (as a filter after
/// `AddFilter` holds every item it held before) selects every transaction
/// of a block that the other selects, so it selects something of every
/// block of which the other selects something.
pub proof fn law_more_found_selects_more(
    txs: Seq<Transaction>,
    prev: Seq<Vec<Option<CellOutput>>>,
    f1: BloomFilterView,
    f2: BloomFilterView,
)
    requires
        forall|item: Seq<u8>| #[trigger] filter_has(f1, item) ==> filter_has(f2, item),
        prev.len() == txs.len(),
        txs.len() <= u32::MAX,
    ensures
        forall|i: int| 0 <= i < txs.len() && #[trigger] matched_indices(txs, prev, f1, txs.len() as int).contains(i as u32)
            ==> matched_indices(txs, prev, f2, txs.len() as int).contains(i as u32),
        matched_indices(txs, prev, f1, txs.len() as int).len() > 0 ==> matched_indices(txs, prev, f2, txs.len() as int).len() > 0,
{
    let n = txs.len() as int;
    law_selection_is_exact(txs, prev, f1, n);
    law_selection_is_exact(txs, prev, f2, n);
    let m1 = matched_indices(txs, prev, f1, n);
    let m2 = matched_indices(txs, prev, f2, n);
    assert forall|i: int| 0 <= i < txs.len() && #[trigger] m1.contains(i as u32) implies m2.contains(i as u32) by {
        assert(tx_matches(txs[i], prev[i]@, f1));
        lemma_tx_matches_more(txs[i], prev[i]@, f1, f2);
    }
    if m1.len() > 0 {
        let i = m1[0] as int;
        assert(m1.contains(m1[0]));
        assert(0 <= i < n);
        assert(m2.contains(i as u32));
    }
}

} // verus!

verus! {

impl FilteredTransactions {
    /// What a filter selected of a block, with the merkle proof of the
    /// selected indices (`proof_indices`, `proof_lemmas`) over the block's
    /// transaction hashes.
    pub fn from_selection(selected: MatchedTransactions, proof_indices: Vec<u32>, proof_lemmas: Vec<Byte32>) -> (r: Self)
        ensures
            r == (FilteredTransactions { transactions: selected.transactions, proof_indices, proof_lemmas }),
    {
        FilteredTransactions { transactions: selected.transactions, proof_indices, proof_lemmas }
    }
}

/// What a selection becomes once its merkle proof is attached: `merkle` is
/// the proof's indices and lemmas.
pub open spec fn proved(selection: Option<MatchedTransactions>, merkle: Option<(Vec<u32>, Vec<Byte32>)>) -> Option<FilteredTransactions> {
    match selection {
        None => None,
        Some(t) => Some(FilteredTransactions {
            transactions: t.transactions,
            proof_indices: (merkle->0).0,
            proof_lemmas: (merkle->0).1,
        }),
    }
}

/// A new block for a peer: the block's header with what its filter selected
/// (`selection`, as `build_filtered_transactions` gives it) and the merkle
/// proof of the selected indices (`merkle`, present whenever something was
/// selected).
pub fn build_filtered_block(
    block: &Block,
    selection: Option<MatchedTransactions>,
    merkle: Option<(Vec<u32>, Vec<Byte32>)>,
) -> (r: FilteredBlock)
    requires
        selection is Some ==> merkle is Some,
    ensures
        r.header@ == block.header@,
        r.transactions == proved(selection, merkle),
{
    let transactions = match selection {
        Some(t) => match merkle {
            Some(p) => {
                let (proof_indices, proof_lemmas) = p;
                Some(FilteredTransactions::from_selection(t, proof_indices, proof_lemmas))
            },
            None => None,
        },
        None => None,
    };
    FilteredBlock { header: block.header.clone(), transactions }
}

/// `out[i]` is what the filter selects of the `i`-th block asked for:
/// `None` where the store does not hold it (`blocks[i]` is `None`), else as
/// `build_filtered_transactions` selects with the cells `prevs[i]`.
pub open spec fn selections_are(
    out: Seq<Option<MatchedTransactions>>,
    blocks: Seq<Option<Block>>,
    prevs: Seq<Vec<Vec<Option<CellOutput>>>>,
    f: BloomFilterView,
) -> bool {
    &&& out.len() == blocks.len()
    &&& forall|i: int| 0 <= i < out.len() ==> match #[trigger] blocks[i] {
        None => out[i] is None,
        Some(b) => selection_is(out[i], b, prevs[i]@, f),
    }
}

/// The blocks can be filtered: each one found has its spent cells lined up
/// with its inputs, at most `u32::MAX` transactions, and, if it has any
/// transaction, a filter that can be looked up.
pub open spec fn blocks_filterable(blocks: Seq<Option<Block>>, prevs: Seq<Vec<Vec<Option<CellOutput>>>>, f: BloomFilterView) -> bool {
    &&& prevs.len() == blocks.len()
    &&& forall|i: int| 0 <= i < blocks.len() ==> (#[trigger] blocks[i] matches Some(b) ==> {
        &&& prev_outputs_align(b, prevs[i]@)
        &&& b.transactions@.len() <= u32::MAX
        &&& (f.usable() || b.transactions@.len() == 0)
    })
}

/// What the filter selects of each block asked for in `GetFilteredBlocks`:
/// `blocks[i]` is the block of the `i`-th hash asked for, `None` where the
/// store does not hold it, and `prevs[i]` the cells its inputs spend.
pub fn select_requested_blocks(
    filter: &BloomFilterData,
    blocks: &Vec<Option<Block>>,
    prevs: &Vec<Vec<Vec<Option<CellOutput>>>>,
) -> (out: Vec<Option<MatchedTransactions>>)
    requires
        blocks_filterable(blocks@, prevs@, filter@),
    ensures
        selections_are(out@, blocks@, prevs@, filter@),
{
    let mut out: Vec<Option<MatchedTransactions>> = Vec::new();
    let mut i: usize = 0;
    while i < blocks.len()
        invariant
            blocks_filterable(blocks@, prevs@, filter@),
            i <= blocks@.len(),
            out@.len() == i,
            forall|k: int| 0 <= k < i ==> match #[trigger] blocks@[k] {
                None => out@[k] is None,
                Some(b) => selection_is(out@[k], b, prevs@[k]@, filter@),
            },
        decreases blocks@.len() - i,
    {
        let selected = match &blocks[i] {
            Some(b) => {
                assert(blocks@[i as int] matches Some(b));
                build_filtered_transactions(b, filter, &prevs[i])
            },
            None => None,
        };
        out.push(selected);
        i = i + 1;
    }
    out
}

/// The replies to `GetFilteredBlocks { block_hashes }`: `selections[i]` is
/// what the peer's filter selected of block `block_hashes[i]` (see
/// `select_requested_blocks`) and `proofs[i]` the merkle proof of the
/// selected indices, present whenever something was selected. The replies
/// are cut as `batch_filtered_blocks` cuts them, each hash with its
/// selection and proof.
pub fn filtered_blocks_replies(
    block_hashes: &Vec<Byte32>,
    selections: Vec<Option<MatchedTransactions>>,
    proofs: Vec<Option<(Vec<u32>, Vec<Byte32>)>>,
) -> (out: Vec<FilteredBlocks<FilteredTransactions>>)
    requires
        selections@.len() == block_hashes@.len(),
        proofs@.len() == selections@.len(),
        forall|i: int| 0 <= i < selections@.len() ==> (#[trigger] selections@[i] is Some ==> proofs@[i] is Some),
    ensures
        replies_are(out@, block_hashes@, Seq::new(selections@.len(), |i: int| proved(selections@[i], proofs@[i]))),
{
    let ghost s0 = selections@;
    let ghost p0 = proofs@;
    let n = selections.len();
    let mut selections = selections;
    let mut proofs = proofs;
    let mut results: Vec<Option<FilteredTransactions>> = Vec::new();
    let mut i: usize = 0;
    while i < n
        invariant
            n == s0.len(),
            p0.len() == n,
            selections@.len() == n,
            proofs@.len() == n,
            forall|k: int| 0 <= k < n ==> (#[trigger] s0[k] is Some ==> p0[k] is Some),
            i <= n,
            forall|k: int| i <= k < n ==> selections@[k] == s0[k] && proofs@[k] == p0[k],
            results@.len() == i,
            forall|k: int| 0 <= k < i ==> #[trigger] results@[k] == proved(s0[k], p0[k]),
        decreases n - i,
    {
        let mut selection: Option<MatchedTransactions> = None;
        selections.set_and_swap(i, &mut selection);
        let mut merkle: Option<(Vec<u32>, Vec<Byte32>)> = None;
        proofs.set_and_swap(i, &mut merkle);
        let entry = match selection {
            Some(t) => match merkle {
                Some(p) => {
                    let (proof_indices, proof_lemmas) = p;
                    Some(FilteredTransactions::from_selection(t, proof_indices, proof_lemmas))
                },
                None => None,
            },
            None => None,
        };
        results.push(entry);
        i = i + 1;
    }
    assert(results@ =~= Seq::new(s0.len(), |i: int| proved(s0[i], p0[i])));
    batch_filtered_blocks(block_hashes, results)
}

/// The reply to a peer that asked for filtered blocks without having set a
/// filter: nothing unmatched, nothing matched.
pub fn empty_filtered_blocks() -> (r: FilteredBlocks<FilteredTransactions>)
    ensures
        r.unmatched_block_hashes@.len() == 0,
        r.matched_block_hashes@.len() == 0,
        r.matched_blocks@.len() == 0,
{
    FilteredBlocks { unmatched_block_hashes: Vec::new(), matched_block_hashes: Vec::new(), matched_blocks: Vec::new() }
}

} // verus!
