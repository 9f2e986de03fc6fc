//! Golomb-coded-set filters of blocks: which script hashes go into a
//! block's filter, and the crate calls that write and query such filters.
use vstd::prelude::*;
use crate::types::{Byte32, CellOutput, Transaction, Block, byte32_to_vec};
use crate::hash::{script_hash_of, calc_script_hash};
use crate::filter::prev_outputs_align;

verus! {

/// The Golomb-Rice parameter of the filters (as in BIP 158).
pub const GCS_FILTER_P: u8 = 19;

/// The false-positive parameter of the filters: the integer part of
/// 1.497137 times 2 to the 19th.
pub const GCS_FILTER_M: u64 = 784930;

/// The contents of byte vectors.
pub open spec fn bytes_seqs(v: Seq<Vec<u8>>) -> Seq<Seq<u8>> {
    v.map_values(|x: Vec<u8>| x@)
}

/// The filter that `GCSFilterWriter` (crate `golomb-coded-set`, siphash keys
/// 0 and 0) writes for these elements with parameters `m` and `p`.
pub uninterp spec fn gcs_filter_of(elements: Seq<Seq<u8>>, m: u64, p: u8) -> Seq<u8>;

/// Calls `GCSFilterWriter::new`, `add_element` for each element in order and
/// `finish` (crate `golomb-coded-set`) into an in-memory buffer. Claimed: the
/// bytes written are the value `gcs_filter_of` names, and they start with
/// the eight-byte count of the distinct non-empty elements, so that count is
/// at most the number of elements. Required: `p` is at most 19 (the Golomb
/// coder shifts by `p`, and the reader adds up shifted quotients), and the
/// element count times `m` fits in 64 bits (the writer multiplies them).
#[verifier::external_body]
fn gcs_write(elements: &Vec<Vec<u8>>, m: u64, p: u8) -> (r: Vec<u8>)
    requires
        p <= 19,
        elements@.len() * m <= u64::MAX,
    ensures
        r@ == gcs_filter_of(bytes_seqs(elements@), m, p),
        r@.len() >= 8,
        gcs_count_of(r@) <= elements@.len(),
{
    let mut out = std::io::Cursor::new(Vec::new());
    let mut writer = golomb_coded_set::GCSFilterWriter::new(&mut out, golomb_coded_set::SipHasher24Builder::new(0, 0), m, p);
    for e in elements.iter() {
        writer.add_element(e.as_slice());
    }
    writer.finish().expect("writing to memory does not fail");
    drop(writer);
    out.into_inner()
}

/// Whether `GCSFilterReader::match_any` (crate `golomb-coded-set`, siphash
/// keys 0 and 0, parameters `m` and `p`) finds one of the queries in the
/// filter, an error counting as no.
pub uninterp spec fn gcs_match_any_of(filter: Seq<u8>, queries: Seq<Seq<u8>>, m: u64, p: u8) -> bool;

/// The element count that a filter starts with: its first eight bytes,
/// little-endian, or 0 when it is shorter.
pub open spec fn gcs_count_of(filter: Seq<u8>) -> int {
    if filter.len() < 8 {
        0
    } else {
        filter[0] + 0x100 * filter[1] + 0x10000 * filter[2] + 0x1000000 * filter[3]
            + 0x100000000 * filter[4] + 0x10000000000 * filter[5] + 0x1000000000000 * filter[6]
            + 0x100000000000000 * filter[7]
    }
}

/// Calls `GCSFilterReader::new` and `match_any` (crate `golomb-coded-set`),
/// reading the filter from memory, and takes an error as `false`. Claimed:
/// the answer is the value `gcs_match_any_of` names; as the crate documents,
/// no query gives `false`; and a filter that the writer made, with the same
/// `m` and `p`, of elements among which one query's bytes stand, gives
/// `true` (writer and reader hash with the same keys into the same range,
/// count times `m`, and the reader walks the writer's sorted values).
/// Required: the element count times `m` fits in 64 bits (the reader
/// multiplies them), `p` is at most 19 and the filter is shorter than 2^40
/// bytes, so that the decoded values and their sums fit in 64 bits.
#[verifier::external_body]
fn gcs_match_any(filter: &[u8], queries: &Vec<Byte32>, m: u64, p: u8) -> (r: bool)
    requires
        gcs_count_of(filter@) * m <= u64::MAX,
        filter@.len() < 0x100_0000_0000,
        p <= 19,
    ensures
        r == gcs_match_any_of(filter@, queries@.map_values(|q: Byte32| q@), m, p),
        queries@.len() == 0 ==> !r,
        forall|es: Seq<Seq<u8>>, i: int|
            #![trigger gcs_filter_of(es, m, p), queries@[i]]
            filter@ == gcs_filter_of(es, m, p) && es.len() * m <= u64::MAX && 0 <= i < queries@.len()
                && es.contains(queries@[i]@) ==> r,
{
    let reader = golomb_coded_set::GCSFilterReader::new(golomb_coded_set::SipHasher24Builder::new(0, 0), m, p);
    let mut input = std::io::Cursor::new(filter);
    reader.match_any(&mut input, &mut queries.iter().map(|q| &q[..])).unwrap_or_default()
}

/// The script hashes a cell puts into a filter: its lock hash, then its type
/// hash if it has a type script.
pub open spec fn output_elements(o: CellOutput) -> Seq<Seq<u8>> {
    match o.type_ {
        Some(t) => seq![script_hash_of(o.lock), script_hash_of(t)],
        None => seq![script_hash_of(o.lock)],
    }
}

/// The elements of the first `k` created cells.
pub open spec fn outputs_elements(outputs: Seq<CellOutput>, k: int) -> Seq<Seq<u8>>
    decreases k,
{
    if k <= 0 {
        seq![]
    } else {
        outputs_elements(outputs, k - 1) + output_elements(outputs[k - 1])
    }
}

/// The elements of the first `k` spent cells that the store knows.
pub open spec fn spent_elements(prev: Seq<Option<CellOutput>>, k: int) -> Seq<Seq<u8>>
    decreases k,
{
    if k <= 0 {
        seq![]
    } else {
        spent_elements(prev, k - 1) + match prev[k - 1] {
            Some(o) => output_elements(o),
            None => seq![],
        }
    }
}

/// What a transaction puts into its block's filter: the elements of the
/// cells it creates, then of the cells it spends that the store knows.
pub open spec fn tx_elements(tx: Transaction, prev: Seq<Option<CellOutput>>) -> Seq<Seq<u8>> {
    outputs_elements(tx.outputs@, tx.outputs@.len() as int) + spent_elements(prev, prev.len() as int)
}

/// What the first `k` transactions of a block put into its filter, in
/// order.
pub open spec fn block_elements(txs: Seq<Transaction>, prev: Seq<Vec<Option<CellOutput>>>, k: int) -> Seq<Seq<u8>>
    decreases k,
{
    if k <= 0 {
        seq![]
    } else {
        block_elements(txs, prev, k - 1) + tx_elements(txs[k - 1], prev[k - 1]@)
    }
}

/// The filter of a block.
pub open spec fn block_filter_of(block: Block, prev: Seq<Vec<Option<CellOutput>>>) -> Seq<u8> {
    gcs_filter_of(
        block_elements(block.transactions@, prev, block.transactions@.len() as int),
        GCS_FILTER_M,
        GCS_FILTER_P,
    )
}

fn push_output_elements(out: &mut Vec<Vec<u8>>, o: &CellOutput)
    ensures
        bytes_seqs(final(out)@) == bytes_seqs(old(out)@) + output_elements(*o),
{
    let lock_hash = calc_script_hash(&o.lock);
    out.push(byte32_to_vec(&lock_hash));
    match &o.type_ {
        Some(t) => {
            let type_hash = calc_script_hash(t);
            out.push(byte32_to_vec(&type_hash));
        },
        None => {},
    }
    assert(bytes_seqs(out@) =~= bytes_seqs(old(out)@) + output_elements(*o));
}

/// The script hashes that the block's transactions put into its filter, in
/// order. `prev[i][j]` is the cell spent by input `j` of transaction `i`, or
/// `None` where the store does not know it.
pub fn block_filter_elements(block: &Block, prev: &Vec<Vec<Option<CellOutput>>>) -> (r: Vec<Vec<u8>>)
    requires
        prev_outputs_align(*block, prev@),
    ensures
        bytes_seqs(r@) == block_elements(block.transactions@, prev@, block.transactions@.len() as int),
{
    let mut out: Vec<Vec<u8>> = Vec::new();
    let n = block.transactions.len();
    let mut i: usize = 0;
    while i < n
        invariant
            n == block.transactions@.len(),
            prev_outputs_align(*block, prev@),
            i <= n,
            bytes_seqs(out@) == block_elements(block.transactions@, prev@, i as int),
        decreases n - i,
    {
        let tx = &block.transactions[i];
        let ghost before = bytes_seqs(out@);
        let mut k: usize = 0;
        while k < tx.outputs.len()
            invariant
                k <= tx.outputs@.len(),
                bytes_seqs(out@) == before + outputs_elements(tx.outputs@, k as int),
            decreases tx.outputs@.len() - k,
        {
            push_output_elements(&mut out, &tx.outputs[k]);
            k = k + 1;
            assert(bytes_seqs(out@) =~= before + outputs_elements(tx.outputs@, k as int));
        }
        let ghost mid = bytes_seqs(out@);
        let spent = &prev[i];
        let mut j: usize = 0;
        while j < spent.len()
            invariant
                j <= spent@.len(),
                bytes_seqs(out@) == mid + spent_elements(spent@, j as int),
            decreases spent@.len() - j,
        {
            match &spent[j] {
                Some(o) => {
                    push_output_elements(&mut out, o);
                },
                None => {},
            }
            j = j + 1;
            assert(bytes_seqs(out@) =~= mid + spent_elements(spent@, j as int));
        }
        i = i + 1;
        assert(bytes_seqs(out@) =~= block_elements(block.transactions@, prev@, i as int));
    }
    out
}

/// The golomb-coded-set filter of a block, as `insert_block` stores it.
pub fn build_block_filter(block: &Block, prev: &Vec<Vec<Option<CellOutput>>>) -> (r: Vec<u8>)
    requires
        prev_outputs_align(*block, prev@),
        block_elements(block.transactions@, prev@, block.transactions@.len() as int).len() * GCS_FILTER_M <= u64::MAX,
    ensures
        r@ == block_filter_of(*block, prev@),
        r@.len() >= 8,
        gcs_count_of(r@) * GCS_FILTER_M <= u64::MAX,
{
    let elements = block_filter_elements(block, prev);
    assert(bytes_seqs(elements@).len() == elements@.len());
    let r = gcs_write(&elements, GCS_FILTER_M, GCS_FILTER_P);
    assert(gcs_count_of(r@) * GCS_FILTER_M <= elements@.len() * GCS_FILTER_M) by (nonlinear_arith)
        requires
            gcs_count_of(r@) <= elements@.len(),
    ;
    r
}

/// The filter can be read: its element count times `GCS_FILTER_M` fits in
/// 64 bits and it is shorter than 2^40 bytes.
pub open spec fn gcs_readable(filter: Seq<u8>) -> bool {
    &&& gcs_count_of(filter) * GCS_FILTER_M <= u64::MAX
    &&& filter.len() < 0x100_0000_0000
}

/// Whether `gcs_filter_match` can read the filter.
pub fn gcs_filter_readable(filter: &[u8]) -> (r: bool)
    ensures
        r == gcs_readable(filter@),
{
    if filter.len() as u64 >= 0x100_0000_0000u64 {
        return false;
    }
    if filter.len() < 8 {
        return true;
    }
    let count: u64 = filter[0] as u64 + filter[1] as u64 * 0x100 + filter[2] as u64 * 0x10000
        + filter[3] as u64 * 0x1000000 + filter[4] as u64 * 0x100000000 + filter[5] as u64 * 0x10000000000
        + filter[6] as u64 * 0x1000000000000 + filter[7] as u64 * 0x100000000000000;
    count <= 23501132678977
}

/// Whether the filter holds one of the script hashes (as far as a
/// golomb-coded set tells: it may answer yes for a hash it does not hold).
/// It never answers no for a hash that went into the filter: neither for
/// the filter written of any elements, nor for the filter of a block and one
/// of the script hashes the block put into it.
pub fn gcs_filter_match(filter: &[u8], script_hashes: &Vec<Byte32>) -> (r: bool)
    requires
        gcs_readable(filter@),
    ensures
        r == gcs_match_any_of(filter@, script_hashes@.map_values(|q: Byte32| q@), GCS_FILTER_M, GCS_FILTER_P),
        script_hashes@.len() == 0 ==> !r,
        forall|es: Seq<Seq<u8>>, i: int|
            #![trigger gcs_filter_of(es, GCS_FILTER_M, GCS_FILTER_P), script_hashes@[i]]
            filter@ == gcs_filter_of(es, GCS_FILTER_M, GCS_FILTER_P) && es.len() * GCS_FILTER_M <= u64::MAX
                && 0 <= i < script_hashes@.len() && es.contains(script_hashes@[i]@) ==> r,
        forall|block: Block, prev: Seq<Vec<Option<CellOutput>>>, i: int|
            #![trigger block_filter_of(block, prev), script_hashes@[i]]
            filter@ == block_filter_of(block, prev)
                && block_elements(block.transactions@, prev, block.transactions@.len() as int).len() * GCS_FILTER_M <= u64::MAX
                && 0 <= i < script_hashes@.len()
                && block_elements(block.transactions@, prev, block.transactions@.len() as int).contains(script_hashes@[i]@)
                ==> r,
{
    let r = gcs_match_any(filter, script_hashes, GCS_FILTER_M, GCS_FILTER_P);
    assert forall|block: Block, prev: Seq<Vec<Option<CellOutput>>>, i: int|
        #![trigger block_filter_of(block, prev), script_hashes@[i]]
        filter@ == block_filter_of(block, prev)
            && block_elements(block.transactions@, prev, block.transactions@.len() as int).len() * GCS_FILTER_M <= u64::MAX
            && 0 <= i < script_hashes@.len()
            && block_elements(block.transactions@, prev, block.transactions@.len() as int).contains(script_hashes@[i]@)
            implies r by {
        let es = block_elements(block.transactions@, prev, block.transactions@.len() as int);
        assert(filter@ == gcs_filter_of(es, GCS_FILTER_M, GCS_FILTER_P));
    }
    r
}

} // verus!

verus! {

/// `e` is a script hash that the cell puts into a filter: the hash of its
/// lock script, or of its type script.
pub open spec fn is_script_hash_of(cell: CellOutput, e: Seq<u8>) -> bool {
    ||| e == script_hash_of(cell.lock)
    ||| (cell.type_ matches Some(t) && e == script_hash_of(t))
}

proof fn lemma_concat_contains(a: Seq<Seq<u8>>, b: Seq<Seq<u8>>, e: Seq<u8>)
    ensures
        (a + b).contains(e) <==> (a.contains(e) || b.contains(e)),
{
    if a.contains(e) {
        let i = choose|i: int| 0 <= i < a.len() && a[i] == e;
        assert((a + b)[i] == e);
    }
    if b.contains(e) {
        let i = choose|i: int| 0 <= i < b.len() && b[i] == e;
        assert((a + b)[a.len() + i] == e);
    }
    if (a + b).contains(e) {
        let i = choose|i: int| 0 <= i < (a + b).len() && (a + b)[i] == e;
        if i < a.len() {
            assert(a[i] == e);
        } else {
            assert(b[i - a.len()] == e);
        }
    }
}

proof fn lemma_output_elements(cell: CellOutput)
    ensures
        output_elements(cell).contains(script_hash_of(cell.lock)),
        cell.type_ matches Some(t) ==> output_elements(cell).contains(script_hash_of(t)),
        forall|e: Seq<u8>| #[trigger] output_elements(cell).contains(e) ==> is_script_hash_of(cell, e),
{
    assert(output_elements(cell)[0] == script_hash_of(cell.lock));
    match cell.type_ {
        Some(t) => {
            assert(output_elements(cell)[1] == script_hash_of(t));
        },
        None => {},
    }
}

proof fn lemma_outputs_elements(outs: Seq<CellOutput>, m: int)
    requires
        0 <= m <= outs.len(),
    ensures
        forall|k: int| 0 <= k < m ==> outputs_elements(outs, m).contains(script_hash_of(#[trigger] outs[k].lock)),
        forall|k: int| 0 <= k < m ==> (#[trigger] outs[k].type_ matches Some(t) ==> outputs_elements(outs, m).contains(script_hash_of(t))),
        forall|e: Seq<u8>| #[trigger] outputs_elements(outs, m).contains(e) ==> exists|k: int| 0 <= k < m && is_script_hash_of(#[trigger] outs[k], e),
    decreases m,
{
    if m > 0 {
        lemma_outputs_elements(outs, m - 1);
        let a = outputs_elements(outs, m - 1);
        let b = output_elements(outs[m - 1]);
        lemma_output_elements(outs[m - 1]);
        assert forall|k: int| 0 <= k < m implies outputs_elements(outs, m).contains(script_hash_of(#[trigger] outs[k].lock)) by {
            lemma_concat_contains(a, b, script_hash_of(outs[k].lock));
        }
        assert forall|k: int| 0 <= k < m implies (#[trigger] outs[k].type_ matches Some(t) ==> outputs_elements(outs, m).contains(script_hash_of(t))) by {
            match outs[k].type_ {
                Some(t) => {
                    lemma_concat_contains(a, b, script_hash_of(t));
                },
                None => {},
            }
        }
        assert forall|e: Seq<u8>| #[trigger] outputs_elements(outs, m).contains(e) implies exists|k: int| 0 <= k < m && is_script_hash_of(#[trigger] outs[k], e) by {
            lemma_concat_contains(a, b, e);
            if b.contains(e) {
                assert(is_script_hash_of(outs[m - 1], e));
            } else {
                let k = choose|k: int| 0 <= k < m - 1 && is_script_hash_of(#[trigger] outs[k], e);
                assert(is_script_hash_of(outs[k], e));
            }
        }
    }
}

proof fn lemma_spent_elements(prev: Seq<Option<CellOutput>>, m: int)
    requires
        0 <= m <= prev.len(),
    ensures
        forall|j: int| 0 <= j < m ==> (#[trigger] prev[j] matches Some(o) ==> spent_elements(prev, m).contains(script_hash_of(o.lock))),
        forall|j: int| 0 <= j < m ==> (#[trigger] prev[j] matches Some(o) ==> (o.type_ matches Some(t) ==> spent_elements(prev, m).contains(script_hash_of(t)))),
        forall|e: Seq<u8>| #[trigger] spent_elements(prev, m).contains(e) ==> exists|j: int| 0 <= j < m && (#[trigger] prev[j] matches Some(o) && is_script_hash_of(o, e)),
    decreases m,
{
    if m > 0 {
        lemma_spent_elements(prev, m - 1);
        let a = spent_elements(prev, m - 1);
        let b = match prev[m - 1] {
            Some(o) => output_elements(o),
            None => seq![],
        };
        assert(spent_elements(prev, m) == a + b);
        match prev[m - 1] {
            Some(o) => lemma_output_elements(o),
            None => {},
        }
        assert forall|j: int| 0 <= j < m implies (#[trigger] prev[j] matches Some(o) ==> spent_elements(prev, m).contains(script_hash_of(o.lock))) by {
            match prev[j] {
                Some(o) => {
                    lemma_concat_contains(a, b, script_hash_of(o.lock));
                },
                None => {},
            }
        }
        assert forall|j: int| 0 <= j < m implies (#[trigger] prev[j] matches Some(o) ==> (o.type_ matches Some(t) ==> spent_elements(prev, m).contains(script_hash_of(t)))) by {
            match prev[j] {
                Some(o) => {
                    match o.type_ {
                        Some(t) => {
                            lemma_concat_contains(a, b, script_hash_of(t));
                        },
                        None => {},
                    }
                },
                None => {},
            }
        }
        assert forall|e: Seq<u8>| #[trigger] spent_elements(prev, m).contains(e) implies exists|j: int| 0 <= j < m && (#[trigger] prev[j] matches Some(o) && is_script_hash_of(o, e)) by {
            lemma_concat_contains(a, b, e);
            if b.contains(e) {
                assert(prev[m - 1] matches Some(o) && is_script_hash_of(o, e));
            } else {
                let j = choose|j: int| 0 <= j < m - 1 && (#[trigger] prev[j] matches Some(o) && is_script_hash_of(o, e));
                assert(prev[j] matches Some(o) && is_script_hash_of(o, e));
            }
        }
    }
}

/// What the first `m` transactions put into the filter: each script hash of
/// each cell they create or spend (as far as the store knows it), and
/// nothing else.
pub open spec fn elements_are_cells(txs: Seq<Transaction>, prev: Seq<Vec<Option<CellOutput>>>, m: int, els: Seq<Seq<u8>>) -> bool {
    &&& forall|i: int, k: int| 0 <= i < m && 0 <= k < txs[i].outputs@.len() ==> {
        &&& els.contains(script_hash_of(#[trigger] txs[i].outputs@[k].lock))
        &&& (txs[i].outputs@[k].type_ matches Some(t) ==> els.contains(script_hash_of(t)))
    }
    &&& forall|i: int, j: int| 0 <= i < m && 0 <= j < prev[i]@.len() ==> (#[trigger] prev[i]@[j] matches Some(o) ==> {
        &&& els.contains(script_hash_of(o.lock))
        &&& (o.type_ matches Some(t) ==> els.contains(script_hash_of(t)))
    })
    &&& forall|e: Seq<u8>| #[trigger] els.contains(e) ==> {
        ||| exists|i: int, k: int| 0 <= i < m && 0 <= k < txs[i].outputs@.len() && is_script_hash_of(#[trigger] txs[i].outputs@[k], e)
        ||| exists|i: int, j: int| 0 <= i < m && 0 <= j < prev[i]@.len() && (#[trigger] prev[i]@[j] matches Some(o) && is_script_hash_of(o, e))
    }
}

proof fn lemma_block_elements(txs: Seq<Transaction>, prev: Seq<Vec<Option<CellOutput>>>, m: int)
    requires
        0 <= m <= txs.len(),
        m <= prev.len(),
    ensures
        elements_are_cells(txs, prev, m, block_elements(txs, prev, m)),
    decreases m,
{
    if m > 0 {
        lemma_block_elements(txs, prev, m - 1);
        let a = block_elements(txs, prev, m - 1);
        let tx = txs[m - 1];
        let p = prev[m - 1]@;
        let o = outputs_elements(tx.outputs@, tx.outputs@.len() as int);
        let sp = spent_elements(p, p.len() as int);
        let els = block_elements(txs, prev, m);
        assert(els == a + (o + sp));
        lemma_outputs_elements(tx.outputs@, tx.outputs@.len() as int);
        lemma_spent_elements(p, p.len() as int);
        assert forall|i: int, k: int| 0 <= i < m && 0 <= k < txs[i].outputs@.len() implies {
            &&& els.contains(script_hash_of(#[trigger] txs[i].outputs@[k].lock))
            &&& (txs[i].outputs@[k].type_ matches Some(t) ==> els.contains(script_hash_of(t)))
        } by {
            let c = txs[i].outputs@[k];
            lemma_concat_contains(a, o + sp, script_hash_of(c.lock));
            lemma_concat_contains(o, sp, script_hash_of(c.lock));
            if i == m - 1 {
                assert(tx.outputs@[k] == c);
            }
            match c.type_ {
                Some(t) => {
                    lemma_concat_contains(a, o + sp, script_hash_of(t));
                    lemma_concat_contains(o, sp, script_hash_of(t));
                },
                None => {},
            }
        }
        assert forall|i: int, j: int| 0 <= i < m && 0 <= j < prev[i]@.len() implies (#[trigger] prev[i]@[j] matches Some(c) ==> {
            &&& els.contains(script_hash_of(c.lock))
            &&& (c.type_ matches Some(t) ==> els.contains(script_hash_of(t)))
        }) by {
            match prev[i]@[j] {
                Some(c) => {
                    lemma_concat_contains(a, o + sp, script_hash_of(c.lock));
                    lemma_concat_contains(o, sp, script_hash_of(c.lock));
                    if i == m - 1 {
                        assert(p[j] == prev[i]@[j]);
                    }
                    match c.type_ {
                        Some(t) => {
                            lemma_concat_contains(a, o + sp, script_hash_of(t));
                            lemma_concat_contains(o, sp, script_hash_of(t));
                        },
                        None => {},
                    }
                },
                None => {},
            }
        }
        assert forall|e: Seq<u8>| #[trigger] els.contains(e) implies {
            ||| exists|i: int, k: int| 0 <= i < m && 0 <= k < txs[i].outputs@.len() && is_script_hash_of(#[trigger] txs[i].outputs@[k], e)
            ||| exists|i: int, j: int| 0 <= i < m && 0 <= j < prev[i]@.len() && (#[trigger] prev[i]@[j] matches Some(c) && is_script_hash_of(c, e))
        } by {
            lemma_concat_contains(a, o + sp, e);
            lemma_concat_contains(o, sp, e);
            if a.contains(e) {
                if exists|i: int, k: int| 0 <= i < m - 1 && 0 <= k < txs[i].outputs@.len() && is_script_hash_of(#[trigger] txs[i].outputs@[k], e) {
                    let (i, k) = choose|i: int, k: int| 0 <= i < m - 1 && 0 <= k < txs[i].outputs@.len() && is_script_hash_of(#[trigger] txs[i].outputs@[k], e);
                    assert(is_script_hash_of(txs[i].outputs@[k], e));
                } else {
                    let (i, j) = choose|i: int, j: int| 0 <= i < m - 1 && 0 <= j < prev[i]@.len() && (#[trigger] prev[i]@[j] matches Some(c) && is_script_hash_of(c, e));
                    assert(prev[i]@[j] matches Some(c) && is_script_hash_of(c, e));
                }
            } else if o.contains(e) {
                let k = choose|k: int| 0 <= k < tx.outputs@.len() && is_script_hash_of(#[trigger] tx.outputs@[k], e);
                assert(is_script_hash_of(txs[m - 1].outputs@[k], e));
            } else {
                let j = choose|j: int| 0 <= j < p.len() && (#[trigger] p[j] matches Some(c) && is_script_hash_of(c, e));
                assert(prev[m - 1]@[j] matches Some(c) && is_script_hash_of(c, e));
            }
        }
    }
}

/// The filter of a block is written of exactly the script hashes of its
/// cells: every created cell, whichever transaction and output it is, puts
/// in its lock script hash and, when it has one, its type script hash; so
/// does every spent cell that the store knows; and nothing else goes in.
pub proof fn law_block_elements_are_cells(block: Block, prev: Seq<Vec<Option<CellOutput>>>)
    requires
        prev_outputs_align(block, prev),
    ensures
        ({
            let txs = block.transactions@;
            let els = block_elements(txs, prev, txs.len() as int);
            &&& forall|i: int, k: int| 0 <= i < txs.len() && 0 <= k < txs[i].outputs@.len() ==> {
                &&& els.contains(script_hash_of(#[trigger] txs[i].outputs@[k].lock))
                &&& (txs[i].outputs@[k].type_ matches Some(t) ==> els.contains(script_hash_of(t)))
            }
            &&& forall|i: int, j: int| 0 <= i < txs.len() && 0 <= j < prev[i]@.len() ==> (#[trigger] prev[i]@[j] matches Some(o) ==> {
                &&& els.contains(script_hash_of(o.lock))
                &&& (o.type_ matches Some(t) ==> els.contains(script_hash_of(t)))
            })
            &&& forall|e: Seq<u8>| #[trigger] els.contains(e) ==> {
                ||| exists|i: int, k: int| 0 <= i < txs.len() && 0 <= k < txs[i].outputs@.len()
                    && (e == script_hash_of(#[trigger] txs[i].outputs@[k].lock)
                        || (txs[i].outputs@[k].type_ matches Some(t) && e == script_hash_of(t)))
                ||| exists|i: int, j: int| 0 <= i < txs.len() && 0 <= j < prev[i]@.len()
                    && (#[trigger] prev[i]@[j] matches Some(o) && (e == script_hash_of(o.lock)
                        || (o.type_ matches Some(t) && e == script_hash_of(t))))
            }
        }),
{
    let txs = block.transactions@;
    let els = block_elements(txs, prev, txs.len() as int);
    lemma_block_elements(txs, prev, txs.len() as int);
    assert forall|e: Seq<u8>| #[trigger] els.contains(e) implies {
        ||| exists|i: int, k: int| 0 <= i < txs.len() && 0 <= k < txs[i].outputs@.len()
            && (e == script_hash_of(#[trigger] txs[i].outputs@[k].lock)
                || (txs[i].outputs@[k].type_ matches Some(t) && e == script_hash_of(t)))
        ||| exists|i: int, j: int| 0 <= i < txs.len() && 0 <= j < prev[i]@.len()
            && (#[trigger] prev[i]@[j] matches Some(o) && (e == script_hash_of(o.lock)
                || (o.type_ matches Some(t) && e == script_hash_of(t))))
    } by {
        if exists|i: int, k: int| 0 <= i < txs.len() && 0 <= k < txs[i].outputs@.len() && is_script_hash_of(#[trigger] txs[i].outputs@[k], e) {
            let (i, k) = choose|i: int, k: int| 0 <= i < txs.len() && 0 <= k < txs[i].outputs@.len() && is_script_hash_of(#[trigger] txs[i].outputs@[k], e);
            assert(is_script_hash_of(txs[i].outputs@[k], e));
        } else {
            let (i, j) = choose|i: int, j: int| 0 <= i < txs.len() && 0 <= j < prev[i]@.len() && (#[trigger] prev[i]@[j] matches Some(c) && is_script_hash_of(c, e));
            assert(prev[i]@[j] matches Some(c) && is_script_hash_of(c, e));
        }
    }
}

} // verus!
