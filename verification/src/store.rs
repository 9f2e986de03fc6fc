//! The writes a store transaction makes: which column, key and value each
//! block, epoch and cell-set operation puts or deletes. The transaction
//! records them in order; the database applies them when it commits.
use vstd::prelude::*;
use crate::types::{Byte32, CellOutput, Block};
use crate::gcs::{block_filter_of, block_elements, build_block_filter, GCS_FILTER_M};
use crate::filter::prev_outputs_align;

verus! {

/// The columns of the store.
#[derive(Clone, Copy, PartialEq, Eq, Structural)]
pub enum Column {
    Index,
    BlockHeader,
    BlockBody,
    BlockUncle,
    Meta,
    TransactionInfo,
    BlockExt,
    BlockProposalIds,
    BlockEpoch,
    Epoch,
    CellSet,
    Uncles,
    GcsFilter,
}

/// The keys of the meta column.
#[derive(Clone, Copy, PartialEq, Eq, Structural)]
pub enum MetaKey {
    TipHeader,
    CurrentEpoch,
}

/// A key of the store.
#[derive(Clone, Copy)]
pub enum StoreKey {
    /// A block, transaction, epoch or uncle hash.
    Hash(Byte32),
    /// A block or epoch number.
    Number(u64),
    /// The `index`-th transaction of block `block_hash`.
    Transaction { block_hash: Byte32, index: u32 },
    /// A key of the meta column.
    Meta(MetaKey),
}

/// A value of the store.
pub enum StoreValue {
    /// Serialized data (a header, uncles, proposals, a transaction, a block
    /// or epoch extension, transaction meta, a filter).
    Bytes(Vec<u8>),
    /// A block or epoch hash.
    Hash(Byte32),
    /// A block number.
    Number(u64),
    /// Where a transaction stands: its block, its index there, the block's
    /// number and epoch.
    TransactionInfo { block_hash: Byte32, index: u32, block_number: u64, block_epoch: u64 },
}

/// The mathematical value of a store value.
pub enum StoreValueView {
    Bytes(Seq<u8>),
    Hash(Byte32),
    Number(u64),
    TransactionInfo { block_hash: Byte32, index: u32, block_number: u64, block_epoch: u64 },
}

impl View for StoreValue {
    type V = StoreValueView;

    open spec fn view(&self) -> StoreValueView {
        match *self {
            StoreValue::Bytes(b) => StoreValueView::Bytes(b@),
            StoreValue::Hash(h) => StoreValueView::Hash(h),
            StoreValue::Number(n) => StoreValueView::Number(n),
            StoreValue::TransactionInfo { block_hash, index, block_number, block_epoch } =>
                StoreValueView::TransactionInfo { block_hash, index, block_number, block_epoch },
        }
    }
}

/// A write of a store transaction.
pub enum StoreOp {
    Put { col: Column, key: StoreKey, value: StoreValue },
    Delete { col: Column, key: StoreKey },
}

/// The mathematical value of a write.
pub enum StoreOpView {
    Put { col: Column, key: StoreKey, value: StoreValueView },
    Delete { col: Column, key: StoreKey },
}

impl View for StoreOp {
    type V = StoreOpView;

    open spec fn view(&self) -> StoreOpView {
        match *self {
            StoreOp::Put { col, key, value } => StoreOpView::Put { col, key, value: value@ },
            StoreOp::Delete { col, key } => StoreOpView::Delete { col, key },
        }
    }
}

/// An epoch: its number and its serialized form.
pub struct EpochExt {
    pub number: u64,
    pub data: Vec<u8>,
}

pub open spec fn put(col: Column, key: StoreKey, value: StoreValueView) -> StoreOpView {
    StoreOpView::Put { col, key, value }
}

pub open spec fn del(col: Column, key: StoreKey) -> StoreOpView {
    StoreOpView::Delete { col, key }
}

/// The bodies of the first `k` transactions of a block, keyed by block hash
/// and index.
pub open spec fn body_ops(block: Block, k: int) -> Seq<StoreOpView>
    decreases k,
{
    if k <= 0 {
        seq![]
    } else {
        body_ops(block, k - 1).push(put(
            Column::BlockBody,
            StoreKey::Transaction { block_hash: block.hash, index: (k - 1) as u32 },
            StoreValueView::Bytes(block.transactions@[k - 1].data@),
        ))
    }
}

/// What `insert_block` writes: header, uncles and proposals under the block
/// hash, each transaction under the block hash and its index, then the
/// block's golomb-coded-set filter under the block hash.
pub open spec fn insert_block_ops(block: Block, filter: Seq<u8>) -> Seq<StoreOpView> {
    seq![
        put(Column::BlockHeader, StoreKey::Hash(block.hash), StoreValueView::Bytes(block.header@)),
        put(Column::BlockUncle, StoreKey::Hash(block.hash), StoreValueView::Bytes(block.uncles_data@)),
        put(Column::BlockProposalIds, StoreKey::Hash(block.hash), StoreValueView::Bytes(block.proposals@)),
    ] + body_ops(block, block.transactions@.len() as int)
        + seq![put(Column::GcsFilter, StoreKey::Hash(block.hash), StoreValueView::Bytes(filter))]
}

/// Where the first `k` transactions of a block stand, keyed by their hashes.
pub open spec fn tx_info_ops(block: Block, k: int) -> Seq<StoreOpView>
    decreases k,
{
    if k <= 0 {
        seq![]
    } else {
        tx_info_ops(block, k - 1).push(put(
            Column::TransactionInfo,
            StoreKey::Hash(block.transactions@[k - 1].hash),
            StoreValueView::TransactionInfo {
                block_hash: block.hash,
                index: (k - 1) as u32,
                block_number: block.number,
                block_epoch: block.epoch,
            },
        ))
    }
}

/// The first `k` uncles of a block, keyed by their hashes.
pub open spec fn uncle_ops(block: Block, k: int) -> Seq<StoreOpView>
    decreases k,
{
    if k <= 0 {
        seq![]
    } else {
        uncle_ops(block, k - 1).push(put(
            Column::Uncles,
            StoreKey::Hash(block.uncles@[k - 1].hash),
            StoreValueView::Bytes(block.uncles@[k - 1].header@),
        ))
    }
}

/// What `attach_block` writes: where each transaction stands, the block
/// hash under its number, each uncle, and the number under the block hash.
pub open spec fn attach_block_ops(block: Block) -> Seq<StoreOpView> {
    tx_info_ops(block, block.transactions@.len() as int)
        + seq![put(Column::Index, StoreKey::Number(block.number), StoreValueView::Hash(block.hash))]
        + uncle_ops(block, block.uncles@.len() as int)
        + seq![put(Column::Index, StoreKey::Hash(block.hash), StoreValueView::Number(block.number))]
}

/// Deletes where the first `k` transactions of a block stand.
pub open spec fn tx_info_deletes(block: Block, k: int) -> Seq<StoreOpView>
    decreases k,
{
    if k <= 0 {
        seq![]
    } else {
        tx_info_deletes(block, k - 1).push(del(Column::TransactionInfo, StoreKey::Hash(block.transactions@[k - 1].hash)))
    }
}

/// Deletes the first `k` uncles of a block.
pub open spec fn uncle_deletes(block: Block, k: int) -> Seq<StoreOpView>
    decreases k,
{
    if k <= 0 {
        seq![]
    } else {
        uncle_deletes(block, k - 1).push(del(Column::Uncles, StoreKey::Hash(block.uncles@[k - 1].hash)))
    }
}

/// What `detach_block` writes: it deletes what `attach_block` wrote.
pub open spec fn detach_block_ops(block: Block) -> Seq<StoreOpView> {
    tx_info_deletes(block, block.transactions@.len() as int)
        + uncle_deletes(block, block.uncles@.len() as int)
        + seq![del(Column::Index, StoreKey::Number(block.number)), del(Column::Index, StoreKey::Hash(block.hash))]
}

/// What `insert_epoch_ext` writes: the epoch under its hash, and the hash
/// under the epoch number.
pub open spec fn insert_epoch_ext_ops(hash: Byte32, epoch: EpochExt) -> Seq<StoreOpView> {
    seq![
        put(Column::Epoch, StoreKey::Hash(hash), StoreValueView::Bytes(epoch.data@)),
        put(Column::Epoch, StoreKey::Number(epoch.number), StoreValueView::Hash(hash)),
    ]
}

/// A store transaction that records its writes, in order, for the database
/// to apply when it commits.
pub struct StoreTransaction {
    ops: Vec<StoreOp>,
}

impl View for StoreTransaction {
    type V = Seq<StoreOpView>;

    closed spec fn view(&self) -> Seq<StoreOpView> {
        self.ops@.map_values(|o: StoreOp| o@)
    }
}

impl StoreTransaction {
    /// A transaction that has written nothing.
    pub fn new() -> (r: Self)
        ensures
            r@ == Seq::<StoreOpView>::empty(),
    {
        let r = StoreTransaction { ops: Vec::new() };
        assert(r@ =~= Seq::<StoreOpView>::empty());
        r
    }

    /// The writes recorded so far, in order.
    pub fn ops(&self) -> (r: &Vec<StoreOp>)
        ensures
            r@.map_values(|o: StoreOp| o@) == self@,
    {
        &self.ops
    }

    /// Gives up the transaction and hands out its writes, in order.
    pub fn into_ops(self) -> (r: Vec<StoreOp>)
        ensures
            r@.map_values(|o: StoreOp| o@) == self@,
    {
        self.ops
    }

    fn record(&mut self, op: StoreOp)
        ensures
            final(self)@ == old(self)@.push(op@),
    {
        self.ops.push(op);
        assert(self@ =~= old(self)@.push(op@));
    }

    /// Puts `value` under `key` in `col`.
    pub fn insert_raw(&mut self, col: Column, key: StoreKey, value: StoreValue)
        ensures
            final(self)@ == old(self)@.push(put(col, key, value@)),
    {
        self.record(StoreOp::Put { col, key, value });
    }

    /// Deletes `key` from `col`.
    pub fn delete(&mut self, col: Column, key: StoreKey)
        ensures
            final(self)@ == old(self)@.push(del(col, key)),
    {
        self.record(StoreOp::Delete { col, key });
    }

    /// Records the hash of the tip header.
    pub fn insert_tip_header(&mut self, tip_hash: &Byte32)
        ensures
            final(self)@ == old(self)@.push(put(Column::Meta, StoreKey::Meta(MetaKey::TipHeader), StoreValueView::Hash(*tip_hash))),
    {
        self.insert_raw(Column::Meta, StoreKey::Meta(MetaKey::TipHeader), StoreValue::Hash(*tip_hash));
    }

    /// Stores a block: its header, uncles, proposals, transactions and
    /// golomb-coded-set filter. `prev[i][j]` is the cell spent by input `j`
    /// of transaction `i`, `None` where the store does not know it.
    pub fn insert_block(&mut self, block: &Block, prev: &Vec<Vec<Option<CellOutput>>>)
        requires
            prev_outputs_align(*block, prev@),
            block.transactions@.len() <= u32::MAX,
            block_elements(block.transactions@, prev@, block.transactions@.len() as int).len() * GCS_FILTER_M <= u64::MAX,
        ensures
            final(self)@ == old(self)@ + insert_block_ops(*block, block_filter_of(*block, prev@)),
    {
        let hash = block.hash;
        self.insert_raw(Column::BlockHeader, StoreKey::Hash(hash), StoreValue::Bytes(block.header.clone()));
        self.insert_raw(Column::BlockUncle, StoreKey::Hash(hash), StoreValue::Bytes(block.uncles_data.clone()));
        self.insert_raw(Column::BlockProposalIds, StoreKey::Hash(hash), StoreValue::Bytes(block.proposals.clone()));
        let ghost start = self@;
        let n = block.transactions.len();
        let mut i: usize = 0;
        while i < n
            invariant
                n == block.transactions@.len(),
                n <= u32::MAX,
                hash == block.hash,
                i <= n,
                self@ == start + body_ops(*block, i as int),
            decreases n - i,
        {
            let tx = &block.transactions[i];
            self.insert_raw(
                Column::BlockBody,
                StoreKey::Transaction { block_hash: hash, index: i as u32 },
                StoreValue::Bytes(tx.data.clone()),
            );
            i = i + 1;
            assert(self@ =~= start + body_ops(*block, i as int));
        }
        let filter = build_block_filter(block, prev);
        self.insert_raw(Column::GcsFilter, StoreKey::Hash(hash), StoreValue::Bytes(filter));
        assert(self@ =~= old(self)@ + insert_block_ops(*block, block_filter_of(*block, prev@)));
    }

    /// Records a block's extension under its hash.
    pub fn insert_block_ext(&mut self, block_hash: &Byte32, ext: &Vec<u8>)
        ensures
            final(self)@ == old(self)@.push(put(Column::BlockExt, StoreKey::Hash(*block_hash), StoreValueView::Bytes(ext@))),
    {
        self.insert_raw(Column::BlockExt, StoreKey::Hash(*block_hash), StoreValue::Bytes(ext.clone()));
    }

    /// Makes a block part of the main chain: where its transactions stand,
    /// its number and hash both ways, and its uncles.
    pub fn attach_block(&mut self, block: &Block)
        requires
            block.transactions@.len() <= u32::MAX,
        ensures
            final(self)@ == old(self)@ + attach_block_ops(*block),
    {
        let hash = block.hash;
        let ghost start = self@;
        let n = block.transactions.len();
        let mut i: usize = 0;
        while i < n
            invariant
                n == block.transactions@.len(),
                n <= u32::MAX,
                hash == block.hash,
                i <= n,
                self@ == start + tx_info_ops(*block, i as int),
            decreases n - i,
        {
            let tx_hash = block.transactions[i].hash;
            self.insert_raw(
                Column::TransactionInfo,
                StoreKey::Hash(tx_hash),
                StoreValue::TransactionInfo { block_hash: hash, index: i as u32, block_number: block.number, block_epoch: block.epoch },
            );
            i = i + 1;
            assert(self@ =~= start + tx_info_ops(*block, i as int));
        }
        self.insert_raw(Column::Index, StoreKey::Number(block.number), StoreValue::Hash(hash));
        let ghost mid = self@;
        let m = block.uncles.len();
        let mut j: usize = 0;
        while j < m
            invariant
                m == block.uncles@.len(),
                j <= m,
                self@ == mid + uncle_ops(*block, j as int),
            decreases m - j,
        {
            let uncle = &block.uncles[j];
            self.insert_raw(Column::Uncles, StoreKey::Hash(uncle.hash), StoreValue::Bytes(uncle.header.clone()));
            j = j + 1;
            assert(self@ =~= mid + uncle_ops(*block, j as int));
        }
        self.insert_raw(Column::Index, StoreKey::Hash(hash), StoreValue::Number(block.number));
        assert(self@ =~= old(self)@ + attach_block_ops(*block));
    }

    /// Takes a block out of the main chain: deletes what `attach_block`
    /// wrote.
    pub fn detach_block(&mut self, block: &Block)
        ensures
            final(self)@ == old(self)@ + detach_block_ops(*block),
    {
        let ghost start = self@;
        let n = block.transactions.len();
        let mut i: usize = 0;
        while i < n
            invariant
                n == block.transactions@.len(),
                i <= n,
                self@ == start + tx_info_deletes(*block, i as int),
            decreases n - i,
        {
            self.delete(Column::TransactionInfo, StoreKey::Hash(block.transactions[i].hash));
            i = i + 1;
            assert(self@ =~= start + tx_info_deletes(*block, i as int));
        }
        let ghost mid = self@;
        let m = block.uncles.len();
        let mut j: usize = 0;
        while j < m
            invariant
                m == block.uncles@.len(),
                j <= m,
                self@ == mid + uncle_deletes(*block, j as int),
            decreases m - j,
        {
            self.delete(Column::Uncles, StoreKey::Hash(block.uncles[j].hash));
            j = j + 1;
            assert(self@ =~= mid + uncle_deletes(*block, j as int));
        }
        self.delete(Column::Index, StoreKey::Number(block.number));
        self.delete(Column::Index, StoreKey::Hash(block.hash));
        assert(self@ =~= old(self)@ + detach_block_ops(*block));
    }

    /// Records the epoch of a block.
    pub fn insert_block_epoch_index(&mut self, block_hash: &Byte32, epoch_hash: &Byte32)
        ensures
            final(self)@ == old(self)@.push(put(Column::BlockEpoch, StoreKey::Hash(*block_hash), StoreValueView::Hash(*epoch_hash))),
    {
        self.insert_raw(Column::BlockEpoch, StoreKey::Hash(*block_hash), StoreValue::Hash(*epoch_hash));
    }

    /// Records an epoch under its hash, and its hash under its number.
    pub fn insert_epoch_ext(&mut self, hash: &Byte32, epoch: &EpochExt)
        ensures
            final(self)@ == old(self)@ + insert_epoch_ext_ops(*hash, *epoch),
    {
        self.insert_raw(Column::Epoch, StoreKey::Hash(*hash), StoreValue::Bytes(epoch.data.clone()));
        self.insert_raw(Column::Epoch, StoreKey::Number(epoch.number), StoreValue::Hash(*hash));
        assert(self@ =~= old(self)@ + insert_epoch_ext_ops(*hash, *epoch));
    }

    /// Records the current epoch.
    pub fn insert_current_epoch_ext(&mut self, epoch: &EpochExt)
        ensures
            final(self)@ == old(self)@.push(put(Column::Meta, StoreKey::Meta(MetaKey::CurrentEpoch), StoreValueView::Bytes(epoch.data@))),
    {
        self.insert_raw(Column::Meta, StoreKey::Meta(MetaKey::CurrentEpoch), StoreValue::Bytes(epoch.data.clone()));
    }

    /// Records the live cells of a transaction.
    pub fn update_cell_set(&mut self, tx_hash: &Byte32, meta: &Vec<u8>)
        ensures
            final(self)@ == old(self)@.push(put(Column::CellSet, StoreKey::Hash(*tx_hash), StoreValueView::Bytes(meta@))),
    {
        self.insert_raw(Column::CellSet, StoreKey::Hash(*tx_hash), StoreValue::Bytes(meta.clone()));
    }

    /// Forgets the live cells of a transaction.
    pub fn delete_cell_set(&mut self, tx_hash: &Byte32)
        ensures
            final(self)@ == old(self)@.push(del(Column::CellSet, StoreKey::Hash(*tx_hash))),
    {
        self.delete(Column::CellSet, StoreKey::Hash(*tx_hash));
    }
}

} // verus!

verus! {

/// The column and key that a write touches.
pub open spec fn op_target(op: StoreOpView) -> (Column, StoreKey) {
    match op {
        StoreOpView::Put { col, key, .. } => (col, key),
        StoreOpView::Delete { col, key } => (col, key),
    }
}

/// What a read of `key` in `col` gives after the writes `ops`: `None` when
/// no write touched it (the read sees what the database held before),
/// `Some(Some(v))` when the last write that touched it put `v`, `Some(None)`
/// when that write deleted it.
pub open spec fn read_after(ops: Seq<StoreOpView>, col: Column, key: StoreKey) -> Option<Option<StoreValueView>>
    decreases ops.len(),
{
    if ops.len() == 0 {
        None
    } else if op_target(ops.last()) == (col, key) {
        match ops.last() {
            StoreOpView::Put { value, .. } => Some(Some(value)),
            StoreOpView::Delete { .. } => Some(None),
        }
    } else {
        read_after(ops.drop_last(), col, key)
    }
}

/// A read after `a` then `b` sees the last write of `b` to the key, or else
/// what a read after `a` sees.
pub proof fn lemma_read_after_append(a: Seq<StoreOpView>, b: Seq<StoreOpView>, col: Column, key: StoreKey)
    ensures
        read_after(a + b, col, key) == if read_after(b, col, key) is Some {
            read_after(b, col, key)
        } else {
            read_after(a, col, key)
        },
    decreases b.len(),
{
    if b.len() == 0 {
        assert(a + b =~= a);
    } else {
        assert((a + b).drop_last() =~= a + b.drop_last());
        assert((a + b).last() == b.last());
        lemma_read_after_append(a, b.drop_last(), col, key);
    }
}

/// A read after writes that are all deletes, one of which touches the key,
/// finds the key deleted.
proof fn lemma_read_after_deletes(ops: Seq<StoreOpView>, col: Column, key: StoreKey, i: int)
    requires
        0 <= i < ops.len(),
        op_target(ops[i]) == (col, key),
        forall|k: int| 0 <= k < ops.len() ==> (#[trigger] ops[k]) is Delete,
    ensures
        read_after(ops, col, key) == Some(None::<StoreValueView>),
    decreases ops.len(),
{
    if op_target(ops.last()) != (col, key) {
        assert(i < ops.len() - 1);
        let d = ops.drop_last();
        assert(d[i] == ops[i]);
        assert forall|k: int| 0 <= k < d.len() implies (#[trigger] d[k]) is Delete by {
            assert(d[k] == ops[k]);
        }
        lemma_read_after_deletes(d, col, key, i);
    } else {
        assert(ops[ops.len() - 1] is Delete);
    }
}

/// Reading the tip header after `insert_tip_header` gives the hash written.
pub proof fn law_tip_header_read_back(log: Seq<StoreOpView>, tip_hash: Byte32)
    ensures
        read_after(
            log.push(put(Column::Meta, StoreKey::Meta(MetaKey::TipHeader), StoreValueView::Hash(tip_hash))),
            Column::Meta,
            StoreKey::Meta(MetaKey::TipHeader),
        ) == Some(Some(StoreValueView::Hash(tip_hash))),
{
}

proof fn lemma_body_ops(block: Block, k: int, i: int)
    requires
        0 <= i < k <= block.transactions@.len(),
        block.transactions@.len() <= u32::MAX,
    ensures
        read_after(body_ops(block, k), Column::BlockBody, StoreKey::Transaction { block_hash: block.hash, index: i as u32 })
            == Some(Some(StoreValueView::Bytes(block.transactions@[i].data@))),
    decreases k,
{
    if i < k - 1 {
        lemma_body_ops(block, k - 1, i);
        assert(body_ops(block, k).drop_last() == body_ops(block, k - 1));
        assert((k - 1) as u32 != i as u32);
    }
}

/// After `insert_block`, reading the block's header, uncles, proposals and
/// filter gives what was written.
pub proof fn law_insert_block_read_back(log: Seq<StoreOpView>, block: Block, filter: Seq<u8>)
    ensures
        read_after(log + insert_block_ops(block, filter), Column::GcsFilter, StoreKey::Hash(block.hash))
            == Some(Some(StoreValueView::Bytes(filter))),
        read_after(log + insert_block_ops(block, filter), Column::BlockHeader, StoreKey::Hash(block.hash))
            == Some(Some(StoreValueView::Bytes(block.header@))),
        read_after(log + insert_block_ops(block, filter), Column::BlockUncle, StoreKey::Hash(block.hash))
            == Some(Some(StoreValueView::Bytes(block.uncles_data@))),
        read_after(log + insert_block_ops(block, filter), Column::BlockProposalIds, StoreKey::Hash(block.hash))
            == Some(Some(StoreValueView::Bytes(block.proposals@))),
{
    reveal_with_fuel(read_after, 4);
    let n = block.transactions@.len() as int;
    let head = seq![
        put(Column::BlockHeader, StoreKey::Hash(block.hash), StoreValueView::Bytes(block.header@)),
        put(Column::BlockUncle, StoreKey::Hash(block.hash), StoreValueView::Bytes(block.uncles_data@)),
        put(Column::BlockProposalIds, StoreKey::Hash(block.hash), StoreValueView::Bytes(block.proposals@)),
    ];
    let tail = seq![put(Column::GcsFilter, StoreKey::Hash(block.hash), StoreValueView::Bytes(filter))];
    let body = body_ops(block, n);
    assert(insert_block_ops(block, filter) == head + body + tail);
    assert(log + insert_block_ops(block, filter) =~= log + (head + (body + tail)));
    lemma_read_after_append(log, head + (body + tail), Column::GcsFilter, StoreKey::Hash(block.hash));
    lemma_read_after_append(head, body + tail, Column::GcsFilter, StoreKey::Hash(block.hash));
    lemma_read_after_append(body, tail, Column::GcsFilter, StoreKey::Hash(block.hash));
    assert(head.drop_last().drop_last().last() == head[0]);
    assert(head.drop_last().last() == head[1]);
    assert(head.last() == head[2]);
    let cols = seq![Column::BlockHeader, Column::BlockUncle, Column::BlockProposalIds];
    assert forall|c: int| 0 <= c < 3 implies read_after(log + (head + (body + tail)), #[trigger] cols[c], StoreKey::Hash(block.hash))
        == read_after(head, cols[c], StoreKey::Hash(block.hash)) by {
        lemma_body_no_other(block, n, cols[c], StoreKey::Hash(block.hash));
        lemma_read_after_append(body, tail, cols[c], StoreKey::Hash(block.hash));
        lemma_read_after_append(head, body + tail, cols[c], StoreKey::Hash(block.hash));
        lemma_read_after_append(log, head + (body + tail), cols[c], StoreKey::Hash(block.hash));
    }
    assert(cols[0] == Column::BlockHeader && cols[1] == Column::BlockUncle && cols[2] == Column::BlockProposalIds);
}

/// After `insert_block`, reading the `i`-th transaction of the block gives
/// its serialized form.
pub proof fn law_insert_block_body_read_back(log: Seq<StoreOpView>, block: Block, filter: Seq<u8>, i: int)
    requires
        0 <= i < block.transactions@.len(),
        block.transactions@.len() <= u32::MAX,
    ensures
        read_after(log + insert_block_ops(block, filter), Column::BlockBody, StoreKey::Transaction { block_hash: block.hash, index: i as u32 })
            == Some(Some(StoreValueView::Bytes(block.transactions@[i].data@))),
{
    reveal_with_fuel(read_after, 2);
    let n = block.transactions@.len() as int;
    let head = seq![
        put(Column::BlockHeader, StoreKey::Hash(block.hash), StoreValueView::Bytes(block.header@)),
        put(Column::BlockUncle, StoreKey::Hash(block.hash), StoreValueView::Bytes(block.uncles_data@)),
        put(Column::BlockProposalIds, StoreKey::Hash(block.hash), StoreValueView::Bytes(block.proposals@)),
    ];
    let tail = seq![put(Column::GcsFilter, StoreKey::Hash(block.hash), StoreValueView::Bytes(filter))];
    let body = body_ops(block, n);
    assert(insert_block_ops(block, filter) == head + body + tail);
    assert(log + insert_block_ops(block, filter) =~= log + (head + (body + tail)));
    let key = StoreKey::Transaction { block_hash: block.hash, index: i as u32 };
    lemma_body_ops(block, n, i);
    lemma_read_after_append(body, tail, Column::BlockBody, key);
    lemma_read_after_append(head, body + tail, Column::BlockBody, key);
    lemma_read_after_append(log, head + (body + tail), Column::BlockBody, key);
}

proof fn lemma_body_no_other(block: Block, k: int, col: Column, key: StoreKey)
    requires
        col != Column::BlockBody,
    ensures
        read_after(body_ops(block, k), col, key) is None,
    decreases k,
{
    if k > 0 {
        lemma_body_no_other(block, k - 1, col, key);
        assert(body_ops(block, k).drop_last() == body_ops(block, k - 1));
    }
}

/// After `attach_block`, the block's number reads back its hash and its hash
/// reads back its number.
pub proof fn law_attach_block_index(log: Seq<StoreOpView>, block: Block)
    ensures
        read_after(log + attach_block_ops(block), Column::Index, StoreKey::Hash(block.hash))
            == Some(Some(StoreValueView::Number(block.number))),
        read_after(log + attach_block_ops(block), Column::Index, StoreKey::Number(block.number))
            == Some(Some(StoreValueView::Hash(block.hash))),
{
    reveal_with_fuel(read_after, 4);
    let a = tx_info_ops(block, block.transactions@.len() as int);
    let b = seq![put(Column::Index, StoreKey::Number(block.number), StoreValueView::Hash(block.hash))];
    let c = uncle_ops(block, block.uncles@.len() as int);
    let d = seq![put(Column::Index, StoreKey::Hash(block.hash), StoreValueView::Number(block.number))];
    assert(log + attach_block_ops(block) =~= (log + a + b + c) + d);
    lemma_read_after_append(log + a + b + c, d, Column::Index, StoreKey::Hash(block.hash));
    lemma_read_after_append(log + a + b + c, d, Column::Index, StoreKey::Number(block.number));
    lemma_read_after_append(log + a + b, c, Column::Index, StoreKey::Number(block.number));
    lemma_read_after_append(log + a, b, Column::Index, StoreKey::Number(block.number));
    lemma_uncle_ops_column(block, block.uncles@.len() as int, StoreKey::Number(block.number));
}

proof fn lemma_uncle_ops_column(block: Block, k: int, key: StoreKey)
    ensures
        read_after(uncle_ops(block, k), Column::Index, key) is None,
    decreases k,
{
    if k > 0 {
        lemma_uncle_ops_column(block, k - 1, key);
        assert(uncle_ops(block, k).drop_last() == uncle_ops(block, k - 1));
    }
}

/// The column and key of every write in `ops` that puts a value.
pub open spec fn puts_to(ops: Seq<StoreOpView>, col: Column, key: StoreKey) -> bool {
    exists|i: int| 0 <= i < ops.len() && (#[trigger] ops[i]) is Put && op_target(ops[i]) == (col, key)
}

/// `detach_block` undoes `attach_block`: after both, every key that
/// `attach_block` wrote reads as deleted.
pub proof fn law_detach_undoes_attach(log: Seq<StoreOpView>, block: Block, col: Column, key: StoreKey)
    requires
        puts_to(attach_block_ops(block), col, key),
    ensures
        read_after(log + attach_block_ops(block) + detach_block_ops(block), col, key) == Some(None::<StoreValueView>),
{
    let att = attach_block_ops(block);
    let det = detach_block_ops(block);
    let nt = block.transactions@.len() as int;
    let nu = block.uncles@.len() as int;
    let i = choose|i: int| 0 <= i < att.len() && (#[trigger] att[i]) is Put && op_target(att[i]) == (col, key);
    lemma_tx_info_shape(block, nt);
    lemma_uncle_shape(block, nu);
    let a = tx_info_ops(block, nt);
    let c = uncle_ops(block, nu);
    let da = tx_info_deletes(block, nt);
    let dc = uncle_deletes(block, nu);
    // the write that attach made has a matching delete in detach
    let j: int = if i < a.len() {
        assert(att[i] == a[i]);
        i
    } else if i == a.len() {
        (da.len() + dc.len()) as int
    } else if i < a.len() + 1 + c.len() {
        assert(att[i] == c[i - a.len() - 1]);
        da.len() + (i - a.len() - 1)
    } else {
        (da.len() + dc.len() + 1) as int
    };
    assert(det == da + dc + seq![del(Column::Index, StoreKey::Number(block.number)), del(Column::Index, StoreKey::Hash(block.hash))]);
    assert(0 <= j < det.len());
    assert(op_target(det[j]) == (col, key)) by {
        if i < a.len() {
            assert(det[j] == da[i]);
        } else if i == a.len() {
        } else if i < a.len() + 1 + c.len() {
            assert(det[j] == dc[i - a.len() - 1]);
        } else {
        }
    }
    assert forall|k: int| 0 <= k < det.len() implies (#[trigger] det[k]) is Delete by {
        if k < da.len() {
            assert(det[k] == da[k]);
        } else if k < da.len() + dc.len() {
            assert(det[k] == dc[k - da.len()]);
        }
    }
    lemma_read_after_deletes(det, col, key, j);
    lemma_read_after_append(log + att, det, col, key);
}

proof fn lemma_tx_info_shape(block: Block, k: int)
    requires
        0 <= k <= block.transactions@.len(),
    ensures
        tx_info_ops(block, k).len() == k,
        tx_info_deletes(block, k).len() == k,
        forall|i: int| 0 <= i < k ==> op_target(#[trigger] tx_info_ops(block, k)[i])
            == (Column::TransactionInfo, StoreKey::Hash(block.transactions@[i].hash)),
        forall|i: int| 0 <= i < k ==> (#[trigger] tx_info_deletes(block, k)[i])
            == del(Column::TransactionInfo, StoreKey::Hash(block.transactions@[i].hash)),
    decreases k,
{
    if k > 0 {
        lemma_tx_info_shape(block, k - 1);
        assert forall|i: int| 0 <= i < k implies op_target(#[trigger] tx_info_ops(block, k)[i])
            == (Column::TransactionInfo, StoreKey::Hash(block.transactions@[i].hash)) by {
            if i < k - 1 {
                assert(tx_info_ops(block, k)[i] == tx_info_ops(block, k - 1)[i]);
            }
        }
        assert forall|i: int| 0 <= i < k implies (#[trigger] tx_info_deletes(block, k)[i])
            == del(Column::TransactionInfo, StoreKey::Hash(block.transactions@[i].hash)) by {
            if i < k - 1 {
                assert(tx_info_deletes(block, k)[i] == tx_info_deletes(block, k - 1)[i]);
            }
        }
    }
}

proof fn lemma_uncle_shape(block: Block, k: int)
    requires
        0 <= k <= block.uncles@.len(),
    ensures
        uncle_ops(block, k).len() == k,
        uncle_deletes(block, k).len() == k,
        forall|i: int| 0 <= i < k ==> op_target(#[trigger] uncle_ops(block, k)[i])
            == (Column::Uncles, StoreKey::Hash(block.uncles@[i].hash)),
        forall|i: int| 0 <= i < k ==> (#[trigger] uncle_deletes(block, k)[i])
            == del(Column::Uncles, StoreKey::Hash(block.uncles@[i].hash)),
    decreases k,
{
    if k > 0 {
        lemma_uncle_shape(block, k - 1);
        assert forall|i: int| 0 <= i < k implies op_target(#[trigger] uncle_ops(block, k)[i])
            == (Column::Uncles, StoreKey::Hash(block.uncles@[i].hash)) by {
            if i < k - 1 {
                assert(uncle_ops(block, k)[i] == uncle_ops(block, k - 1)[i]);
            }
        }
        assert forall|i: int| 0 <= i < k implies (#[trigger] uncle_deletes(block, k)[i])
            == del(Column::Uncles, StoreKey::Hash(block.uncles@[i].hash)) by {
            if i < k - 1 {
                assert(uncle_deletes(block, k)[i] == uncle_deletes(block, k - 1)[i]);
            }
        }
    }
}

/// After `insert_epoch_ext`, the epoch number reads back the epoch hash and
/// the epoch hash reads back the epoch.
pub proof fn law_epoch_read_back(log: Seq<StoreOpView>, hash: Byte32, epoch: EpochExt)
    ensures
        read_after(log + insert_epoch_ext_ops(hash, epoch), Column::Epoch, StoreKey::Number(epoch.number))
            == Some(Some(StoreValueView::Hash(hash))),
        read_after(log + insert_epoch_ext_ops(hash, epoch), Column::Epoch, StoreKey::Hash(hash))
            == Some(Some(StoreValueView::Bytes(epoch.data@))),
{
    reveal_with_fuel(read_after, 4);
    let ops = log + insert_epoch_ext_ops(hash, epoch);
    assert(ops.last() == put(Column::Epoch, StoreKey::Number(epoch.number), StoreValueView::Hash(hash)));
    assert(ops.drop_last().last() == put(Column::Epoch, StoreKey::Hash(hash), StoreValueView::Bytes(epoch.data@)));
}

} // verus!

verus! {

/// Forgetting the live cells of a transaction after recording them leaves
/// them deleted.
pub proof fn law_cell_set_delete_after_update(log: Seq<StoreOpView>, tx_hash: Byte32, meta: Seq<u8>)
    ensures
        read_after(
            log.push(put(Column::CellSet, StoreKey::Hash(tx_hash), StoreValueView::Bytes(meta))).push(del(Column::CellSet, StoreKey::Hash(tx_hash))),
            Column::CellSet,
            StoreKey::Hash(tx_hash),
        ) == Some(None::<StoreValueView>),
{
}

} // verus!

verus! {

/// No write of `ops` touches the key.
pub open spec fn untouched(ops: Seq<StoreOpView>, col: Column, key: StoreKey) -> bool {
    forall|i: int| 0 <= i < ops.len() ==> op_target(#[trigger] ops[i]) != (col, key)
}

proof fn lemma_untouched_reads_none(ops: Seq<StoreOpView>, col: Column, key: StoreKey)
    requires
        untouched(ops, col, key),
    ensures
        read_after(ops, col, key) is None,
    decreases ops.len(),
{
    if ops.len() > 0 {
        let d = ops.drop_last();
        assert(op_target(ops[ops.len() - 1]) != (col, key));
        assert forall|i: int| 0 <= i < d.len() implies op_target(#[trigger] d[i]) != (col, key) by {
            assert(d[i] == ops[i]);
        }
        lemma_untouched_reads_none(d, col, key);
    }
}

/// Writes that do not touch a key leave what a read of it gives as it was.
pub proof fn law_untouched_keys_stay(log: Seq<StoreOpView>, ops: Seq<StoreOpView>, col: Column, key: StoreKey)
    requires
        untouched(ops, col, key),
    ensures
        read_after(log + ops, col, key) == read_after(log, col, key),
{
    lemma_untouched_reads_none(ops, col, key);
    lemma_read_after_append(log, ops, col, key);
}

/// `detach_block` leaves every other key as it was: all but the block's
/// transaction hashes in the transaction-info column, its uncle hashes in
/// the uncle column, and its number and hash in the index column.
pub proof fn law_detach_leaves_others(log: Seq<StoreOpView>, block: Block, col: Column, key: StoreKey)
    requires
        col == Column::TransactionInfo ==> forall|i: int| 0 <= i < block.transactions@.len()
            ==> key != StoreKey::Hash(#[trigger] block.transactions@[i].hash),
        col == Column::Uncles ==> forall|i: int| 0 <= i < block.uncles@.len()
            ==> key != StoreKey::Hash(#[trigger] block.uncles@[i].hash),
        col == Column::Index ==> key != StoreKey::Number(block.number) && key != StoreKey::Hash(block.hash),
    ensures
        read_after(log + detach_block_ops(block), col, key) == read_after(log, col, key),
{
    let nt = block.transactions@.len() as int;
    let nu = block.uncles@.len() as int;
    lemma_tx_info_shape(block, nt);
    lemma_uncle_shape(block, nu);
    let da = tx_info_deletes(block, nt);
    let dc = uncle_deletes(block, nu);
    let det = detach_block_ops(block);
    assert(det == da + dc + seq![del(Column::Index, StoreKey::Number(block.number)), del(Column::Index, StoreKey::Hash(block.hash))]);
    assert forall|k: int| 0 <= k < det.len() implies op_target(#[trigger] det[k]) != (col, key) by {
        if k < da.len() {
            assert(det[k] == da[k]);
        } else if k < da.len() + dc.len() {
            assert(det[k] == dc[k - da.len()]);
        }
    }
    law_untouched_keys_stay(log, det, col, key);
}

proof fn lemma_tx_info_read(block: Block, k: int, i: int)
    requires
        0 <= i < k <= block.transactions@.len(),
        forall|j: int| i < j < k ==> (#[trigger] block.transactions@[j]).hash != block.transactions@[i].hash,
    ensures
        read_after(tx_info_ops(block, k), Column::TransactionInfo, StoreKey::Hash(block.transactions@[i].hash))
            == Some(Some(StoreValueView::TransactionInfo {
                block_hash: block.hash,
                index: i as u32,
                block_number: block.number,
                block_epoch: block.epoch,
            })),
    decreases k,
{
    if i < k - 1 {
        lemma_tx_info_read(block, k - 1, i);
        assert(tx_info_ops(block, k).drop_last() == tx_info_ops(block, k - 1));
        assert(block.transactions@[k - 1].hash != block.transactions@[i].hash);
    }
}

proof fn lemma_uncle_read(block: Block, k: int, i: int)
    requires
        0 <= i < k <= block.uncles@.len(),
        forall|j: int| i < j < k ==> (#[trigger] block.uncles@[j]).hash != block.uncles@[i].hash,
    ensures
        read_after(uncle_ops(block, k), Column::Uncles, StoreKey::Hash(block.uncles@[i].hash))
            == Some(Some(StoreValueView::Bytes(block.uncles@[i].header@))),
    decreases k,
{
    if i < k - 1 {
        lemma_uncle_read(block, k - 1, i);
        assert(uncle_ops(block, k).drop_last() == uncle_ops(block, k - 1));
        assert(block.uncles@[k - 1].hash != block.uncles@[i].hash);
    }
}

proof fn lemma_uncle_ops_not_info(block: Block, k: int, key: StoreKey)
    ensures
        read_after(uncle_ops(block, k), Column::TransactionInfo, key) is None,
    decreases k,
{
    if k > 0 {
        lemma_uncle_ops_not_info(block, k - 1, key);
        assert(uncle_ops(block, k).drop_last() == uncle_ops(block, k - 1));
    }
}

/// After `attach_block`, the hash of the block's `i`-th transaction reads
/// back where it stands (block, index, number, epoch), unless a later
/// transaction of the block has the same hash.
pub proof fn law_attach_tx_info_read_back(log: Seq<StoreOpView>, block: Block, i: int)
    requires
        0 <= i < block.transactions@.len(),
        forall|j: int| i < j < block.transactions@.len() ==> (#[trigger] block.transactions@[j]).hash != block.transactions@[i].hash,
    ensures
        read_after(log + attach_block_ops(block), Column::TransactionInfo, StoreKey::Hash(block.transactions@[i].hash))
            == Some(Some(StoreValueView::TransactionInfo {
                block_hash: block.hash,
                index: i as u32,
                block_number: block.number,
                block_epoch: block.epoch,
            })),
{
    reveal_with_fuel(read_after, 2);
    let a = tx_info_ops(block, block.transactions@.len() as int);
    let b = seq![put(Column::Index, StoreKey::Number(block.number), StoreValueView::Hash(block.hash))];
    let c = uncle_ops(block, block.uncles@.len() as int);
    let d = seq![put(Column::Index, StoreKey::Hash(block.hash), StoreValueView::Number(block.number))];
    assert(log + attach_block_ops(block) =~= (log + a + b + c) + d);
    let tk = StoreKey::Hash(block.transactions@[i].hash);
    lemma_tx_info_read(block, block.transactions@.len() as int, i);
    lemma_uncle_ops_not_info(block, block.uncles@.len() as int, tk);
    lemma_read_after_append(log + a + b + c, d, Column::TransactionInfo, tk);
    lemma_read_after_append(log + a + b, c, Column::TransactionInfo, tk);
    lemma_read_after_append(log + a, b, Column::TransactionInfo, tk);
    lemma_read_after_append(log, a, Column::TransactionInfo, tk);
}

/// After `attach_block`, the hash of the block's `u`-th uncle reads back the
/// uncle's header, unless a later uncle has the same hash.
pub proof fn law_attach_uncle_read_back(log: Seq<StoreOpView>, block: Block, u: int)
    requires
        0 <= u < block.uncles@.len(),
        forall|j: int| u < j < block.uncles@.len() ==> (#[trigger] block.uncles@[j]).hash != block.uncles@[u].hash,
    ensures
        read_after(log + attach_block_ops(block), Column::Uncles, StoreKey::Hash(block.uncles@[u].hash))
            == Some(Some(StoreValueView::Bytes(block.uncles@[u].header@))),
{
    reveal_with_fuel(read_after, 2);
    let a = tx_info_ops(block, block.transactions@.len() as int);
    let b = seq![put(Column::Index, StoreKey::Number(block.number), StoreValueView::Hash(block.hash))];
    let c = uncle_ops(block, block.uncles@.len() as int);
    let d = seq![put(Column::Index, StoreKey::Hash(block.hash), StoreValueView::Number(block.number))];
    assert(log + attach_block_ops(block) =~= (log + a + b + c) + d);
    let uk = StoreKey::Hash(block.uncles@[u].hash);
    lemma_uncle_read(block, block.uncles@.len() as int, u);
    lemma_read_after_append(log + a + b + c, d, Column::Uncles, uk);
    lemma_read_after_append(log + a + b, c, Column::Uncles, uk);
}

} // verus!
