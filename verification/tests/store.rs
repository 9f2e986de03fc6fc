use ckb_filter::gcs::build_block_filter;
use ckb_filter::size::HumanReadableSize;
use ckb_filter::store::{Column, EpochExt, MetaKey, StoreKey, StoreOp, StoreTransaction, StoreValue};
use ckb_filter::types::{Block, CellOutput, OutPoint, Script, Transaction, UncleBlock};

fn block() -> Block {
    let tx = |b: u8| Transaction {
        hash: [b; 32],
        data: vec![b, b],
        inputs: vec![OutPoint { tx_hash: [0; 32], index: 0 }],
        outputs: vec![CellOutput { capacity: 1, lock: Script { bytes: vec![b] }, type_: None }],
    };
    Block {
        hash: [0xbb; 32],
        number: 42,
        epoch: 7,
        header: vec![1],
        uncles: vec![UncleBlock { hash: [0xcc; 32], header: vec![2] }],
        uncles_data: vec![3],
        proposals: vec![4],
        transactions: vec![tx(1), tx(2)],
    }
}

fn put_bytes(op: &StoreOp, col: Column) -> Option<&Vec<u8>> {
    match op {
        StoreOp::Put { col: c, value: StoreValue::Bytes(b), .. } if *c == col => Some(b),
        _ => None,
    }
}

#[test]
fn insert_block_writes() {
    let b = block();
    let prev = vec![vec![None], vec![None]];
    let mut txn = StoreTransaction::new();
    txn.insert_block(&b, &prev);
    let ops = txn.into_ops();
    assert_eq!(ops.len(), 6);
    assert_eq!(put_bytes(&ops[0], Column::BlockHeader), Some(&vec![1]));
    assert_eq!(put_bytes(&ops[1], Column::BlockUncle), Some(&vec![3]));
    assert_eq!(put_bytes(&ops[2], Column::BlockProposalIds), Some(&vec![4]));
    match &ops[4] {
        StoreOp::Put { col: Column::BlockBody, key: StoreKey::Transaction { block_hash, index: 1 }, value: StoreValue::Bytes(d) } => {
            assert_eq!(*block_hash, [0xbb; 32]);
            assert_eq!(*d, vec![2, 2]);
        }
        _ => panic!("expected the second body"),
    }
    assert_eq!(put_bytes(&ops[5], Column::GcsFilter), Some(&build_block_filter(&b, &prev)));
}

#[test]
fn attach_and_detach_block() {
    let b = block();
    let mut txn = StoreTransaction::new();
    txn.attach_block(&b);
    txn.detach_block(&b);
    let ops = txn.ops();
    assert_eq!(ops.len(), 10);
    match &ops[1] {
        StoreOp::Put { col: Column::TransactionInfo, key: StoreKey::Hash(h), value: StoreValue::TransactionInfo { block_hash, index, block_number, block_epoch } } => {
            assert_eq!(*h, [2; 32]);
            assert_eq!((*block_hash, *index, *block_number, *block_epoch), ([0xbb; 32], 1, 42, 7));
        }
        _ => panic!("expected transaction info"),
    }
    assert!(matches!(ops[2], StoreOp::Put { col: Column::Index, key: StoreKey::Number(42), value: StoreValue::Hash(_) }));
    assert!(matches!(ops[3], StoreOp::Put { col: Column::Uncles, key: StoreKey::Hash([0xcc, ..]), .. }));
    assert!(matches!(ops[4], StoreOp::Put { col: Column::Index, key: StoreKey::Hash(_), value: StoreValue::Number(42) }));
    assert!(matches!(ops[5], StoreOp::Delete { col: Column::TransactionInfo, key: StoreKey::Hash([1, ..]) }));
    assert!(matches!(ops[7], StoreOp::Delete { col: Column::Uncles, .. }));
    assert!(matches!(ops[8], StoreOp::Delete { col: Column::Index, key: StoreKey::Number(42) }));
    assert!(matches!(ops[9], StoreOp::Delete { col: Column::Index, key: StoreKey::Hash(_) }));
}

#[test]
fn epoch_meta_and_cell_set_writes() {
    let mut txn = StoreTransaction::new();
    let epoch = EpochExt { number: 9, data: vec![5, 5] };
    txn.insert_tip_header(&[1; 32]);
    txn.insert_block_ext(&[2; 32], &vec![6]);
    txn.insert_block_epoch_index(&[2; 32], &[3; 32]);
    txn.insert_epoch_ext(&[3; 32], &epoch);
    txn.insert_current_epoch_ext(&epoch);
    txn.update_cell_set(&[4; 32], &vec![7]);
    txn.delete_cell_set(&[4; 32]);
    txn.insert_raw(Column::Meta, StoreKey::Number(1), StoreValue::Number(2));
    txn.delete(Column::Meta, StoreKey::Number(1));
    let ops = txn.ops();
    assert_eq!(ops.len(), 10);
    assert!(matches!(ops[0], StoreOp::Put { col: Column::Meta, key: StoreKey::Meta(MetaKey::TipHeader), value: StoreValue::Hash([1, ..]) }));
    assert!(matches!(ops[1], StoreOp::Put { col: Column::BlockExt, .. }));
    assert!(matches!(ops[2], StoreOp::Put { col: Column::BlockEpoch, key: StoreKey::Hash([2, ..]), value: StoreValue::Hash([3, ..]) }));
    assert!(matches!(ops[3], StoreOp::Put { col: Column::Epoch, key: StoreKey::Hash([3, ..]), .. }));
    assert!(matches!(ops[4], StoreOp::Put { col: Column::Epoch, key: StoreKey::Number(9), value: StoreValue::Hash([3, ..]) }));
    assert!(matches!(ops[5], StoreOp::Put { col: Column::Meta, key: StoreKey::Meta(MetaKey::CurrentEpoch), .. }));
    assert!(matches!(ops[6], StoreOp::Put { col: Column::CellSet, .. }));
    assert!(matches!(ops[7], StoreOp::Delete { col: Column::CellSet, key: StoreKey::Hash([4, ..]) }));
    assert!(matches!(ops[9], StoreOp::Delete { col: Column::Meta, key: StoreKey::Number(1) }));
}

#[test]
fn human_readable_sizes() {
    assert!(matches!(HumanReadableSize::from(1023), HumanReadableSize::Bytes(1023)));
    assert!(matches!(HumanReadableSize::from(1024), HumanReadableSize::KiBytes(1024)));
    assert!(matches!(HumanReadableSize::from(1024 * 1024 - 1), HumanReadableSize::KiBytes(_)));
    assert!(matches!(HumanReadableSize::from(1024 * 1024), HumanReadableSize::MiBytes(_)));
    assert!(matches!(HumanReadableSize::from(1024 * 1024 * 1024), HumanReadableSize::GiBytes(_)));
    assert_eq!(HumanReadableSize::from(5000).bytes(), 5000);
}
