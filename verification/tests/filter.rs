use bloom_filters::{BloomFilter, ClassicBloomFilter, DefaultBuildHashKernels, DefaultBuildHasher};
use ckb_filter::bloom::{merge_filter, pad_to_words, BloomFilterData};
use ckb_filter::filter::{
    batch_filtered_blocks, build_filtered_block, build_filtered_transactions, empty_filtered_blocks,
    filtered_blocks_replies, match_output, match_transaction, select_requested_blocks, FilterAction, FilterBanReason,
    FilterMessage, FilterProtocol, FilteredBlock, FilteredTransactions, MatchedTransactions,
    MAX_GET_FILTERED_BLOCKS_LEN,
};
use ckb_filter::hash::calc_script_hash;
use ckb_filter::types::{Block, Byte32, CellOutput, OutPoint, Script, Transaction};

type Filter = ClassicBloomFilter<DefaultBuildHashKernels<DefaultBuildHasher>>;

/// The number of hash functions a filter made for a false-positive rate of
/// 0.0001 uses.
fn k_for(fp_rate: f64) -> u8 {
    fp_rate.log2().abs().ceil() as u8
}

fn new_filter(items_count: usize, fp_rate: f64, hash_seed: u32) -> Filter {
    Filter::new(items_count, fp_rate, DefaultBuildHashKernels::new(hash_seed as usize, DefaultBuildHasher))
}

fn data_of(filter: &Filter, fp_rate: f64, hash_seed: u32) -> BloomFilterData {
    BloomFilterData { raw: filter.buckets().raw_data(), num_hashes: k_for(fp_rate), hash_seed }
}

/// A 32-byte item as the filter looks it up: the hasher is fed its 32 bytes
/// and nothing else.
fn bloom_key(item: &Byte32) -> (u128, u128) {
    let mut head = [0u8; 16];
    let mut tail = [0u8; 16];
    head.copy_from_slice(&item[..16]);
    tail.copy_from_slice(&item[16..]);
    (u128::from_ne_bytes(head), u128::from_ne_bytes(tail))
}

#[test]
fn items_are_hashed_as_their_bytes() {
    let item: Byte32 = core::array::from_fn(|i| i as u8 * 7 + 1);
    let mut by_key = std::collections::hash_map::DefaultHasher::new();
    std::hash::Hash::hash(&bloom_key(&item), &mut by_key);
    let mut by_bytes = std::collections::hash_map::DefaultHasher::new();
    std::hash::Hasher::write(&mut by_bytes, &item);
    assert_eq!(std::hash::Hasher::finish(&by_key), std::hash::Hasher::finish(&by_bytes));
}

#[test]
fn new_filter_selects_nothing() {
    let filter = new_filter(10, 0.0001, 99);
    let data = data_of(&filter, 0.0001, 99);
    let block = block_with(vec![cellbase(h(0x61), 1), cellbase(h(0x62), 2)], 7);
    assert!(build_filtered_transactions(&block, &data, &no_prev(&block)).is_none());
}

#[test]
fn more_bits_select_more() {
    let seed = 17u32;
    let mut f = new_filter(10, 0.0001, seed);
    let block = block_with(vec![cellbase(h(0x71), 1), cellbase(h(0x72), 2)], 8);
    f.insert(&bloom_key(&h(0x72)));
    let before = data_of(&f, 0.0001, seed);
    f.insert(&bloom_key(&h(0x71)));
    let after = data_of(&f, 0.0001, seed);
    let prev = no_prev(&block);
    assert_eq!(build_filtered_transactions(&block, &before, &prev).unwrap().indices, vec![1]);
    assert_eq!(build_filtered_transactions(&block, &after, &prev).unwrap().indices, vec![0, 1]);
}

fn h(b: u8) -> Byte32 {
    [b; 32]
}

fn lock(b: u8) -> Script {
    Script { bytes: vec![b; 53] }
}

fn cell(lock_byte: u8, type_byte: Option<u8>) -> CellOutput {
    CellOutput { capacity: 1000, lock: lock(lock_byte), type_: type_byte.map(lock) }
}

fn cellbase(hash: Byte32, lock_byte: u8) -> Transaction {
    Transaction {
        hash,
        data: vec![hash[0], 1, 2, 3],
        inputs: vec![OutPoint { tx_hash: [0; 32], index: u32::MAX }],
        outputs: vec![cell(lock_byte, None)],
    }
}

fn block_with(txs: Vec<Transaction>, number: u64) -> Block {
    Block {
        hash: h(0xb0 + number as u8),
        number,
        epoch: 1,
        header: vec![9; 10],
        uncles: vec![],
        uncles_data: vec![4, 0, 0, 0],
        proposals: vec![4, 0, 0, 0],
        transactions: txs,
    }
}

fn no_prev(block: &Block) -> Vec<Vec<Option<CellOutput>>> {
    block.transactions.iter().map(|tx| tx.inputs.iter().map(|_| None).collect()).collect()
}

/// The filtered block for a peer's filter, with the merkle proof of a
/// one-transaction block (the single leaf is the root).
fn filtered_block_for(block: &Block, filter: &BloomFilterData) -> FilteredBlock {
    let selection = build_filtered_transactions(block, filter, &no_prev(block));
    let merkle = selection.as_ref().map(|s| (s.indices.clone(), Vec::<Byte32>::new()));
    build_filtered_block(block, selection, merkle)
}

#[test]
fn test_build_filtered_block() {
    {
        let seed: u32 = rand::random();
        let mut filter = new_filter(10, 0.0001, seed);
        let block = block_with(vec![cellbase(h(0x11), 7)], 1);
        assert!(filtered_block_for(&block, &data_of(&filter, 0.0001, seed)).transactions.is_none());

        filter.insert(&bloom_key(&block.transactions[0].hash));
        let filtered = filtered_block_for(&block, &data_of(&filter, 0.0001, seed))
            .transactions
            .expect("filtered transactions");
        assert_eq!(1, filtered.transactions.len());
        assert_eq!(block.transactions[0].data.as_slice(), filtered.transactions[0].as_slice());
    }
    {
        let seed: u32 = rand::random();
        let mut filter = new_filter(10, 0.0001, seed);
        let block = block_with(vec![cellbase(h(0x20), 8)], 20);
        filter.insert(&bloom_key(&calc_script_hash(&block.transactions[0].outputs[0].lock)));
        let filtered = filtered_block_for(&block, &data_of(&filter, 0.0001, seed))
            .transactions
            .expect("filtered transactions");
        assert_eq!(1, filtered.transactions.len());
        assert_eq!(block.transactions[0].data.as_slice(), filtered.transactions[0].as_slice());
    }
}

#[test]
fn selection_by_spent_cell_and_type_script() {
    let seed = 7u32;
    let mut filter = new_filter(10, 0.0001, seed);
    let spent = cell(3, Some(4));
    filter.insert(&bloom_key(&calc_script_hash(spent.type_.as_ref().unwrap())));
    let data = data_of(&filter, 0.0001, seed);

    let tx0 = cellbase(h(1), 1);
    let tx1 = Transaction {
        hash: h(2),
        data: vec![2, 2],
        inputs: vec![OutPoint { tx_hash: h(9), index: 0 }],
        outputs: vec![cell(5, None)],
    };
    let tx2 = Transaction { hash: h(3), data: vec![3, 3], inputs: vec![], outputs: vec![cell(6, Some(4))] };
    let block = block_with(vec![tx0, tx1, tx2], 3);
    let prev = vec![vec![None], vec![Some(cell(3, Some(4)))], vec![]];
    let selected = build_filtered_transactions(&block, &data, &prev).unwrap();
    assert_eq!(selected.indices, vec![1, 2]);
    assert_eq!(selected.transactions, vec![vec![2, 2], vec![3, 3]]);
    assert!(match_output(&spent, &data));
    assert!(!match_output(&cell(5, None), &data));
    assert!(!match_transaction(&block.transactions[0], &prev[0], &data));

    // Without the store knowing the spent cell, only the created cell matches.
    let selected = build_filtered_transactions(&block, &data, &no_prev(&block)).unwrap();
    assert_eq!(selected.indices, vec![2]);
}

#[test]
fn filter_with_no_hash_function_holds_everything() {
    let data = BloomFilterData { raw: vec![], num_hashes: 0, hash_seed: 0 };
    assert!(data.is_usable());
    assert!(match_output(&cell(1, None), &data));
    assert!(!BloomFilterData { raw: vec![], num_hashes: 2, hash_seed: 0 }.is_usable());
    assert!(!BloomFilterData { raw: vec![0; 5], num_hashes: 0, hash_seed: 0 }.is_usable());
    let zero = BloomFilterData { raw: vec![0; 8], num_hashes: 2, hash_seed: 0 };
    assert!(!match_output(&cell(1, None), &zero));
}

#[test]
fn merge_ors_buckets() {
    let f = BloomFilterData { raw: vec![0b0001, 0, 0, 0, 0, 0, 0, 0x80], num_hashes: 3, hash_seed: 5 };
    let merged = merge_filter(&f, &vec![0b0110, 0xff]);
    assert_eq!(merged.raw, vec![0b0111, 0xff, 0, 0, 0, 0, 0, 0x80]);
    assert_eq!(merged.num_hashes, 3);
    assert_eq!(merged.hash_seed, 5);
    let merged = merge_filter(&f, &vec![1; 12]);
    assert_eq!(merged.raw, vec![1, 1, 1, 1, 1, 1, 1, 0x81]);
}

fn hashes(n: u8) -> Vec<Byte32> {
    (0..n).map(h).collect()
}

#[test]
fn replies_close_after_four_matches() {
    // requests 0..10, matched at 1, 2, 3, 5, 6, 9
    let matched = [1u8, 2, 3, 5, 6, 9];
    let results: Vec<Option<u8>> = (0..10u8).map(|i| if matched.contains(&i) { Some(i * 10) } else { None }).collect();
    let out = batch_filtered_blocks(&hashes(10), results);
    assert_eq!(out.len(), 2);
    assert_eq!(out[0].unmatched_block_hashes, vec![h(0), h(4)]);
    assert_eq!(out[0].matched_block_hashes, vec![h(1), h(2), h(3), h(5)]);
    assert_eq!(out[0].matched_blocks, vec![10, 20, 30, 50]);
    assert_eq!(out[1].unmatched_block_hashes, vec![h(7), h(8)]);
    assert_eq!(out[1].matched_block_hashes, vec![h(6), h(9)]);
    assert_eq!(out[1].matched_blocks, vec![60, 90]);
}

#[test]
fn replies_when_fourth_match_is_last() {
    let results: Vec<Option<u8>> = vec![Some(0), Some(1), Some(2), Some(3)];
    let out = batch_filtered_blocks(&hashes(4), results);
    assert_eq!(out.len(), 1);
    assert_eq!(out[0].matched_blocks, vec![0, 1, 2, 3]);

    let results: Vec<Option<u8>> = vec![Some(0), Some(1), Some(2), Some(3), None];
    let out = batch_filtered_blocks(&hashes(5), results);
    assert_eq!(out.len(), 2);
    assert_eq!(out[1].unmatched_block_hashes, vec![h(4)]);
    assert!(out[1].matched_blocks.is_empty());
}

#[test]
fn no_reply_for_no_request_and_one_for_no_match() {
    let out = batch_filtered_blocks::<u8>(&vec![], vec![]);
    assert!(out.is_empty());
    let out = batch_filtered_blocks::<u8>(&hashes(3), vec![None, None, None]);
    assert_eq!(out.len(), 1);
    assert_eq!(out[0].unmatched_block_hashes, hashes(3));
}

fn set_filter(seed: u32, raw: Vec<u8>) -> FilterMessage {
    FilterMessage::SetFilter { hash_seed: seed, filter: raw, num_hashes: 2 }
}

#[test]
fn peers_set_add_and_clear_filters() {
    let mut p = FilterProtocol::new();
    assert!(p.peer_filter(1).is_none());
    assert!(matches!(p.process(1, set_filter(3, vec![1, 0, 0, 0, 0, 0, 0, 0])), FilterAction::Done));
    let f = p.peer_filter(1).unwrap();
    assert_eq!(f.raw, vec![1, 0, 0, 0, 0, 0, 0, 0]);
    assert_eq!((f.num_hashes, f.hash_seed), (2, 3));

    assert!(matches!(p.process(1, FilterMessage::AddFilter { filter: vec![2, 4] }), FilterAction::Done));
    assert_eq!(p.peer_filter(1).unwrap().raw, vec![3, 4, 0, 0, 0, 0, 0, 0]);

    // AddFilter from a peer without a filter changes nothing.
    p.process(2, FilterMessage::AddFilter { filter: vec![2, 4] });
    assert!(p.peer_filter(2).is_none());
    // and leaves the other peers' filters as they were
    assert_eq!(p.peer_filter(1).unwrap().raw, vec![3, 4, 0, 0, 0, 0, 0, 0]);

    assert!(matches!(p.process(1, FilterMessage::ClearFilter), FilterAction::Done));
    assert!(p.peer_filter(1).is_none());

    p.process(5, set_filter(1, vec![0; 8]));
    p.disconnected(5);
    assert!(p.peer_filter(5).is_none());
}

#[test]
fn requests_for_filtered_blocks() {
    let mut p = FilterProtocol::new();
    assert!(matches!(
        p.process(1, FilterMessage::GetFilteredBlocks { block_hashes: hashes(2) }),
        FilterAction::ReplyEmpty
    ));
    p.process(1, set_filter(3, vec![0; 8]));
    match p.process(1, FilterMessage::GetFilteredBlocks { block_hashes: hashes(2) }) {
        FilterAction::ServeFilteredBlocks { filter, block_hashes } => {
            assert_eq!(block_hashes, hashes(2));
            assert_eq!(filter.raw, vec![0; 8]);
        }
        _ => panic!("expected filtered blocks to be served"),
    }
    let too_many = vec![[0u8; 32]; MAX_GET_FILTERED_BLOCKS_LEN + 1];
    assert!(matches!(
        p.process(1, FilterMessage::GetFilteredBlocks { block_hashes: too_many }),
        FilterAction::Ban(FilterBanReason::BlockHashesOverLimit(513))
    ));
    let exactly = vec![[0u8; 32]; MAX_GET_FILTERED_BLOCKS_LEN];
    assert!(matches!(
        p.process(1, FilterMessage::GetFilteredBlocks { block_hashes: exactly }),
        FilterAction::ServeFilteredBlocks { .. }
    ));
    let reply = FilterMessage::FilteredBlocks(empty_filtered_blocks());
    assert!(matches!(p.process(1, reply), FilterAction::Ban(FilterBanReason::UnexpectedFilteredBlocks)));
    // the filter stays after requests
    assert!(p.peer_filter(1).is_some());
}

#[test]
fn new_block_is_filtered_for_each_peer() {
    let seed = 11u32;
    let block = block_with(vec![cellbase(h(0x31), 2)], 4);
    let prev = no_prev(&block);
    let mut hit = new_filter(10, 0.0001, seed);
    hit.insert(&bloom_key(&block.transactions[0].hash));
    let hit = data_of(&hit, 0.0001, seed);
    let miss = data_of(&new_filter(10, 0.0001, seed), 0.0001, seed);

    let mut p = FilterProtocol::new();
    p.process(1, FilterMessage::SetFilter { hash_seed: seed, filter: hit.raw.clone(), num_hashes: hit.num_hashes });
    p.process(2, FilterMessage::SetFilter { hash_seed: seed, filter: miss.raw.clone(), num_hashes: miss.num_hashes });
    assert!(p.filters_usable());
    let mut out = p.filtered_block_selections(&block, &prev);
    out.sort_by_key(|e| e.0);
    assert_eq!(out.len(), 2);
    assert_eq!(out[0].0, 1);
    assert_eq!(out[0].1.as_ref().unwrap().indices, vec![0]);
    assert_eq!(out[1].0, 2);
    assert!(out[1].1.is_none());

    let selected: MatchedTransactions = out.remove(0).1.unwrap();
    let fb = build_filtered_block(&block, Some(selected), Some((vec![2], vec![h(6)])));
    assert_eq!(fb.header, block.header);
    let ft: FilteredTransactions = fb.transactions.unwrap();
    assert_eq!(ft.transactions, vec![block.transactions[0].data.clone()]);
    assert_eq!(ft.proof_indices, vec![2]);
    assert_eq!(ft.proof_lemmas, vec![h(6)]);
    let none = build_filtered_block(&block, None, None);
    assert!(none.transactions.is_none());
}

#[test]
fn set_filter_pads_buckets_to_words() {
    let mut p = FilterProtocol::new();
    p.process(1, set_filter(3, vec![1, 2, 3]));
    assert_eq!(p.peer_filter(1).unwrap().raw, vec![1, 2, 3, 0, 0, 0, 0, 0]);
    p.process(1, set_filter(3, vec![5; 9]));
    assert_eq!(p.peer_filter(1).unwrap().raw.len(), 16);
    assert!(p.filters_usable());
    assert_eq!(pad_to_words(vec![7; 8]), vec![7; 8]);
    assert_eq!(pad_to_words(vec![]), Vec::<u8>::new());
}

#[test]
fn add_filter_keeps_every_item_found() {
    let seed = 21u32;
    let mut f = new_filter(10, 0.0001, seed);
    f.insert(&bloom_key(&h(0x41)));
    let before = data_of(&f, 0.0001, seed);
    let mut g = new_filter(10, 0.0001, seed);
    g.insert(&bloom_key(&h(0x42)));
    let mut p = FilterProtocol::new();
    p.process(1, FilterMessage::SetFilter { hash_seed: seed, filter: before.raw.clone(), num_hashes: before.num_hashes });
    p.process(1, FilterMessage::AddFilter { filter: g.buckets().raw_data() });
    let after = p.peer_filter(1).unwrap();
    let tx = |b: u8| cellbase(h(b), 0x70 + b);
    assert!(match_transaction(&tx(0x41), &vec![None], &before));
    assert!(match_transaction(&tx(0x41), &vec![None], after));
    assert!(match_transaction(&tx(0x42), &vec![None], after));
}

#[test]
fn unusable_filter_filters_blocks_without_transactions() {
    let f = BloomFilterData { raw: vec![], num_hashes: 3, hash_seed: 0 };
    let block = block_with(vec![], 9);
    assert!(build_filtered_transactions(&block, &f, &vec![]).is_none());
    let mut p = FilterProtocol::new();
    p.process(1, set_filter(0, vec![]));
    assert_eq!(p.filtered_block_selections(&block, &vec![]).len(), 1);
}

#[test]
fn requested_blocks_are_selected_and_replied() {
    let seed = 13u32;
    let b1 = || block_with(vec![cellbase(h(0x51), 1), cellbase(h(0x52), 2)], 5);
    let b3 = || block_with(vec![cellbase(h(0x53), 3)], 6);
    let mut f = new_filter(10, 0.0001, seed);
    f.insert(&bloom_key(&h(0x52)));
    let data = data_of(&f, 0.0001, seed);
    let blocks = vec![None, Some(b1()), Some(b3())];
    let prevs = vec![vec![], no_prev(&b1()), no_prev(&b3())];
    let selections = select_requested_blocks(&data, &blocks, &prevs);
    assert_eq!(selections.len(), 3);
    assert!(selections[0].is_none());
    assert_eq!(selections[1].as_ref().unwrap().indices, vec![1]);
    assert!(selections[2].is_none());
    let proofs = vec![None, Some((vec![1], vec![h(0x51)])), None];
    let requested = vec![h(0xa0), b1().hash, b3().hash];
    let out = filtered_blocks_replies(&requested, selections, proofs);
    assert_eq!(out.len(), 1);
    assert_eq!(out[0].unmatched_block_hashes, vec![h(0xa0), b3().hash]);
    assert_eq!(out[0].matched_block_hashes, vec![b1().hash]);
    assert_eq!(out[0].matched_blocks[0].transactions, vec![b1().transactions[1].data.clone()]);
    assert_eq!(out[0].matched_blocks[0].proof_indices, vec![1]);
    assert_eq!(out[0].matched_blocks[0].proof_lemmas, vec![h(0x51)]);
}

#[test]
fn empty_filter_with_hash_functions_is_not_usable() {
    let mut p = FilterProtocol::new();
    p.process(1, set_filter(0, vec![]));
    assert!(!p.filters_usable());
}
