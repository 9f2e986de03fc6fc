use ckb_filter::filter::{build_filtered_block, FilterMessage};
use ckb_filter::gcs::build_block_filter;
use ckb_filter::gcs_filter::GcsFilterMessage;
use ckb_filter::hash::calc_script_hash;
use ckb_filter::specs::{match_filter, GetGcsFilterHashes, GetGcsFilters, SetFilter};
use ckb_filter::types::{Block, CellOutput, OutPoint, Script, Transaction};

#[test]
fn set_filter_check() {
    let s = SetFilter;
    assert_eq!(s.name(), "set_filter");
    match s.request(9, vec![0; 8]) {
        FilterMessage::SetFilter { hash_seed, filter, num_hashes } => {
            assert_eq!((hash_seed, num_hashes), (9, 10));
            assert_eq!(filter, vec![0; 8]);
        }
        _ => panic!("expected SetFilter"),
    }
    let block = Block {
        hash: [1; 32], number: 1, epoch: 0, header: vec![1], uncles: vec![], uncles_data: vec![], proposals: vec![],
        transactions: vec![],
    };
    assert!(s.accepts(&FilterMessage::FilteredBlock(build_filtered_block(&block, None, None))));
    assert!(!s.accepts(&FilterMessage::ClearFilter));
}

#[test]
fn gcs_filter_hashes_check() {
    let c = GetGcsFilterHashes;
    assert_eq!(c.name(), "get_gcs_filter_hashes");
    assert!(matches!(c.request([5; 32]), GcsFilterMessage::GetGcsFilterHashes { start_number: 1, stop_hash: [5, ..] }));
    let reply = GcsFilterMessage::GcsFilterHashes { stop_hash: [5; 32], parent_hash: [0; 32], filter_hashes: vec![] };
    assert!(c.accepts(&reply, &[5; 32], &[0; 32]));
    assert!(!c.accepts(&reply, &[5; 32], &[1; 32]));
    assert!(!c.accepts(&reply, &[6; 32], &[0; 32]));
}

#[test]
fn gcs_filters_check() {
    let c = GetGcsFilters;
    assert_eq!(c.name(), "get_gcs_filters");
    assert!(matches!(c.request([5; 32]), GcsFilterMessage::GetGcsFilters { start_number: 0, .. }));
    let lock = Script { bytes: vec![7; 53] };
    let script_hash = calc_script_hash(&lock);
    let block = Block {
        hash: [5; 32], number: 1, epoch: 0, header: vec![], uncles: vec![], uncles_data: vec![], proposals: vec![],
        transactions: vec![Transaction {
            hash: [8; 32], data: vec![],
            inputs: vec![OutPoint { tx_hash: [0; 32], index: u32::MAX }],
            outputs: vec![CellOutput { capacity: 1, lock, type_: None }],
        }],
    };
    let filter = build_block_filter(&block, &vec![vec![None]]);
    let reply = GcsFilterMessage::GcsFilter { block_hash: [5; 32], filter };
    assert!(c.readable(&reply, &[5; 32]));
    assert!(c.accepts(&reply, &[5; 32], &script_hash));
    assert!(!c.accepts(&reply, &[6; 32], &script_hash));
    let unreadable = GcsFilterMessage::GcsFilter { block_hash: [5; 32], filter: vec![0xff; 8] };
    assert!(!c.readable(&unreadable, &[5; 32]));
    assert!(c.readable(&unreadable, &[6; 32]));
    assert!(!match_filter(&GcsFilterMessage::GetGcsFilters { start_number: 0, stop_hash: [5; 32] }, &[5; 32], &script_hash));
}
