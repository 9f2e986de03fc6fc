use ckb_filter::gcs::{
    block_filter_elements, build_block_filter, gcs_filter_match, gcs_filter_readable, GCS_FILTER_M, GCS_FILTER_P,
};
use ckb_filter::gcs_filter::{
    checkpoint_numbers, filter_hashes, gcs_checkpoint_reply, gcs_filter_hashes_reply, gcs_filter_messages,
    gcs_filter_range, serve_gcs_checkpoint, serve_gcs_filter_hashes, serve_gcs_filters, GcsFilterAction,
    GcsFilterBanReason, GcsFilterMessage, GcsFilterProtocol, MAX_FILTER_RANGE_SIZE, MIN_CHECK_POINT_INTERVAL,
};
use ckb_filter::hash::{blake2b_256, calc_script_hash};
use ckb_filter::types::{Block, Byte32, CellOutput, OutPoint, Script, Transaction};

fn script(b: u8) -> Script {
    Script { bytes: vec![b; 53] }
}

fn block(txs: Vec<Transaction>) -> Block {
    Block {
        hash: [0xaa; 32],
        number: 5,
        epoch: 1,
        header: vec![1, 2, 3],
        uncles: vec![],
        uncles_data: vec![],
        proposals: vec![],
        transactions: txs,
    }
}

fn tx(hash: u8, inputs: usize, outputs: Vec<CellOutput>) -> Transaction {
    Transaction {
        hash: [hash; 32],
        data: vec![hash],
        inputs: (0..inputs).map(|i| OutPoint { tx_hash: [9; 32], index: i as u32 }).collect(),
        outputs,
    }
}

fn out(lock: u8, type_: Option<u8>) -> CellOutput {
    CellOutput { capacity: 1, lock: script(lock), type_: type_.map(script) }
}

const EMPTY_HASH: &str = "44f4c69744d5f8c55d642062949dcae49bc4e7ef43d388c5a12f42b5633d163e";

fn hex(h: &Byte32) -> String {
    h.iter().map(|b| format!("{:02x}", b)).collect()
}

#[test]
fn ckb_hash_of_empty_input() {
    assert_eq!(hex(&blake2b_256(&[])), EMPTY_HASH);
    assert_ne!(blake2b_256(&[1, 2]), blake2b_256(&[2, 1]));
}

#[test]
fn filter_elements_in_order() {
    let b = block(vec![tx(1, 1, vec![out(1, Some(2))]), tx(2, 2, vec![out(3, None)])]);
    let prev = vec![vec![None], vec![Some(out(4, Some(5))), None]];
    let elements = block_filter_elements(&b, &prev);
    let expected: Vec<Vec<u8>> = [1u8, 2, 3, 4, 5].iter().map(|s| calc_script_hash(&script(*s)).to_vec()).collect();
    assert_eq!(elements, expected);
}

#[test]
fn block_filter_holds_its_scripts() {
    let b = block(vec![tx(1, 0, vec![out(1, Some(2))]), tx(2, 0, vec![out(1, None)])]);
    let prev = vec![vec![], vec![]];
    let filter = build_block_filter(&b, &prev);
    // two distinct elements: the repeated lock counts once
    assert_eq!(&filter[..8], &2u64.to_le_bytes());
    assert!(gcs_filter_match(&filter, &vec![calc_script_hash(&script(1))]));
    assert!(gcs_filter_match(&filter, &vec![[7; 32], calc_script_hash(&script(2))]));
    assert!(!gcs_filter_match(&filter, &vec![]));
    assert!(!gcs_filter_match(&[], &vec![calc_script_hash(&script(1))]));
    assert_eq!(GCS_FILTER_P, 19);
    assert_eq!(GCS_FILTER_M, 784_930);
}

#[test]
fn gcs_protocol_decisions() {
    let p = GcsFilterProtocol::new();
    let stop = [3u8; 32];
    assert!(matches!(
        p.process(&GcsFilterMessage::GetGcsFilters { start_number: 4, stop_hash: stop }),
        GcsFilterAction::ServeFilters { start_number: 4, stop_hash } if stop_hash == stop
    ));
    assert!(matches!(
        p.process(&GcsFilterMessage::GetGcsFilterHashes { start_number: 1, stop_hash: stop }),
        GcsFilterAction::ServeFilterHashes { start_number: 1, .. }
    ));
    assert!(matches!(
        p.process(&GcsFilterMessage::GetGcsFilterCheckPoint { stop_hash: stop, interval: MIN_CHECK_POINT_INTERVAL }),
        GcsFilterAction::ServeCheckPoint { interval: 200_000, .. }
    ));
    assert!(matches!(
        p.process(&GcsFilterMessage::GetGcsFilterCheckPoint { stop_hash: stop, interval: 199_999 }),
        GcsFilterAction::Ban(GcsFilterBanReason::InvalidCheckPointInterval(199_999))
    ));
    let reply = GcsFilterMessage::GcsFilter { block_hash: stop, filter: vec![] };
    assert_eq!(reply.item_name(), "GcsFilter");
    assert!(matches!(p.process(&reply), GcsFilterAction::Ban(GcsFilterBanReason::UnexpectedMessage)));
}

#[test]
fn ranges_are_capped() {
    assert_eq!(gcs_filter_range(3, 6), vec![3, 4, 5, 6]);
    assert_eq!(gcs_filter_range(6, 6), vec![6]);
    assert!(gcs_filter_range(7, 6).is_empty());
    let r = gcs_filter_range(10, 1_000_000);
    assert_eq!(r.len(), MAX_FILTER_RANGE_SIZE);
    assert_eq!(r[1999], 2009);
    let r = gcs_filter_range(u64::MAX - 1, u64::MAX);
    assert_eq!(r, vec![u64::MAX - 1, u64::MAX]);
}

#[test]
fn checkpoints() {
    assert_eq!(checkpoint_numbers(450_000, 200_000), vec![0, 200_000, 400_000, 450_000]);
    assert_eq!(checkpoint_numbers(400_000, 200_000), vec![0, 200_000, 400_000]);
    assert_eq!(checkpoint_numbers(0, 200_000), vec![0]);
    assert_eq!(checkpoint_numbers(1, 200_000), vec![0, 1]);
}

#[test]
fn filter_hash_replies() {
    let filters = vec![None, Some(vec![]), None, Some(vec![1])];
    let hs = filter_hashes(&filters);
    assert_eq!(hs.len(), 2);
    assert_eq!(hex(&hs[0]), EMPTY_HASH);
    assert_eq!(hs[1], blake2b_256(&[1]));

    let parent = [1u8; 32];
    let stop = [2u8; 32];
    match gcs_filter_hashes_reply(parent, stop, &filters) {
        Some(GcsFilterMessage::GcsFilterHashes { stop_hash, parent_hash, filter_hashes }) => {
            assert_eq!((stop_hash, parent_hash), (stop, parent));
            assert_eq!(filter_hashes, hs);
        }
        _ => panic!("expected filter hashes"),
    }
    assert!(gcs_filter_hashes_reply(parent, stop, &vec![None, None]).is_none());
    match gcs_checkpoint_reply(stop, &filters) {
        Some(GcsFilterMessage::GcsFilterCheckPoint { stop_hash, filter_hashes }) => {
            assert_eq!(stop_hash, stop);
            assert_eq!(filter_hashes, hs);
        }
        _ => panic!("expected checkpoint"),
    }
    assert!(gcs_checkpoint_reply(stop, &vec![]).is_none());
}

#[test]
fn filter_messages_for_found_blocks() {
    let found = vec![Some(([1u8; 32], vec![5u8])), None, Some(([3u8; 32], vec![6u8, 7]))];
    let msgs = gcs_filter_messages(found);
    assert_eq!(msgs.len(), 2);
    match &msgs[1] {
        GcsFilterMessage::GcsFilter { block_hash, filter } => {
            assert_eq!(*block_hash, [3u8; 32]);
            assert_eq!(*filter, vec![6, 7]);
        }
        _ => panic!("expected a filter"),
    }
}

#[test]
fn serving_filters_needs_a_known_stop_block() {
    let found = vec![Some(([1u8; 32], vec![5u8])), None];
    assert!(serve_gcs_filters(3, None, vec![]).is_empty());
    let msgs = serve_gcs_filters(3, Some(4), found);
    assert_eq!(msgs.len(), 1);
    assert!(matches!(&msgs[0], GcsFilterMessage::GcsFilter { block_hash, .. } if *block_hash == [1u8; 32]));
    let numbers = gcs_filter_range(0, 5000);
    let many: Vec<Option<(Byte32, Vec<u8>)>> = numbers.iter().map(|n| Some(([(*n % 256) as u8; 32], vec![]))).collect();
    assert_eq!(serve_gcs_filters(0, Some(5000), many).len(), MAX_FILTER_RANGE_SIZE);
}

#[test]
fn serving_filter_hashes_needs_stop_and_parent() {
    let filters = vec![Some(vec![1u8]), None];
    let parent = [8u8; 32];
    let stop = [9u8; 32];
    assert!(serve_gcs_filter_hashes(1, stop, None, Some(parent), &vec![]).is_none());
    assert!(serve_gcs_filter_hashes(1, stop, Some(2), None, &filters).is_none());
    match serve_gcs_filter_hashes(1, stop, Some(2), Some(parent), &filters) {
        Some(GcsFilterMessage::GcsFilterHashes { stop_hash, parent_hash, filter_hashes }) => {
            assert_eq!((stop_hash, parent_hash), (stop, parent));
            assert_eq!(filter_hashes, vec![blake2b_256(&[1])]);
        }
        _ => panic!("expected filter hashes"),
    }
    assert!(serve_gcs_filter_hashes(1, stop, Some(2), Some(parent), &vec![None, None]).is_none());
}

#[test]
fn serving_checkpoints() {
    let stop = [9u8; 32];
    assert!(serve_gcs_checkpoint(stop, 200_000, None, &vec![]).is_none());
    let numbers = checkpoint_numbers(450_000, 200_000);
    let filters: Vec<Option<Vec<u8>>> = numbers.iter().map(|n| if *n == 200_000 { None } else { Some(vec![1u8]) }).collect();
    match serve_gcs_checkpoint(stop, 200_000, Some(450_000), &filters) {
        Some(GcsFilterMessage::GcsFilterCheckPoint { stop_hash, filter_hashes }) => {
            assert_eq!(stop_hash, stop);
            assert_eq!(filter_hashes.len(), 3);
        }
        _ => panic!("expected checkpoint"),
    }
}

#[test]
fn readable_filters() {
    assert!(gcs_filter_readable(&[]));
    assert!(gcs_filter_readable(&[1, 2, 3]));
    let mut f = 23_501_132_678_977u64.to_le_bytes().to_vec();
    assert!(gcs_filter_readable(&f));
    f = 23_501_132_678_978u64.to_le_bytes().to_vec();
    assert!(!gcs_filter_readable(&f));
    let b = block(vec![tx(1, 0, vec![out(1, Some(2))])]);
    let filter = build_block_filter(&b, &vec![vec![]]);
    assert!(gcs_filter_readable(&filter));
}
