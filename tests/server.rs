use peer_sync::server::{
    blocks_by_range_response, blocks_by_root_response, range_candidate_roots,
    BlocksByRangeRequest, ResponseChunk, ResponseTermination, StoredBlock,
};

fn root(b: u8) -> [u8; 32] {
    [b; 32]
}

fn block(slot: u64) -> StoredBlock {
    StoredBlock { slot, ssz_bytes: vec![slot as u8, 0xaa] }
}

fn range_payloads(chunks: &[ResponseChunk]) -> Vec<Vec<u8>> {
    chunks
        .iter()
        .filter_map(|c| match c {
            ResponseChunk::BlocksByRange(b) => Some(b.clone()),
            _ => None,
        })
        .collect()
}

#[test]
fn range_with_a_skipped_slot_returns_three_blocks_in_order() {
    // The chain holds blocks at slots 10, 11 and 13; slot 12 repeats 11's root.
    let chain = vec![(root(13), 13u64), (root(11), 12), (root(11), 11), (root(10), 10), (root(9), 9)];
    let req = BlocksByRangeRequest { start_slot: 10, count: 4 };
    let candidates = range_candidate_roots(&chain, &req);
    assert_eq!(candidates, vec![root(13), root(11), root(11), root(10)]);
    let fetched: Vec<Option<StoredBlock>> = candidates
        .iter()
        .map(|r| Some(block(match r[0] {
            13 => 13,
            11 => 11,
            _ => 10,
        })))
        .collect();
    let response = blocks_by_range_response(fetched, &req);
    assert_eq!(response.len(), 4);
    assert_eq!(
        range_payloads(&response),
        vec![vec![10, 0xaa], vec![11, 0xaa], vec![13, 0xaa]]
    );
    assert!(matches!(
        response[3],
        ResponseChunk::StreamTermination(ResponseTermination::BlocksByRange)
    ));
}

#[test]
fn range_skips_missing_and_early_blocks() {
    let fetched = vec![Some(block(12)), None, Some(block(9)), Some(block(11))];
    let req = BlocksByRangeRequest { start_slot: 10, count: 5 };
    let response = blocks_by_range_response(fetched, &req);
    assert_eq!(range_payloads(&response), vec![vec![11, 0xaa], vec![12, 0xaa]]);
    assert!(matches!(
        response.last(),
        Some(ResponseChunk::StreamTermination(ResponseTermination::BlocksByRange))
    ));
}

#[test]
fn empty_range_still_terminates() {
    let response = blocks_by_range_response(vec![], &BlocksByRangeRequest { start_slot: 5, count: 3 });
    assert_eq!(response.len(), 1);
    assert!(matches!(
        response[0],
        ResponseChunk::StreamTermination(ResponseTermination::BlocksByRange)
    ));
}

#[test]
fn range_candidates_respect_bounds_without_overflow() {
    let chain = vec![(root(3), u64::MAX), (root(2), u64::MAX - 1), (root(1), 5)];
    let req = BlocksByRangeRequest { start_slot: u64::MAX - 1, count: u64::MAX };
    assert_eq!(range_candidate_roots(&chain, &req), vec![root(3), root(2)]);
    let req = BlocksByRangeRequest { start_slot: 5, count: 0 };
    assert_eq!(range_candidate_roots(&chain, &req), Vec::<[u8; 32]>::new());
}

#[test]
fn root_response_sends_found_blocks_in_request_order() {
    let found = vec![Some(vec![1u8]), None, Some(vec![3u8])];
    let response = blocks_by_root_response(found);
    assert_eq!(response.len(), 3);
    assert!(matches!(&response[0], ResponseChunk::BlocksByRoot(b) if b == &vec![1u8]));
    assert!(matches!(&response[1], ResponseChunk::BlocksByRoot(b) if b == &vec![3u8]));
    assert!(matches!(
        response[2],
        ResponseChunk::StreamTermination(ResponseTermination::BlocksByRoot)
    ));
}

#[test]
fn root_response_without_blocks_only_terminates() {
    let response = blocks_by_root_response(vec![None, None]);
    assert_eq!(response.len(), 1);
    assert!(matches!(
        response[0],
        ResponseChunk::StreamTermination(ResponseTermination::BlocksByRoot)
    ));
}

#[test]
fn range_response_keeps_only_requested_slots() {
    let req = BlocksByRangeRequest { start_slot: 10, count: 1 };
    let response = blocks_by_range_response(vec![Some(block(20)), Some(block(10))], &req);
    assert_eq!(range_payloads(&response), vec![vec![10, 0xaa]]);
    let req = BlocksByRangeRequest { start_slot: 10, count: 0 };
    let response = blocks_by_range_response(vec![Some(block(10))], &req);
    assert_eq!(response.len(), 1);
}

#[test]
fn range_response_is_ascending_whatever_the_input_order() {
    let req = BlocksByRangeRequest { start_slot: 0, count: 100 };
    // Read last to first: 12, 15, 13, 15, 20; only rising slots are kept.
    let fetched = vec![Some(block(20)), Some(block(15)), Some(block(13)), Some(block(15)), Some(block(12))];
    let response = blocks_by_range_response(fetched, &req);
    assert_eq!(
        range_payloads(&response),
        vec![vec![12, 0xaa], vec![15, 0xaa], vec![20, 0xaa]]
    );
}
