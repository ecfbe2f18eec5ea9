use peer_sync::gossip::{AttestationGossipAction, AttestationOutcome, BlockGossipAction, BlockOutcome};
use peer_sync::processor::{
    MessageProcessor, NetworkContext, NetworkMessage, PeerId, RpcErrorResponse, RpcEvent,
    RpcRequest, RpcResponse, StatusLookups, SyncMessage,
};
use peer_sync::server::{BlocksByRangeRequest, ResponseTermination, StoredBlock};
use peer_sync::sync::{GoodbyeReason, StatusMessage};

const PEER: PeerId = PeerId { index: 7 };

fn status(fork: [u8; 4], fin_epoch: u64, fin_root: u8, head_slot: u64) -> StatusMessage {
    StatusMessage {
        fork_version: fork,
        finalized_root: [fin_root; 32],
        finalized_epoch: fin_epoch,
        head_root: [0xee; 32],
        head_slot,
    }
}

fn lookups(root_at_finalized: Option<[u8; 32]>, head_known: bool) -> StatusLookups {
    StatusLookups { local_slot: Some(100), root_at_finalized, head_known }
}

fn count_disconnects(msgs: &[NetworkMessage], reason: GoodbyeReason) -> usize {
    msgs.iter()
        .filter(|m| {
            matches!(m, NetworkMessage::Rpc(p, RpcEvent::Request(0, RpcRequest::Goodbye(r)))
                if *p == PEER && *r == reason)
        })
        .count()
}

fn count_add_peer(msgs: &[SyncMessage]) -> usize {
    msgs.iter().filter(|m| matches!(m, SyncMessage::AddPeer(..))).count()
}

#[test]
fn status_with_other_fork_disconnects_exactly_once() {
    let mut p = MessageProcessor::new();
    p.on_status_response(PEER, status([9, 9, 9, 9], 2, 1, 90), status([0, 0, 0, 1], 2, 1, 100), lookups(Some([1; 32]), true));
    let net = p.take_network_messages();
    let sync = p.take_sync_messages();
    assert_eq!(count_disconnects(&net, GoodbyeReason::IrrelevantNetwork), 1);
    assert!(matches!(net.last(), Some(NetworkMessage::Disconnect { peer_id }) if *peer_id == PEER));
    assert_eq!(net.len(), 2);
    assert_eq!(count_add_peer(&sync), 0);
}

#[test]
fn status_with_same_epoch_other_root_disconnects() {
    let mut p = MessageProcessor::new();
    let local = status([0, 0, 0, 1], 4, 1, 100);
    let remote = status([0, 0, 0, 1], 4, 2, 100);
    p.on_status_response(PEER, remote, local, lookups(Some([1; 32]), false));
    let net = p.take_network_messages();
    assert_eq!(count_disconnects(&net, GoodbyeReason::IrrelevantNetwork), 1);
    assert_eq!(count_add_peer(&p.take_sync_messages()), 0);
}

#[test]
fn status_request_answers_then_adds_useful_peer() {
    let mut p = MessageProcessor::new();
    let local = status([0, 0, 0, 1], 4, 1, 100);
    let remote = status([0, 0, 0, 1], 5, 3, 101);
    p.on_status_request(PEER, 42, remote, local, lookups(None, false));
    let net = p.take_network_messages();
    assert_eq!(net.len(), 1);
    assert!(matches!(
        &net[0],
        NetworkMessage::Rpc(peer, RpcEvent::Response(42, RpcErrorResponse::Success(RpcResponse::Status(s))))
            if *peer == PEER && s.head_slot == 100
    ));
    let sync = p.take_sync_messages();
    assert_eq!(sync.len(), 1);
    assert!(matches!(&sync[0], SyncMessage::AddPeer(peer, info) if *peer == PEER && info.head_slot == 101));
}

#[test]
fn naive_peer_gets_nothing() {
    let mut p = MessageProcessor::new();
    let local = status([0, 0, 0, 1], 4, 1, 100);
    let remote = status([0, 0, 0, 1], 3, 3, 90);
    p.on_status_response(PEER, remote, local, lookups(Some([3; 32]), false));
    assert!(p.take_network_messages().is_empty());
    assert!(p.take_sync_messages().is_empty());
}

#[test]
fn connect_sends_status_with_default_request_id() {
    let mut p = MessageProcessor::new();
    p.on_connect(PEER, status([0, 0, 0, 1], 4, 1, 100));
    let net = p.take_network_messages();
    assert!(matches!(&net[0], NetworkMessage::Rpc(_, RpcEvent::Request(0, RpcRequest::Status(_)))));
}

#[test]
fn range_request_streams_blocks_then_termination() {
    let mut p = MessageProcessor::new();
    let fetched = vec![
        Some(StoredBlock { slot: 13, ssz_bytes: vec![13] }),
        Some(StoredBlock { slot: 11, ssz_bytes: vec![11] }),
        Some(StoredBlock { slot: 11, ssz_bytes: vec![11] }),
        Some(StoredBlock { slot: 10, ssz_bytes: vec![10] }),
    ];
    p.on_blocks_by_range_request(PEER, 5, BlocksByRangeRequest { start_slot: 10, count: 4 }, fetched);
    let net = p.take_network_messages();
    let slots: Vec<u8> = net
        .iter()
        .filter_map(|m| match m {
            NetworkMessage::Rpc(_, RpcEvent::Response(5, RpcErrorResponse::Success(RpcResponse::BlocksByRange(b)))) => Some(b[0]),
            _ => None,
        })
        .collect();
    assert_eq!(slots, vec![10, 11, 13]);
    assert_eq!(net.len(), 4);
    assert!(matches!(
        net[3],
        NetworkMessage::Rpc(_, RpcEvent::Response(5, RpcErrorResponse::StreamTermination(ResponseTermination::BlocksByRange)))
    ));
}

#[test]
fn root_request_streams_found_blocks() {
    let mut p = MessageProcessor::new();
    p.on_blocks_by_root_request(PEER, 6, vec![None, Some(vec![1, 2])]);
    let net = p.take_network_messages();
    assert_eq!(net.len(), 2);
    assert!(matches!(
        net[1],
        NetworkMessage::Rpc(_, RpcEvent::Response(6, RpcErrorResponse::StreamTermination(ResponseTermination::BlocksByRoot)))
    ));
}

#[test]
fn unknown_parent_block_goes_to_sync() {
    let mut p = MessageProcessor::new();
    let a = p.on_block_gossip(PEER, vec![1, 2, 3], Some(BlockOutcome::ParentUnknown { parent: [4; 32] }));
    assert_eq!(a, BlockGossipAction::QueueUnknownParent);
    let sync = p.take_sync_messages();
    assert!(matches!(&sync[0], SyncMessage::UnknownBlock(peer, b) if *peer == PEER && b == &vec![1u8, 2, 3]));
    let a = p.on_block_gossip(PEER, vec![1], Some(BlockOutcome::Rejected));
    assert_eq!(a, BlockGossipAction::Drop);
    assert!(p.take_sync_messages().is_empty());
}

#[test]
fn invalid_attestation_disconnects_with_fault() {
    let mut p = MessageProcessor::new();
    let a = p.on_attestation_gossip(PEER, Some(AttestationOutcome::Invalid));
    assert_eq!(a, AttestationGossipAction::Disconnect(GoodbyeReason::Fault));
    let net = p.take_network_messages();
    assert_eq!(count_disconnects(&net, GoodbyeReason::Fault), 1);
    let a = p.on_attestation_gossip(PEER, Some(AttestationOutcome::UnknownHeadBlock { beacon_block_root: [8; 32] }));
    assert_eq!(a, AttestationGossipAction::LookupBlock([8; 32]));
    assert!(matches!(p.take_sync_messages()[0], SyncMessage::UnknownBlockHash(_, r) if r == [8; 32]));
}

#[test]
fn sync_notifications_are_forwarded() {
    let mut p = MessageProcessor::new();
    p.on_disconnect(PEER);
    p.on_rpc_error(PEER, 3);
    p.on_blocks_by_range_response(PEER, 3, None);
    p.on_blocks_by_root_response(PEER, 4, Some(vec![1]));
    let sync = p.take_sync_messages();
    assert_eq!(sync.len(), 4);
    assert!(matches!(sync[0], SyncMessage::Disconnect(_)));
    assert!(matches!(sync[1], SyncMessage::RPCError(_, 3)));
    assert!(matches!(&sync[2], SyncMessage::BlocksByRangeResponse { request_id: 3, beacon_block: None, .. }));
    assert!(matches!(&sync[3], SyncMessage::BlocksByRootResponse { request_id: 4, beacon_block: Some(_), .. }));
}

#[test]
fn network_context_uses_zero_without_request_id() {
    let mut n = NetworkContext::new();
    n.send_rpc_request(None, PEER, RpcRequest::Goodbye(GoodbyeReason::ClientShutdown));
    n.send_rpc_request(Some(9), PEER, RpcRequest::Goodbye(GoodbyeReason::ClientShutdown));
    let msgs = n.take_messages();
    assert!(matches!(msgs[0], NetworkMessage::Rpc(_, RpcEvent::Request(0, _))));
    assert!(matches!(msgs[1], NetworkMessage::Rpc(_, RpcEvent::Request(9, _))));
    assert!(n.take_messages().is_empty());
}
