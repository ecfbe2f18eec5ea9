//! The message processor: turns network events into messages for the
//! network service and for the sync manager. Reads of the chain and the
//! store are made by the caller, which hands their results in, and the
//! caller delivers what the processor queues.
use vstd::prelude::*;
use crate::hashing::Hash256;
use crate::sync::{
    GoodbyeReason, PeerClass, PeerSyncInfo, StatusMessage, StatusAction, action_of_class,
    classify_peer, classify_spec, status_action,
};
use crate::server::{
    BlocksByRangeRequest, BlocksByRootRequest, ResponseChunk, ResponseTermination, StoredBlock,
    ascending_in_range, blocks_by_range_response, blocks_by_root_response, range_blocks, range_chunks,
    root_chunks,
};
use crate::gossip::{
    AttestationGossipAction, AttestationOutcome, BlockForwardChecks, BlockGossipAction, BlockOutcome,
    attestation_gossip_action, attestation_gossip_action_spec, block_gossip_action,
    block_gossip_action_spec,
};

verus! {

/// The transport's handle for a connected peer.
#[derive(Clone, Copy, Debug, PartialEq, Eq, Structural)]
pub struct PeerId {
    pub index: u64,
}

/// A requester's correlation token; `0` where none is needed.
pub type RequestId = u64;

/// A request sent to a peer.
#[derive(Clone, Debug)]
pub enum RpcRequest {
    Status(StatusMessage),
    Goodbye(GoodbyeReason),
    BlocksByRange(BlocksByRangeRequest),
    BlocksByRoot(BlocksByRootRequest),
}

/// A successful response to a peer.
#[derive(Clone, Debug)]
pub enum RpcResponse {
    Status(StatusMessage),
    BlocksByRange(Vec<u8>),
    BlocksByRoot(Vec<u8>),
}

/// A response chunk, a failure or the end of a stream.
#[derive(Clone, Debug)]
pub enum RpcErrorResponse {
    Success(RpcResponse),
    StreamTermination(ResponseTermination),
}

/// An RPC message to a peer.
#[derive(Clone, Debug)]
pub enum RpcEvent {
    Request(RequestId, RpcRequest),
    Response(RequestId, RpcErrorResponse),
}

/// A message for the network service.
#[derive(Clone, Debug)]
pub enum NetworkMessage {
    Rpc(PeerId, RpcEvent),
    Disconnect { peer_id: PeerId },
}

/// A message for the sync manager.
#[derive(Clone, Debug)]
pub enum SyncMessage {
    AddPeer(PeerId, PeerSyncInfo),
    Disconnect(PeerId),
    RPCError(PeerId, RequestId),
    BlocksByRangeResponse { peer_id: PeerId, request_id: RequestId, beacon_block: Option<Vec<u8>> },
    BlocksByRootResponse { peer_id: PeerId, request_id: RequestId, beacon_block: Option<Vec<u8>> },
    UnknownBlock(PeerId, Vec<u8>),
    UnknownBlockHash(PeerId, Hash256),
}

/// The messages that put `reason` to a peer and drop it.
pub open spec fn disconnect_messages(peer_id: PeerId, reason: GoodbyeReason) -> Seq<NetworkMessage> {
    seq![
        NetworkMessage::Rpc(peer_id, RpcEvent::Request(0, RpcRequest::Goodbye(reason))),
        NetworkMessage::Disconnect { peer_id },
    ]
}

/// The network messages that carry the chunks of a response stream.
pub open spec fn stream_messages(peer_id: PeerId, request_id: RequestId, chunks: Seq<ResponseChunk>) -> Seq<
    NetworkMessage,
> {
    chunks.map_values(|c: ResponseChunk| chunk_message(peer_id, request_id, c))
}

/// The network message that carries one chunk of a response stream.
pub open spec fn chunk_message(peer_id: PeerId, request_id: RequestId, chunk: ResponseChunk) -> NetworkMessage {
    match chunk {
        ResponseChunk::BlocksByRange(bytes) => NetworkMessage::Rpc(
            peer_id,
            RpcEvent::Response(request_id, RpcErrorResponse::Success(RpcResponse::BlocksByRange(bytes))),
        ),
        ResponseChunk::BlocksByRoot(bytes) => NetworkMessage::Rpc(
            peer_id,
            RpcEvent::Response(request_id, RpcErrorResponse::Success(RpcResponse::BlocksByRoot(bytes))),
        ),
        ResponseChunk::StreamTermination(kind) => NetworkMessage::Rpc(
            peer_id,
            RpcEvent::Response(request_id, RpcErrorResponse::StreamTermination(kind)),
        ),
    }
}

/// Queues RPC traffic for the network service, in order.
pub struct NetworkContext {
    outbox: Vec<NetworkMessage>,
}

impl NetworkContext {
    /// The messages queued so far, oldest first.
    pub closed spec fn sent(&self) -> Seq<NetworkMessage> {
        self.outbox@
    }

    pub fn new() -> (r: Self)
        ensures
            r.sent() == Seq::<NetworkMessage>::empty(),
    {
        NetworkContext { outbox: Vec::new() }
    }

    /// Says goodbye to a peer with `reason`, then asks the network service
    /// to drop it.
    pub fn disconnect(&mut self, peer_id: PeerId, reason: GoodbyeReason)
        ensures
            final(self).sent() == old(self).sent() + disconnect_messages(peer_id, reason),
    {
        self.send_rpc_request(None, peer_id, RpcRequest::Goodbye(reason));
        self.outbox.push(NetworkMessage::Disconnect { peer_id });
        assert(self.sent() =~= old(self).sent() + disconnect_messages(peer_id, reason));
    }

    /// Sends a request; without a request id, `0` is used.
    pub fn send_rpc_request(&mut self, request_id: Option<RequestId>, peer_id: PeerId, rpc_request: RpcRequest)
        ensures
            final(self).sent() == old(self).sent().push(
                NetworkMessage::Rpc(
                    peer_id,
                    RpcEvent::Request(
                        match request_id {
                            Some(id) => id,
                            None => 0,
                        },
                        rpc_request,
                    ),
                ),
            ),
    {
        let request_id = match request_id {
            Some(id) => id,
            None => 0,
        };
        self.send_rpc_event(peer_id, RpcEvent::Request(request_id, rpc_request));
    }

    /// Sends a successful response.
    pub fn send_rpc_response(&mut self, peer_id: PeerId, request_id: RequestId, rpc_response: RpcResponse)
        ensures
            final(self).sent() == old(self).sent().push(
                NetworkMessage::Rpc(
                    peer_id,
                    RpcEvent::Response(request_id, RpcErrorResponse::Success(rpc_response)),
                ),
            ),
    {
        self.send_rpc_event(
            peer_id,
            RpcEvent::Response(request_id, RpcErrorResponse::Success(rpc_response)),
        );
    }

    /// Sends an error response or a stream termination.
    pub fn send_rpc_error_response(
        &mut self,
        peer_id: PeerId,
        request_id: RequestId,
        rpc_error_response: RpcErrorResponse,
    )
        ensures
            final(self).sent() == old(self).sent().push(
                NetworkMessage::Rpc(peer_id, RpcEvent::Response(request_id, rpc_error_response)),
            ),
    {
        self.send_rpc_event(peer_id, RpcEvent::Response(request_id, rpc_error_response));
    }

    fn send_rpc_event(&mut self, peer_id: PeerId, rpc_event: RpcEvent)
        ensures
            final(self).sent() == old(self).sent().push(NetworkMessage::Rpc(peer_id, rpc_event)),
    {
        self.outbox.push(NetworkMessage::Rpc(peer_id, rpc_event));
    }

    /// Hands over the queued messages, oldest first, and empties the queue.
    pub fn take_messages(&mut self) -> (r: Vec<NetworkMessage>)
        ensures
            r@ == old(self).sent(),
            final(self).sent() == Seq::<NetworkMessage>::empty(),
    {
        let mut taken: Vec<NetworkMessage> = Vec::new();
        core::mem::swap(&mut taken, &mut self.outbox);
        taken
    }
}

/// What the caller read from its chain and store to judge a peer's status.
#[derive(Clone, Copy, Debug)]
pub struct StatusLookups {
    /// Our slot clock, or `None` where it cannot be read.
    pub local_slot: Option<u64>,
    /// Our block root at the first slot of the peer's finalized epoch, or
    /// `None` where it could not be read.
    pub root_at_finalized: Option<Hash256>,
    /// Whether our store holds the peer's head block.
    pub head_known: bool,
}

/// The peer-sync information built from a status.
pub open spec fn peer_info(status: StatusMessage) -> PeerSyncInfo {
    PeerSyncInfo {
        fork_version: status.fork_version,
        finalized_root: status.finalized_root,
        finalized_epoch: status.finalized_epoch,
        head_root: status.head_root,
        head_slot: status.head_slot,
    }
}

/// The class that a peer's status gets against our own.
pub open spec fn status_class(local: StatusMessage, remote: StatusMessage, lookups: StatusLookups) -> PeerClass {
    classify_spec(
        peer_info(local),
        peer_info(remote),
        lookups.local_slot,
        lookups.root_at_finalized,
        lookups.head_known,
    )
}

/// Processes messages from the network, queueing what goes back to the
/// network service and what goes to the sync manager.
pub struct MessageProcessor {
    network: NetworkContext,
    sync_outbox: Vec<SyncMessage>,
}

impl MessageProcessor {
    /// The messages queued for the network service, oldest first.
    pub closed spec fn network_sent(&self) -> Seq<NetworkMessage> {
        self.network.sent()
    }

    /// The messages queued for the sync manager, oldest first.
    pub closed spec fn sync_sent(&self) -> Seq<SyncMessage> {
        self.sync_outbox@
    }

    pub fn new() -> (r: Self)
        ensures
            r.network_sent() == Seq::<NetworkMessage>::empty(),
            r.sync_sent() == Seq::<SyncMessage>::empty(),
    {
        MessageProcessor { network: NetworkContext::new(), sync_outbox: Vec::new() }
    }

    fn send_to_sync(&mut self, message: SyncMessage)
        ensures
            final(self).sync_sent() == old(self).sync_sent().push(message),
            final(self).network_sent() == old(self).network_sent(),
    {
        self.sync_outbox.push(message);
    }

    /// Hands over the messages for the network service and empties that queue.
    pub fn take_network_messages(&mut self) -> (r: Vec<NetworkMessage>)
        ensures
            r@ == old(self).network_sent(),
            final(self).network_sent() == Seq::<NetworkMessage>::empty(),
            final(self).sync_sent() == old(self).sync_sent(),
    {
        self.network.take_messages()
    }

    /// Hands over the messages for the sync manager and empties that queue.
    pub fn take_sync_messages(&mut self) -> (r: Vec<SyncMessage>)
        ensures
            r@ == old(self).sync_sent(),
            final(self).sync_sent() == Seq::<SyncMessage>::empty(),
            final(self).network_sent() == old(self).network_sent(),
    {
        let mut taken: Vec<SyncMessage> = Vec::new();
        core::mem::swap(&mut taken, &mut self.sync_outbox);
        taken
    }

    /// Handle a peer disconnect: the sync manager forgets the peer.
    pub fn on_disconnect(&mut self, peer_id: PeerId)
        ensures
            final(self).sync_sent() == old(self).sync_sent().push(SyncMessage::Disconnect(peer_id)),
            final(self).network_sent() == old(self).network_sent(),
    {
        self.send_to_sync(SyncMessage::Disconnect(peer_id));
    }

    /// An RPC request failed: the sync manager, which tracks requests, is told.
    pub fn on_rpc_error(&mut self, peer_id: PeerId, request_id: RequestId)
        ensures
            final(self).sync_sent() == old(self).sync_sent().push(
                SyncMessage::RPCError(peer_id, request_id),
            ),
            final(self).network_sent() == old(self).network_sent(),
    {
        self.send_to_sync(SyncMessage::RPCError(peer_id, request_id));
    }

    /// Handle the connection of a new peer: send it our status.
    pub fn on_connect(&mut self, peer_id: PeerId, local: StatusMessage)
        ensures
            final(self).network_sent() == old(self).network_sent().push(
                NetworkMessage::Rpc(peer_id, RpcEvent::Request(0, RpcRequest::Status(local))),
            ),
            final(self).sync_sent() == old(self).sync_sent(),
    {
        self.network.send_rpc_request(None, peer_id, RpcRequest::Status(local));
    }

    /// Handle a `Status` request: answer with our status, then judge the
    /// peer's.
    pub fn on_status_request(
        &mut self,
        peer_id: PeerId,
        request_id: RequestId,
        status: StatusMessage,
        local: StatusMessage,
        lookups: StatusLookups,
    )
        ensures
            final(self).network_sent() == old(self).network_sent().push(
                NetworkMessage::Rpc(
                    peer_id,
                    RpcEvent::Response(request_id, RpcErrorResponse::Success(RpcResponse::Status(local))),
                ),
            ) + status_network_messages(peer_id, status, local, lookups),
            final(self).sync_sent() == old(self).sync_sent() + status_sync_messages(
                peer_id,
                status,
                local,
                lookups,
            ),
    {
        self.network.send_rpc_response(peer_id, request_id, RpcResponse::Status(local));
        self.process_status(peer_id, status, local, lookups);
    }

    /// Handle a `Status` response: judge the peer's status without
    /// answering.
    pub fn on_status_response(
        &mut self,
        peer_id: PeerId,
        status: StatusMessage,
        local: StatusMessage,
        lookups: StatusLookups,
    )
        ensures
            final(self).network_sent() == old(self).network_sent() + status_network_messages(
                peer_id,
                status,
                local,
                lookups,
            ),
            final(self).sync_sent() == old(self).sync_sent() + status_sync_messages(
                peer_id,
                status,
                local,
                lookups,
            ),
    {
        self.process_status(peer_id, status, local, lookups);
    }

    /// Judges a peer's status against `local`, a fresh snapshot of our
    /// head, and disconnects the peer, ignores it, or hands it to the sync
    /// manager.
    fn process_status(&mut self, peer_id: PeerId, status: StatusMessage, local: StatusMessage, lookups: StatusLookups)
        ensures
            final(self).network_sent() == old(self).network_sent() + status_network_messages(
                peer_id,
                status,
                local,
                lookups,
            ),
            final(self).sync_sent() == old(self).sync_sent() + status_sync_messages(
                peer_id,
                status,
                local,
                lookups,
            ),
    {
        let remote = PeerSyncInfo::from(status);
        let mine = PeerSyncInfo::from(local);
        let class = classify_peer(
            &mine,
            &remote,
            lookups.local_slot,
            lookups.root_at_finalized,
            lookups.head_known,
        );
        match status_action(class) {
            StatusAction::Disconnect(reason) => {
                self.network.disconnect(peer_id, reason);
                assert(self.sync_sent() =~= old(self).sync_sent() + Seq::<SyncMessage>::empty());
            },
            StatusAction::Ignore => {
                assert(self.sync_sent() =~= old(self).sync_sent() + Seq::<SyncMessage>::empty());
                assert(self.network_sent() =~= old(self).network_sent() + Seq::<NetworkMessage>::empty());
            },
            StatusAction::AddPeer => {
                self.send_to_sync(SyncMessage::AddPeer(peer_id, remote));
                assert(self.sync_sent() =~= old(self).sync_sent() + seq![SyncMessage::AddPeer(peer_id, remote)]);
                assert(self.network_sent() =~= old(self).network_sent() + Seq::<NetworkMessage>::empty());
            },
        }
    }

    /// Handle a `BlocksByRoot` request, given the store's answer for each
    /// requested root: every block found is sent, then the stream ends.
    pub fn on_blocks_by_root_request(&mut self, peer_id: PeerId, request_id: RequestId, found: Vec<Option<Vec<u8>>>)
        ensures
            final(self).network_sent() == old(self).network_sent() + stream_messages(
                peer_id,
                request_id,
                root_chunks(found@).push(ResponseChunk::StreamTermination(ResponseTermination::BlocksByRoot)),
            ),
            final(self).sync_sent() == old(self).sync_sent(),
    {
        let chunks = blocks_by_root_response(found);
        self.send_stream(peer_id, request_id, chunks);
    }

    /// Handle a `BlocksByRange` request, given the blocks fetched for the
    /// candidate roots in the chain's descending order: one block per slot
    /// is sent, in ascending order, then the stream ends.
    pub fn on_blocks_by_range_request(
        &mut self,
        peer_id: PeerId,
        request_id: RequestId,
        req: BlocksByRangeRequest,
        fetched: Vec<Option<StoredBlock>>,
    )
        ensures
            final(self).network_sent() == old(self).network_sent() + stream_messages(
                peer_id,
                request_id,
                range_chunks(range_blocks(fetched@, req)).push(
                    ResponseChunk::StreamTermination(ResponseTermination::BlocksByRange),
                ),
            ),
            ascending_in_range(range_blocks(fetched@, req), req),
            final(self).sync_sent() == old(self).sync_sent(),
    {
        let chunks = blocks_by_range_response(fetched, &req);
        self.send_stream(peer_id, request_id, chunks);
    }

    /// Sends the chunks of a response stream in order.
    fn send_stream(&mut self, peer_id: PeerId, request_id: RequestId, chunks: Vec<ResponseChunk>)
        ensures
            final(self).network_sent() == old(self).network_sent() + stream_messages(
                peer_id,
                request_id,
                chunks@,
            ),
            final(self).sync_sent() == old(self).sync_sent(),
    {
        let ghost all = chunks@;
        let mut rest = chunks;
        while rest.len() > 0
            invariant
                self.network_sent() + stream_messages(peer_id, request_id, rest@) == old(
                    self,
                ).network_sent() + stream_messages(peer_id, request_id, all),
                self.sync_sent() == old(self).sync_sent(),
            decreases rest.len(),
        {
            let ghost before = rest@;
            let ghost sent_before = self.network_sent();
            let chunk = rest.remove(0);
            let ghost c = chunk;
            match chunk {
                ResponseChunk::BlocksByRange(bytes) => {
                    self.network.send_rpc_response(peer_id, request_id, RpcResponse::BlocksByRange(bytes));
                },
                ResponseChunk::BlocksByRoot(bytes) => {
                    self.network.send_rpc_response(peer_id, request_id, RpcResponse::BlocksByRoot(bytes));
                },
                ResponseChunk::StreamTermination(kind) => {
                    self.network.send_rpc_error_response(
                        peer_id,
                        request_id,
                        RpcErrorResponse::StreamTermination(kind),
                    );
                },
            }
            proof {
                assert(self.network_sent() == sent_before.push(chunk_message(peer_id, request_id, c)));
                assert(stream_messages(peer_id, request_id, before) =~= seq![
                    chunk_message(peer_id, request_id, c),
                ] + stream_messages(peer_id, request_id, rest@));
                assert(self.network_sent() + stream_messages(peer_id, request_id, rest@) =~= sent_before
                    + stream_messages(peer_id, request_id, before));
            }
        }
        proof {
            assert(stream_messages(peer_id, request_id, rest@) =~= Seq::<NetworkMessage>::empty());
            assert(self.network_sent() + Seq::<NetworkMessage>::empty() =~= self.network_sent());
        }
    }

    /// Handle a block of a `BlocksByRange` response; `None` ends the stream.
    pub fn on_blocks_by_range_response(&mut self, peer_id: PeerId, request_id: RequestId, beacon_block: Option<Vec<u8>>)
        ensures
            final(self).sync_sent() == old(self).sync_sent().push(
                SyncMessage::BlocksByRangeResponse { peer_id, request_id, beacon_block },
            ),
            final(self).network_sent() == old(self).network_sent(),
    {
        self.send_to_sync(SyncMessage::BlocksByRangeResponse { peer_id, request_id, beacon_block });
    }

    /// Handle a block of a `BlocksByRoot` response; `None` ends the stream.
    pub fn on_blocks_by_root_response(&mut self, peer_id: PeerId, request_id: RequestId, beacon_block: Option<Vec<u8>>)
        ensures
            final(self).sync_sent() == old(self).sync_sent().push(
                SyncMessage::BlocksByRootResponse { peer_id, request_id, beacon_block },
            ),
            final(self).network_sent() == old(self).network_sent(),
    {
        self.send_to_sync(SyncMessage::BlocksByRootResponse { peer_id, request_id, beacon_block });
    }

    /// Handle a gossiped block, given the chain engine's verdict (`None` for
    /// an engine error): a block whose parent is unknown goes to the sync
    /// manager, which looks for its ancestors.
    pub fn on_block_gossip(&mut self, peer_id: PeerId, block: Vec<u8>, outcome: Option<BlockOutcome>) -> (r:
        BlockGossipAction)
        ensures
            r == block_gossip_action_spec(outcome),
            r == BlockGossipAction::QueueUnknownParent ==> final(self).sync_sent() == old(
                self,
            ).sync_sent().push(SyncMessage::UnknownBlock(peer_id, block)),
            r != BlockGossipAction::QueueUnknownParent ==> final(self).sync_sent() == old(
                self,
            ).sync_sent(),
            final(self).network_sent() == old(self).network_sent(),
    {
        let action = block_gossip_action(outcome);
        match action {
            BlockGossipAction::QueueUnknownParent => {
                self.send_to_sync(SyncMessage::UnknownBlock(peer_id, block));
            },
            _ => {},
        }
        action
    }

    /// Whether a block is fit to be relayed; see `gossip::should_forward_block`.
    pub fn should_forward_block(&self, checks: &BlockForwardChecks) -> (r: bool)
        ensures
            r == (checks.parent_found && checks.state_found && (checks.advance_needed ==> (
            checks.advanced && checks.committees_built)) && checks.proposer_found
                && checks.signature_valid),
    {
        crate::gossip::should_forward_block(checks)
    }

    /// Handle a gossiped attestation, given the chain engine's verdict
    /// (`None` for an engine error): an unknown head block is looked up by
    /// the sync manager, and a peer that sent an invalid attestation is
    /// disconnected.
    pub fn on_attestation_gossip(&mut self, peer_id: PeerId, outcome: Option<AttestationOutcome>) -> (r:
        AttestationGossipAction)
        ensures
            r == attestation_gossip_action_spec(outcome),
            match r {
                AttestationGossipAction::LookupBlock(root) => {
                    &&& final(self).sync_sent() == old(self).sync_sent().push(
                        SyncMessage::UnknownBlockHash(peer_id, root),
                    )
                    &&& final(self).network_sent() == old(self).network_sent()
                },
                AttestationGossipAction::Disconnect(reason) => {
                    &&& final(self).sync_sent() == old(self).sync_sent()
                    &&& final(self).network_sent() == old(self).network_sent() + disconnect_messages(
                        peer_id,
                        reason,
                    )
                },
                _ => {
                    &&& final(self).sync_sent() == old(self).sync_sent()
                    &&& final(self).network_sent() == old(self).network_sent()
                },
            },
    {
        let action = attestation_gossip_action(outcome);
        match action {
            AttestationGossipAction::LookupBlock(root) => {
                self.send_to_sync(SyncMessage::UnknownBlockHash(peer_id, root));
            },
            AttestationGossipAction::Disconnect(reason) => {
                self.network.disconnect(peer_id, reason);
            },
            _ => {},
        }
        action
    }

    /// Whether an attestation is fit to be relayed; see
    /// `gossip::should_forward_attestation`.
    pub fn should_forward_attestation(&self, valid_against_head: bool, valid_against_block_state: Option<bool>) -> (r:
        bool)
        ensures
            r == (valid_against_head || valid_against_block_state == Some(true)),
    {
        crate::gossip::should_forward_attestation(valid_against_head, valid_against_block_state)
    }
}

/// The network messages that judging a status queues.
pub open spec fn status_network_messages(
    peer_id: PeerId,
    status: StatusMessage,
    local: StatusMessage,
    lookups: StatusLookups,
) -> Seq<NetworkMessage> {
    match action_of_class(status_class(local, status, lookups)) {
        StatusAction::Disconnect(reason) => disconnect_messages(peer_id, reason),
        _ => Seq::empty(),
    }
}

/// The sync-manager messages that judging a status queues.
pub open spec fn status_sync_messages(
    peer_id: PeerId,
    status: StatusMessage,
    local: StatusMessage,
    lookups: StatusLookups,
) -> Seq<SyncMessage> {
    match action_of_class(status_class(local, status, lookups)) {
        StatusAction::AddPeer => seq![SyncMessage::AddPeer(peer_id, peer_info(status))],
        _ => Seq::empty(),
    }
}

} // verus!
