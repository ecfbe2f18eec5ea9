//! The event fabric: chain events, handlers that accept them, and the
//! fan-out of head changes into a bounded queue for slow subscribers.
use vstd::prelude::*;
use crate::hashing::Hash256;
use multiqueue2::{MPMCFutReceiver, MPMCFutSender};

verus! {

/// A chain event. Blocks and attestations travel as their serialized bytes.
#[derive(Clone, Debug)]
pub enum EventKind {
    BeaconHeadChanged {
        reorg: bool,
        current_head_beacon_block_root: Hash256,
        previous_head_beacon_block_root: Hash256,
    },
    BeaconFinalization { epoch: u64, root: Hash256 },
    BeaconBlockImported { block_root: Hash256, block: Vec<u8> },
    BeaconBlockRejected { reason: String, block: Vec<u8> },
    BeaconAttestationImported { attestation: Vec<u8> },
    BeaconAttestationRejected { reason: String, attestation: Vec<u8> },
}

/// The new head root that an event announces, if it is a head change.
pub open spec fn announced_head(kind: EventKind) -> Option<Hash256> {
    match kind {
        EventKind::BeaconHeadChanged { current_head_beacon_block_root, .. } => Some(
            current_head_beacon_block_root,
        ),
        _ => None,
    }
}

/// Picks the new head root out of a head-change event; other events give
/// `None`.
pub fn head_change_root(kind: &EventKind) -> (r: Option<Hash256>)
    ensures
        r == announced_head(*kind),
{
    match kind {
        EventKind::BeaconHeadChanged { current_head_beacon_block_root, .. } => Some(
            *current_head_beacon_block_root,
        ),
        _ => None,
    }
}

/// Something that accepts chain events.
pub trait EventHandler {
    fn register(&self, kind: EventKind) -> Result<(), String>;
}

/// Accepts every event and discards it.
#[derive(Clone, Copy, Debug)]
pub struct NullEventHandler;

impl Default for NullEventHandler {
    fn default() -> (r: Self)
        ensures
            r == NullEventHandler,
    {
        NullEventHandler
    }
}

impl EventHandler for NullEventHandler {
    fn register(&self, _kind: EventKind) -> (r: Result<(), String>)
        ensures
            r is Ok,
    {
        Ok(())
    }
}

#[verifier::external_type_specification]
#[verifier::external_body]
#[verifier::reject_recursive_types(T)]
pub struct ExMPMCFutSender<T>(MPMCFutSender<T>);

#[verifier::external_type_specification]
#[verifier::external_body]
#[verifier::reject_recursive_types(T)]
pub struct ExMPMCFutReceiver<T>(MPMCFutReceiver<T>);

/// The capacity that a head-change queue was requested with (the queue
/// rounds it up to a power of two).
pub uninterp spec fn head_queue_bound(q: MPMCFutSender<Hash256>) -> nat;

/// Relies on `multiqueue2::mpmc_fut_queue`: a bounded multi-producer,
/// multi-consumer queue made with the requested `capacity`, which it rounds
/// up to a power of two.
#[verifier::external_body]
fn head_queue(capacity: u64) -> (r: (MPMCFutSender<Hash256>, MPMCFutReceiver<Hash256>))
    requires
        capacity >= 1,
    ensures
        head_queue_bound(r.0) == capacity,
{
    multiqueue2::mpmc_fut_queue(capacity as _)
}

/// Relies on `MPMCFutSender::try_send`: it never blocks, and it refuses the
/// value when the queue is full or has no reader. Whether it takes the value
/// depends on the readers, so nothing is promised of the answer.
#[verifier::external_body]
fn try_send_head(sender: &MPMCFutSender<Hash256>, root: Hash256) -> (accepted: bool) {
    sender.try_send(root).is_ok()
}

/// Fans head changes out to subscribers through a bounded queue with room
/// for one epoch of slots; other events are dropped. A full queue drops the
/// change: head changes are observations that a later one replaces.
///
/// The sender is not `Sync`; a handler shared between producers is held
/// behind a mutex, whose critical section is the one non-blocking enqueue.
pub struct ServerSentEvents {
    head_changed_queue_sender: MPMCFutSender<Hash256>,
}

impl ServerSentEvents {
    /// The capacity that the head-change queue was requested with.
    pub closed spec fn queue_bound(&self) -> nat {
        head_queue_bound(self.head_changed_queue_sender)
    }

    /// Creates the handler and the receiving end of its queue, which is
    /// requested with room for `slots_per_epoch` head changes.
    pub fn new(slots_per_epoch: u64) -> (r: (Self, MPMCFutReceiver<Hash256>))
        requires
            slots_per_epoch >= 1,
        ensures
            r.0.queue_bound() == slots_per_epoch,
    {
        let (sender, receiver) = head_queue(slots_per_epoch);
        (ServerSentEvents { head_changed_queue_sender: sender }, receiver)
    }

    /// Offers `root` to the queue without blocking; `false` means it was
    /// dropped.
    pub fn enqueue_head_change(&self, root: Hash256) -> (delivered: bool) {
        try_send_head(&self.head_changed_queue_sender, root)
    }
}

impl EventHandler for ServerSentEvents {
    fn register(&self, kind: EventKind) -> (r: Result<(), String>)
        ensures
            r is Ok,
    {
        match head_change_root(&kind) {
            Some(root) => {
                let _delivered = self.enqueue_head_change(root);
            },
            None => {},
        }
        Ok(())
    }
}

} // verus!
