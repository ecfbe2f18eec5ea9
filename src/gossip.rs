//! Gossip admission: what to do with the chain engine's verdict on a
//! gossiped block or attestation, and whether one is fit to be relayed.
use vstd::prelude::*;
use crate::hashing::{Hash256, hash_eq};
use crate::sync::GoodbyeReason;

verus! {

/// The chain engine's verdict on a block.
#[derive(Clone, Copy, Debug)]
pub enum BlockOutcome {
    /// The block was imported.
    Processed,
    /// The block's parent is not known.
    ParentUnknown { parent: Hash256 },
    /// Any other validation failure.
    Rejected,
}

/// What the processor does with a gossiped block.
#[derive(Clone, Copy, Debug, PartialEq, Eq, Structural)]
pub enum BlockGossipAction {
    /// Accept it.
    Accept,
    /// Hand the block to the sync manager to find its ancestors.
    QueueUnknownParent,
    /// Drop it and record why.
    Drop,
}

/// What to do with a gossiped block, given the engine's verdict.
pub open spec fn block_gossip_action_spec(outcome: Option<BlockOutcome>) -> BlockGossipAction {
    match outcome {
        Some(BlockOutcome::Processed) => BlockGossipAction::Accept,
        Some(BlockOutcome::ParentUnknown { .. }) => BlockGossipAction::QueueUnknownParent,
        _ => BlockGossipAction::Drop,
    }
}

/// What to do with a gossiped attestation, given the engine's verdict.
pub open spec fn attestation_gossip_action_spec(outcome: Option<AttestationOutcome>) -> AttestationGossipAction {
    match outcome {
        Some(AttestationOutcome::Processed) => AttestationGossipAction::Accept,
        Some(AttestationOutcome::UnknownHeadBlock { beacon_block_root }) =>
            AttestationGossipAction::LookupBlock(beacon_block_root),
        Some(AttestationOutcome::AttestsToFutureState) | Some(AttestationOutcome::FinalizedSlot) =>
            AttestationGossipAction::Ignore,
        Some(AttestationOutcome::Invalid) | Some(AttestationOutcome::EmptyAggregationBitfield) =>
            AttestationGossipAction::Disconnect(GoodbyeReason::Fault),
        None => AttestationGossipAction::LogError,
    }
}

/// Decides on a gossiped block from the engine's verdict; `None` stands for
/// an engine error, after which the block is dropped.
pub fn block_gossip_action(outcome: Option<BlockOutcome>) -> (r: BlockGossipAction)
    ensures
        r == block_gossip_action_spec(outcome),
{
    match outcome {
        Some(BlockOutcome::Processed) => BlockGossipAction::Accept,
        Some(BlockOutcome::ParentUnknown { .. }) => BlockGossipAction::QueueUnknownParent,
        _ => BlockGossipAction::Drop,
    }
}

/// The chain engine's verdict on an attestation.
#[derive(Clone, Copy, Debug)]
pub enum AttestationOutcome {
    Processed,
    UnknownHeadBlock { beacon_block_root: Hash256 },
    AttestsToFutureState,
    FinalizedSlot,
    Invalid,
    EmptyAggregationBitfield,
}

/// What the processor does with a gossiped attestation.
#[derive(Clone, Copy, Debug, PartialEq, Eq)]
pub enum AttestationGossipAction {
    /// Accept it.
    Accept,
    /// Ask the sync manager to find the block with this root.
    LookupBlock(Hash256),
    /// Ignore it silently.
    Ignore,
    /// Disconnect the peer that sent it.
    Disconnect(GoodbyeReason),
    /// The engine failed: record the error, penalize nobody.
    LogError,
}

/// Decides on a gossiped attestation from the engine's verdict; `None`
/// stands for an engine error.
pub fn attestation_gossip_action(outcome: Option<AttestationOutcome>) -> (r: AttestationGossipAction)
    ensures
        r == attestation_gossip_action_spec(outcome),
{
    match outcome {
        Some(AttestationOutcome::Processed) => AttestationGossipAction::Accept,
        Some(AttestationOutcome::UnknownHeadBlock { beacon_block_root }) => {
            AttestationGossipAction::LookupBlock(beacon_block_root)
        },
        Some(AttestationOutcome::AttestsToFutureState) | Some(AttestationOutcome::FinalizedSlot) => {
            AttestationGossipAction::Ignore
        },
        Some(AttestationOutcome::Invalid) | Some(AttestationOutcome::EmptyAggregationBitfield) => {
            AttestationGossipAction::Disconnect(GoodbyeReason::Fault)
        },
        None => AttestationGossipAction::LogError,
    }
}

/// The epoch that holds `slot`.
pub open spec fn epoch_of(slot: u64, slots_per_epoch: u64) -> u64 {
    (slot / slots_per_epoch) as u64
}

/// Whether the state must be advanced slot by slot before the proposer of
/// a block at `block_slot` can be computed: when the block's epoch, plus
/// one, is past the parent's epoch.
pub fn needs_state_advance(block_slot: u64, parent_slot: u64, slots_per_epoch: u64) -> (r: bool)
    requires
        slots_per_epoch > 0,
    ensures
        r == (epoch_of(block_slot, slots_per_epoch) + 1 > epoch_of(parent_slot, slots_per_epoch)),
{
    let block_epoch = block_slot / slots_per_epoch;
    let parent_epoch = parent_slot / slots_per_epoch;
    block_epoch >= parent_epoch
}

/// Whether the chain head's state can stand in for the parent's state: it
/// can when their roots agree, which saves a read from the store.
pub fn reuse_head_state(head_state_root: &Hash256, parent_state_root: &Hash256) -> (r: bool)
    ensures
        r == (head_state_root@ == parent_state_root@),
{
    hash_eq(head_state_root, parent_state_root)
}

/// The results of the steps that decide whether a block is relayed. A step
/// that did not run reads `false`.
#[derive(Clone, Copy, Debug)]
pub struct BlockForwardChecks {
    /// The parent block was found.
    pub parent_found: bool,
    /// A state for the parent was found.
    pub state_found: bool,
    /// The state had to be advanced to the block's slot.
    pub advance_needed: bool,
    /// Every per-slot step of the advance succeeded.
    pub advanced: bool,
    /// The committee cache was built on the advanced state.
    pub committees_built: bool,
    /// A proposer for the block's slot was found in the state.
    pub proposer_found: bool,
    /// The block's signature verified under that proposer's key.
    pub signature_valid: bool,
}

/// Whether a block should be forwarded to other peers, given the outcome
/// of each step: every step that ran must have succeeded, and the
/// signature must be valid.
pub fn should_forward_block(checks: &BlockForwardChecks) -> (r: bool)
    ensures
        r == (checks.parent_found && checks.state_found && (checks.advance_needed ==> (
        checks.advanced && checks.committees_built)) && checks.proposer_found
            && checks.signature_valid),
{
    if !checks.parent_found || !checks.state_found {
        return false;
    }
    if checks.advance_needed && (!checks.advanced || !checks.committees_built) {
        return false;
    }
    checks.proposer_found && checks.signature_valid
}

/// A block is forwarded only when its signature verified under the
/// proposer taken from the state advanced to the block's slot.
pub proof fn lemma_forwarded_block_is_signed(checks: BlockForwardChecks, forwarded: bool)
    requires
        forwarded == (checks.parent_found && checks.state_found && (checks.advance_needed ==> (
        checks.advanced && checks.committees_built)) && checks.proposer_found
            && checks.signature_valid),
        forwarded,
    ensures
        checks.signature_valid,
        checks.proposer_found,
        checks.advance_needed ==> checks.advanced && checks.committees_built,
{
}

/// Whether an attestation should be forwarded: it is when its signature
/// verifies against the head state; otherwise the verdict against the
/// state of the block it attests to decides, and `None` (a missing block,
/// state or indexed form) means no.
pub fn should_forward_attestation(valid_against_head: bool, valid_against_block_state: Option<bool>) -> (r:
    bool)
    ensures
        r == (valid_against_head || valid_against_block_state == Some(true)),
{
    if valid_against_head {
        return true;
    }
    match valid_against_block_state {
        Some(valid) => valid,
        None => false,
    }
}

} // verus!
