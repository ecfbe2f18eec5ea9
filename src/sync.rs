//! Peer sync information and the status handshake: the snapshot that two
//! peers exchange and the ordered rules that decide what to do with a peer.
use vstd::prelude::*;
use crate::hashing::{Hash256, hash_eq, zero_bytes, zero_hash256};

verus! {

/// How far ahead of our slot clock a peer's head may be.
pub const FUTURE_SLOT_TOLERANCE: u64 = 1;

/// The snapshot a node sends on connection.
#[derive(Clone, Copy, Debug)]
pub struct StatusMessage {
    pub fork_version: [u8; 4],
    pub finalized_root: Hash256,
    pub finalized_epoch: u64,
    pub head_root: Hash256,
    pub head_slot: u64,
}

/// Keeps track of syncing information for known connected peers.
#[derive(Clone, Copy, Debug)]
pub struct PeerSyncInfo {
    pub fork_version: [u8; 4],
    pub finalized_root: Hash256,
    pub finalized_epoch: u64,
    pub head_root: Hash256,
    pub head_slot: u64,
}

impl From<StatusMessage> for PeerSyncInfo {
    fn from(status: StatusMessage) -> (r: PeerSyncInfo) {
        PeerSyncInfo {
            fork_version: status.fork_version,
            finalized_root: status.finalized_root,
            finalized_epoch: status.finalized_epoch,
            head_root: status.head_root,
            head_slot: status.head_slot,
        }
    }
}

impl vstd::std_specs::convert::FromSpecImpl<StatusMessage> for PeerSyncInfo {
    open spec fn obeys_from_spec() -> bool {
        true
    }

    open spec fn from_spec(status: StatusMessage) -> PeerSyncInfo {
        PeerSyncInfo {
            fork_version: status.fork_version,
            finalized_root: status.finalized_root,
            finalized_epoch: status.finalized_epoch,
            head_root: status.head_root,
            head_slot: status.head_slot,
        }
    }
}

/// What the local chain's head shows, read once.
#[derive(Clone, Copy, Debug)]
pub struct HeadSnapshot {
    /// The current fork version of the head state.
    pub fork_version: [u8; 4],
    /// The head state's finalized checkpoint.
    pub finalized_epoch: u64,
    pub finalized_root: Hash256,
    /// The root of the head block.
    pub head_block_root: Hash256,
    /// The slot of the head state.
    pub head_slot: u64,
}

/// Build a `StatusMessage` representing the given chain head.
pub fn status_message(head: &HeadSnapshot) -> (r: StatusMessage)
    ensures
        r.fork_version@ == head.fork_version@,
        r.finalized_root == head.finalized_root,
        r.finalized_epoch == head.finalized_epoch,
        r.head_root == head.head_block_root,
        r.head_slot == head.head_slot,
{
    StatusMessage {
        fork_version: head.fork_version,
        finalized_root: head.finalized_root,
        finalized_epoch: head.finalized_epoch,
        head_root: head.head_block_root,
        head_slot: head.head_slot,
    }
}

/// The first slot of `epoch`, saturating at the largest slot.
pub open spec fn start_slot_spec(epoch: u64, slots_per_epoch: u64) -> u64 {
    if epoch * slots_per_epoch > u64::MAX {
        u64::MAX
    } else {
        (epoch * slots_per_epoch) as u64
    }
}

/// The first slot of `epoch`, saturating at the largest slot.
pub fn start_slot(epoch: u64, slots_per_epoch: u64) -> (r: u64)
    ensures
        r == start_slot_spec(epoch, slots_per_epoch),
{
    if slots_per_epoch != 0 && epoch > u64::MAX / slots_per_epoch {
        proof {
            assert(epoch * slots_per_epoch > u64::MAX) by (nonlinear_arith)
                requires
                    slots_per_epoch > 0,
                    epoch > u64::MAX / slots_per_epoch,
            ;
        }
        u64::MAX
    } else {
        proof {
            assert(epoch * slots_per_epoch <= u64::MAX) by (nonlinear_arith)
                requires
                    slots_per_epoch == 0 || epoch <= u64::MAX / slots_per_epoch,
            ;
        }
        epoch * slots_per_epoch
    }
}

/// The reason given to a peer on disconnection.
#[derive(Clone, Copy, Debug, PartialEq, Eq, Structural)]
pub enum GoodbyeReason {
    ClientShutdown,
    IrrelevantNetwork,
    Fault,
}

/// How a peer's status compares with ours; one per rule of the handshake.
#[derive(Clone, Copy, Debug, PartialEq, Eq, Structural)]
pub enum PeerClass {
    /// The peer is on another network or fork.
    ForkMismatch,
    /// The peer's head is too far ahead of our slot clock.
    ClockSkew,
    /// The peer finalized a block that our chain does not hold.
    FinalizedMismatch,
    /// The peer has finalized less than we have: nothing to learn from it.
    NaivePeer,
    /// We already hold the peer's head.
    KnownChain,
    /// The peer holds blocks we lack.
    UsefulPeer,
}

/// What the processor does with a peer after its status arrives.
#[derive(Clone, Copy, Debug, PartialEq, Eq, Structural)]
pub enum StatusAction {
    Disconnect(GoodbyeReason),
    Ignore,
    AddPeer,
}

/// Our slot, or slot 0 when the slot clock cannot be read.
pub open spec fn slot_or_zero(local_slot: Option<u64>) -> u64 {
    match local_slot {
        Some(s) => s,
        None => 0,
    }
}

/// The largest head slot accepted from a peer.
pub open spec fn max_peer_head_slot(local_slot: Option<u64>) -> u64 {
    if slot_or_zero(local_slot) + FUTURE_SLOT_TOLERANCE > u64::MAX {
        u64::MAX
    } else {
        (slot_or_zero(local_slot) + FUTURE_SLOT_TOLERANCE) as u64
    }
}

/// Whether rule `rule` (1 to 6) of the handshake holds, taken alone.
/// `root_at_finalized` is our chain's block root at the first slot of the
/// peer's finalized epoch (`None` where it could not be read), and
/// `head_known` says whether our store holds the peer's head block.
pub open spec fn rule_holds(
    rule: nat,
    local: PeerSyncInfo,
    remote: PeerSyncInfo,
    local_slot: Option<u64>,
    root_at_finalized: Option<Hash256>,
    head_known: bool,
) -> bool {
    if rule == 1 {
        local.fork_version@ != remote.fork_version@
    } else if rule == 2 {
        remote.head_slot > max_peer_head_slot(local_slot)
    } else if rule == 3 {
        &&& remote.finalized_epoch <= local.finalized_epoch
        &&& remote.finalized_root@ != zero_bytes()
        &&& local.finalized_root@ != zero_bytes()
        &&& match root_at_finalized {
            Some(root) => root@ != remote.finalized_root@,
            None => true,
        }
    } else if rule == 4 {
        remote.finalized_epoch < local.finalized_epoch
    } else if rule == 5 {
        head_known
    } else {
        rule == 6
    }
}

/// Rule `rule` is the first that holds.
pub open spec fn rule_decides(
    rule: nat,
    local: PeerSyncInfo,
    remote: PeerSyncInfo,
    local_slot: Option<u64>,
    root_at_finalized: Option<Hash256>,
    head_known: bool,
) -> bool {
    &&& 1 <= rule <= 6
    &&& rule_holds(rule, local, remote, local_slot, root_at_finalized, head_known)
    &&& forall|earlier: nat|
        1 <= earlier < rule ==> !#[trigger] rule_holds(
            earlier,
            local,
            remote,
            local_slot,
            root_at_finalized,
            head_known,
        )
}

/// The class that the first rule to hold gives.
pub open spec fn classify_spec(
    local: PeerSyncInfo,
    remote: PeerSyncInfo,
    local_slot: Option<u64>,
    root_at_finalized: Option<Hash256>,
    head_known: bool,
) -> PeerClass {
    if rule_holds(1, local, remote, local_slot, root_at_finalized, head_known) {
        PeerClass::ForkMismatch
    } else if rule_holds(2, local, remote, local_slot, root_at_finalized, head_known) {
        PeerClass::ClockSkew
    } else if rule_holds(3, local, remote, local_slot, root_at_finalized, head_known) {
        PeerClass::FinalizedMismatch
    } else if rule_holds(4, local, remote, local_slot, root_at_finalized, head_known) {
        PeerClass::NaivePeer
    } else if rule_holds(5, local, remote, local_slot, root_at_finalized, head_known) {
        PeerClass::KnownChain
    } else {
        PeerClass::UsefulPeer
    }
}

/// The action that the handshake takes for each class.
pub open spec fn action_of_class(class: PeerClass) -> StatusAction {
    match class {
        PeerClass::ForkMismatch | PeerClass::ClockSkew | PeerClass::FinalizedMismatch =>
            StatusAction::Disconnect(GoodbyeReason::IrrelevantNetwork),
        PeerClass::NaivePeer => StatusAction::Ignore,
        PeerClass::KnownChain | PeerClass::UsefulPeer => StatusAction::AddPeer,
    }
}

/// The rule behind each class.
pub open spec fn rule_of_class(class: PeerClass) -> nat {
    match class {
        PeerClass::ForkMismatch => 1,
        PeerClass::ClockSkew => 2,
        PeerClass::FinalizedMismatch => 3,
        PeerClass::NaivePeer => 4,
        PeerClass::KnownChain => 5,
        PeerClass::UsefulPeer => 6,
    }
}

/// Whether two hashes hold the same bytes.
fn roots_equal(a: &Hash256, b: &Hash256) -> (r: bool)
    ensures
        r == (a@ == b@),
{
    hash_eq(a, b)
}

/// Classifies a peer by its status against ours: the first rule that
/// holds decides.
pub fn classify_peer(
    local: &PeerSyncInfo,
    remote: &PeerSyncInfo,
    local_slot: Option<u64>,
    root_at_finalized: Option<Hash256>,
    head_known: bool,
) -> (r: PeerClass)
    ensures
        r == classify_spec(*local, *remote, local_slot, root_at_finalized, head_known),
        rule_decides(rule_of_class(r), *local, *remote, local_slot, root_at_finalized, head_known),
{
    let zero = zero_hash256();
    let slot = match local_slot {
        Some(s) => s,
        None => 0,
    };
    let fork_differs = !(local.fork_version[0] == remote.fork_version[0]
        && local.fork_version[1] == remote.fork_version[1]
        && local.fork_version[2] == remote.fork_version[2]
        && local.fork_version[3] == remote.fork_version[3]);
    proof {
        if !fork_differs {
            assert(local.fork_version@ =~= remote.fork_version@);
        }
    }
    if fork_differs {
        assert(rule_decides(1, *local, *remote, local_slot, root_at_finalized, head_known));
        return PeerClass::ForkMismatch;
    }
    if remote.head_slot > slot.saturating_add(FUTURE_SLOT_TOLERANCE) {
        assert(rule_decides(2, *local, *remote, local_slot, root_at_finalized, head_known));
        return PeerClass::ClockSkew;
    }
    let root_mismatch = match &root_at_finalized {
        Some(root) => !roots_equal(root, &remote.finalized_root),
        None => true,
    };
    if remote.finalized_epoch <= local.finalized_epoch && !roots_equal(&remote.finalized_root, &zero)
        && !roots_equal(&local.finalized_root, &zero) && root_mismatch {
        assert(rule_decides(3, *local, *remote, local_slot, root_at_finalized, head_known));
        return PeerClass::FinalizedMismatch;
    }
    if remote.finalized_epoch < local.finalized_epoch {
        assert(rule_decides(4, *local, *remote, local_slot, root_at_finalized, head_known));
        return PeerClass::NaivePeer;
    }
    if head_known {
        assert(rule_decides(5, *local, *remote, local_slot, root_at_finalized, head_known));
        return PeerClass::KnownChain;
    }
    assert(rule_decides(6, *local, *remote, local_slot, root_at_finalized, head_known));
    PeerClass::UsefulPeer
}

/// What the processor does for each class: peers on another network or
/// chain are dropped as irrelevant, naive peers are left alone, and the
/// others are handed to the sync manager.
pub fn status_action(class: PeerClass) -> (r: StatusAction)
    ensures
        r == action_of_class(class),
{
    match class {
        PeerClass::ForkMismatch | PeerClass::ClockSkew | PeerClass::FinalizedMismatch => {
            StatusAction::Disconnect(GoodbyeReason::IrrelevantNetwork)
        },
        PeerClass::NaivePeer => StatusAction::Ignore,
        PeerClass::KnownChain | PeerClass::UsefulPeer => StatusAction::AddPeer,
    }
}

/// The handshake's rules are total and ordered: for every pair of statuses
/// and every answer from our chain, exactly one rule is the first to hold.
pub proof fn lemma_exactly_one_rule_decides(
    local: PeerSyncInfo,
    remote: PeerSyncInfo,
    local_slot: Option<u64>,
    root_at_finalized: Option<Hash256>,
    head_known: bool,
)
    ensures
        exists|rule: nat| rule_decides(rule, local, remote, local_slot, root_at_finalized, head_known),
        forall|a: nat, b: nat|
            rule_decides(a, local, remote, local_slot, root_at_finalized, head_known)
                && rule_decides(b, local, remote, local_slot, root_at_finalized, head_known)
                ==> a == b,
{
    if rule_holds(1, local, remote, local_slot, root_at_finalized, head_known) {
        assert(rule_decides(1, local, remote, local_slot, root_at_finalized, head_known));
    } else if rule_holds(2, local, remote, local_slot, root_at_finalized, head_known) {
        assert(rule_decides(2, local, remote, local_slot, root_at_finalized, head_known));
    } else if rule_holds(3, local, remote, local_slot, root_at_finalized, head_known) {
        assert(rule_decides(3, local, remote, local_slot, root_at_finalized, head_known));
    } else if rule_holds(4, local, remote, local_slot, root_at_finalized, head_known) {
        assert(rule_decides(4, local, remote, local_slot, root_at_finalized, head_known));
    } else if rule_holds(5, local, remote, local_slot, root_at_finalized, head_known) {
        assert(rule_decides(5, local, remote, local_slot, root_at_finalized, head_known));
    } else {
        assert(rule_decides(6, local, remote, local_slot, root_at_finalized, head_known));
    }
    assert forall|a: nat, b: nat|
        rule_decides(a, local, remote, local_slot, root_at_finalized, head_known)
            && rule_decides(b, local, remote, local_slot, root_at_finalized, head_known) implies a
        == b by {
        if a < b {
            assert(!rule_holds(a, local, remote, local_slot, root_at_finalized, head_known));
        } else if b < a {
            assert(!rule_holds(b, local, remote, local_slot, root_at_finalized, head_known));
        }
    }
}

} // verus!
