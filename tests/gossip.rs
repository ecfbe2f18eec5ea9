use peer_sync::gossip::{
    attestation_gossip_action, block_gossip_action, needs_state_advance, reuse_head_state,
    should_forward_attestation, should_forward_block, AttestationGossipAction,
    AttestationOutcome, BlockForwardChecks, BlockGossipAction, BlockOutcome,
};
use peer_sync::sync::GoodbyeReason;

fn all_passed() -> BlockForwardChecks {
    BlockForwardChecks {
        parent_found: true,
        state_found: true,
        advance_needed: true,
        advanced: true,
        committees_built: true,
        proposer_found: true,
        signature_valid: true,
    }
}

#[test]
fn block_outcomes_map_to_actions() {
    assert_eq!(block_gossip_action(Some(BlockOutcome::Processed)), BlockGossipAction::Accept);
    assert_eq!(
        block_gossip_action(Some(BlockOutcome::ParentUnknown { parent: [1u8; 32] })),
        BlockGossipAction::QueueUnknownParent
    );
    assert_eq!(block_gossip_action(Some(BlockOutcome::Rejected)), BlockGossipAction::Drop);
    assert_eq!(block_gossip_action(None), BlockGossipAction::Drop);
}

#[test]
fn attestation_outcomes_map_to_actions() {
    assert_eq!(
        attestation_gossip_action(Some(AttestationOutcome::Processed)),
        AttestationGossipAction::Accept
    );
    assert_eq!(
        attestation_gossip_action(Some(AttestationOutcome::UnknownHeadBlock {
            beacon_block_root: [7u8; 32]
        })),
        AttestationGossipAction::LookupBlock([7u8; 32])
    );
    assert_eq!(
        attestation_gossip_action(Some(AttestationOutcome::AttestsToFutureState)),
        AttestationGossipAction::Ignore
    );
    assert_eq!(
        attestation_gossip_action(Some(AttestationOutcome::FinalizedSlot)),
        AttestationGossipAction::Ignore
    );
    assert_eq!(
        attestation_gossip_action(Some(AttestationOutcome::Invalid)),
        AttestationGossipAction::Disconnect(GoodbyeReason::Fault)
    );
    assert_eq!(
        attestation_gossip_action(Some(AttestationOutcome::EmptyAggregationBitfield)),
        AttestationGossipAction::Disconnect(GoodbyeReason::Fault)
    );
    assert_eq!(attestation_gossip_action(None), AttestationGossipAction::LogError);
}

#[test]
fn block_with_all_checks_passed_is_forwarded() {
    assert!(should_forward_block(&all_passed()));
}

#[test]
fn block_failing_any_check_is_not_forwarded() {
    let mut c = all_passed();
    c.signature_valid = false;
    assert!(!should_forward_block(&c));
    let mut c = all_passed();
    c.parent_found = false;
    assert!(!should_forward_block(&c));
    let mut c = all_passed();
    c.state_found = false;
    assert!(!should_forward_block(&c));
    let mut c = all_passed();
    c.advanced = false;
    assert!(!should_forward_block(&c));
    let mut c = all_passed();
    c.committees_built = false;
    assert!(!should_forward_block(&c));
    let mut c = all_passed();
    c.proposer_found = false;
    assert!(!should_forward_block(&c));
}

#[test]
fn block_without_advance_ignores_advance_steps() {
    let mut c = all_passed();
    c.advance_needed = false;
    c.advanced = false;
    c.committees_built = false;
    assert!(should_forward_block(&c));
}

#[test]
fn advance_rule_compares_epochs() {
    assert!(needs_state_advance(64, 40, 32));
    assert!(needs_state_advance(40, 63, 32));
    assert!(!needs_state_advance(10, 64, 32));
    assert!(needs_state_advance(u64::MAX, 0, 1));
}

#[test]
fn head_state_reused_only_for_equal_roots() {
    assert!(reuse_head_state(&[3u8; 32], &[3u8; 32]));
    assert!(!reuse_head_state(&[3u8; 32], &[4u8; 32]));
}

#[test]
fn attestation_verdict_uses_slow_path_after_head_failure() {
    assert!(should_forward_attestation(true, None));
    assert!(should_forward_attestation(false, Some(true)));
    assert!(!should_forward_attestation(false, Some(false)));
    assert!(!should_forward_attestation(false, None));
}
