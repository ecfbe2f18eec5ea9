use peer_sync::events::{head_change_root, EventHandler, EventKind, NullEventHandler, ServerSentEvents};

const SLOTS_PER_EPOCH: u64 = 32;

fn head_change(b: u8) -> EventKind {
    EventKind::BeaconHeadChanged {
        reorg: false,
        current_head_beacon_block_root: [b; 32],
        previous_head_beacon_block_root: [b.wrapping_sub(1); 32],
    }
}

#[test]
fn overflowing_head_queue_delivers_one_epoch_of_changes() {
    let (handler, receiver) = ServerSentEvents::new(SLOTS_PER_EPOCH);
    let mut refused = 0;
    for i in 0..=SLOTS_PER_EPOCH {
        if !handler.enqueue_head_change([i as u8; 32]) {
            refused += 1;
        }
    }
    assert_eq!(refused, 1);
    let mut delivered = Vec::new();
    while let Ok(root) = receiver.try_recv() {
        delivered.push(root);
    }
    assert_eq!(delivered.len() as u64, SLOTS_PER_EPOCH);
    for (i, root) in delivered.iter().enumerate() {
        assert_eq!(*root, [i as u8; 32]);
    }
}

#[test]
fn register_keeps_order_and_never_fails_on_overflow() {
    let (handler, receiver) = ServerSentEvents::new(SLOTS_PER_EPOCH);
    for i in 0..=SLOTS_PER_EPOCH {
        assert_eq!(handler.register(head_change(i as u8)), Ok(()));
    }
    let mut count = 0u64;
    while let Ok(root) = receiver.try_recv() {
        assert_eq!(root, [count as u8; 32]);
        count += 1;
    }
    assert_eq!(count, SLOTS_PER_EPOCH);
}

#[test]
fn other_events_are_not_queued() {
    let (handler, receiver) = ServerSentEvents::new(SLOTS_PER_EPOCH);
    assert_eq!(handler.register(EventKind::BeaconFinalization { epoch: 3, root: [1; 32] }), Ok(()));
    assert_eq!(
        handler.register(EventKind::BeaconBlockImported { block_root: [2; 32], block: vec![1, 2] }),
        Ok(())
    );
    assert!(receiver.try_recv().is_err());
}

#[test]
fn head_change_root_picks_current_head() {
    assert_eq!(head_change_root(&head_change(5)), Some([5u8; 32]));
    assert_eq!(
        head_change_root(&EventKind::BeaconAttestationImported { attestation: vec![] }),
        None
    );
}

#[test]
fn null_handler_accepts_everything() {
    let h = NullEventHandler::default();
    assert_eq!(h.register(head_change(1)), Ok(()));
    assert_eq!(
        h.register(EventKind::BeaconBlockRejected { reason: "bad".to_string(), block: vec![] }),
        Ok(())
    );
}
