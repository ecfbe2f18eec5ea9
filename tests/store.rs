use peer_sync::store::{batch_ops, get_key_for_col, BatchOp, BytesKey, DBError, Error, StoreOp};

fn key_of(op: &BatchOp) -> Vec<u8> {
    match op {
        BatchOp::Put(k, _) => k.as_slice().to_vec(),
        BatchOp::Delete(k) => k.as_slice().to_vec(),
    }
}

fn prefixed(prefix: &[u8], root: [u8; 32]) -> Vec<u8> {
    let mut v = prefix.to_vec();
    v.extend_from_slice(&root);
    v
}

#[test]
fn column_key_is_prefix_then_key() {
    let k = get_key_for_col("blk", &[1, 2, 3]);
    assert_eq!(k.as_slice(), b"blk\x01\x02\x03");
    let k = BytesKey::from_u8(&[9, 8]);
    assert_eq!(k.as_slice(), &[9, 8]);
}

#[test]
fn batch_puts_and_deletes_blocks_and_states() {
    let ops = vec![
        StoreOp::PutBlock([1; 32], vec![10]),
        StoreOp::PutState([2; 32], vec![20]),
        StoreOp::DeleteBlock([3; 32]),
    ];
    let batch = batch_ops(ops, 32);
    assert_eq!(batch.len(), 3);
    assert!(matches!(&batch[0], BatchOp::Put(_, v) if v == &vec![10u8]));
    assert_eq!(key_of(&batch[0]), prefixed(b"blk", [1; 32]));
    assert!(matches!(&batch[1], BatchOp::Put(_, v) if v == &vec![20u8]));
    assert_eq!(key_of(&batch[1]), prefixed(b"ste", [2; 32]));
    assert!(matches!(&batch[2], BatchOp::Delete(_)));
    assert_eq!(key_of(&batch[2]), prefixed(b"blk", [3; 32]));
}

#[test]
fn deleting_an_epoch_state_removes_summary_and_state() {
    let batch = batch_ops(vec![StoreOp::DeleteState([4; 32], 64)], 32);
    assert_eq!(batch.len(), 2);
    assert_eq!(key_of(&batch[0]), prefixed(b"bss", [4; 32]));
    assert_eq!(key_of(&batch[1]), prefixed(b"ste", [4; 32]));
}

#[test]
fn deleting_a_mid_epoch_state_removes_only_summary() {
    let batch = batch_ops(vec![StoreOp::DeleteState([5; 32], 65)], 32);
    assert_eq!(batch.len(), 1);
    assert_eq!(key_of(&batch[0]), prefixed(b"bss", [5; 32]));
}

#[test]
fn db_error_converts_into_store_error() {
    let e = DBError::new("disk full".to_string());
    assert_eq!(e.message, "disk full");
    match Error::from(e) {
        Error::DBError { message } => assert_eq!(message, "disk full"),
        other => panic!("unexpected {:?}", other),
    }
}

#[test]
fn decode_error_converts_into_store_error() {
    let e = ssz::DecodeError::BytesInvalid("x".to_string());
    assert!(matches!(Error::from(e), Error::SszDecodeError(_)));
}
