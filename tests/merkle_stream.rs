use peer_sync::hashing::hash_concat;
use peer_sync::merkle_stream::{get_depth, get_parent, Error, MerkleStream};

fn leaf_from_low_u64_be(i: u64) -> [u8; 32] {
    let mut h = [0u8; 32];
    h[24..].copy_from_slice(&i.to_be_bytes());
    h
}

fn pair_hash(a: &[u8; 32], b: &[u8; 32]) -> [u8; 32] {
    eth2_hashing::hash32_concat(a, b)
}

/// The root of the tree over `leaves`, zero-padded to the next power of two
/// of at least `min_leaves` leaves, hashed layer by layer.
fn merkleize_padded(leaves: &[[u8; 32]], min_leaves: usize) -> [u8; 32] {
    let width = std::cmp::max(leaves.len(), min_leaves).next_power_of_two();
    let mut layer: Vec<[u8; 32]> = leaves.to_vec();
    layer.resize(width, [0u8; 32]);
    while layer.len() > 1 {
        layer = layer.chunks(2).map(|p| pair_hash(&p[0], &p[1])).collect();
    }
    layer[0]
}

fn stream_root(leaves: &[[u8; 32]], depth: usize) -> [u8; 32] {
    let mut m = MerkleStream::new(depth);
    for leaf in leaves.iter() {
        m.process_leaf(leaf).expect("should process leaf");
    }
    m.finish()
}

fn compare_with_reference(leaves: &[[u8; 32]], depth: usize) {
    let reference_root = merkleize_padded(leaves, 1 << (depth - 1));
    let merklizer_root = stream_root(leaves, depth);
    assert_eq!(reference_root, merklizer_root, "should match reference root");
}

fn compare_reference_with_len(leaves: u64, height: usize) {
    let leaves = (0..leaves).map(leaf_from_low_u64_be).collect::<Vec<_>>();
    compare_with_reference(&leaves, height)
}

fn compare_new_with_leaf_count(num_leaves: u64, height: usize) {
    let leaves = (0..num_leaves).map(leaf_from_low_u64_be).collect::<Vec<_>>();

    let from_depth = stream_root(&leaves, height);

    let from_num_leaves = {
        let mut m = MerkleStream::new_for_leaf_count(num_leaves as usize);
        for leaf in leaves.iter() {
            m.process_leaf(leaf).expect("should process leaf");
        }
        m.finish()
    };

    assert_eq!(
        from_depth, from_num_leaves,
        "hash generated by depth should match that from num leaves"
    );
}

#[test]
fn new_for_leaf_count() {
    compare_new_with_leaf_count(1, 1);
    compare_new_with_leaf_count(2, 2);
    compare_new_with_leaf_count(3, 3);
    compare_new_with_leaf_count(4, 3);
    compare_new_with_leaf_count(5, 4);
    compare_new_with_leaf_count(6, 4);
    compare_new_with_leaf_count(7, 4);
    compare_new_with_leaf_count(8, 4);
    compare_new_with_leaf_count(9, 5);
    compare_new_with_leaf_count(10, 5);
    compare_new_with_leaf_count(11, 5);
    compare_new_with_leaf_count(12, 5);
    compare_new_with_leaf_count(13, 5);
    compare_new_with_leaf_count(14, 5);
    compare_new_with_leaf_count(15, 5);
}

#[test]
fn height() {
    assert_eq!(get_depth(1), 0);
    assert_eq!(get_depth(2), 1);
    assert_eq!(get_depth(3), 1);
    assert_eq!(get_depth(4), 2);
    assert_eq!(get_depth(5), 2);
    assert_eq!(get_depth(6), 2);
    assert_eq!(get_depth(7), 2);
    assert_eq!(get_depth(8), 3);
}

#[test]
#[should_panic]
fn too_many_leaves() {
    compare_reference_with_len(2, 1);
}

#[test]
fn full_trees() {
    compare_reference_with_len(1, 1);
    compare_reference_with_len(2, 2);
    compare_reference_with_len(4, 3);
    compare_reference_with_len(8, 4);
    compare_reference_with_len(16, 5);
    compare_reference_with_len(32, 6);
    compare_reference_with_len(64, 7);
    compare_reference_with_len(128, 8);
    compare_reference_with_len(256, 9);
    compare_reference_with_len(256, 9);
    compare_reference_with_len(8192, 14);
}

#[test]
fn incomplete_trees() {
    compare_reference_with_len(0, 1);

    compare_reference_with_len(0, 2);
    compare_reference_with_len(1, 2);

    for i in 0..=4 {
        compare_reference_with_len(i, 3);
    }

    for i in 0..=7 {
        compare_reference_with_len(i, 4);
    }

    for i in 0..=15 {
        compare_reference_with_len(i, 5);
    }

    for i in 0..=32 {
        compare_reference_with_len(i, 6);
    }

    for i in 0..=64 {
        compare_reference_with_len(i, 7);
    }

    compare_reference_with_len(0, 14);
    compare_reference_with_len(13, 14);
    compare_reference_with_len(8191, 14);
}

#[test]
fn parent_of_node_ids() {
    assert_eq!(get_parent(1), 0);
    assert_eq!(get_parent(2), 1);
    assert_eq!(get_parent(3), 1);
    assert_eq!(get_parent(14), 7);
    assert_eq!(get_parent(15), 7);
}

#[test]
fn full_tree_of_depth_three_hashes_pairs() {
    let l: Vec<[u8; 32]> = (1..=4).map(leaf_from_low_u64_be).collect();
    let expected = pair_hash(&pair_hash(&l[0], &l[1]), &pair_hash(&l[2], &l[3]));
    assert_eq!(stream_root(&l, 3), expected);
}

#[test]
fn partial_tree_pads_with_zero_leaves() {
    let three: Vec<[u8; 32]> = (1..=3).map(leaf_from_low_u64_be).collect();
    let mut eight = three.clone();
    eight.resize(8, [0u8; 32]);
    assert_eq!(stream_root(&three, 4), stream_root(&eight, 4));
    assert_eq!(stream_root(&three, 4), merkleize_padded(&eight, 8));
}

#[test]
fn empty_tree_of_depth_one_has_zero_root() {
    assert_eq!(MerkleStream::new(1).finish(), [0u8; 32]);
}

#[test]
fn empty_deeper_tree_has_zero_subtree_root() {
    let z1 = pair_hash(&[0u8; 32], &[0u8; 32]);
    let z2 = pair_hash(&z1, &z1);
    assert_eq!(MerkleStream::new(3).finish(), z2);
}

#[test]
fn leaf_past_twice_capacity_is_refused() {
    for depth in 1..6usize {
        let mut m = MerkleStream::new(depth);
        for i in 0..(1u64 << depth) {
            assert_eq!(m.process_leaf(&leaf_from_low_u64_be(i)), Ok(()));
        }
        assert_eq!(
            m.process_leaf(&leaf_from_low_u64_be(99)),
            Err(Error::MaximumLeavesExceeded { max_leaves: 1 << (depth + 1) })
        );
    }
}

#[test]
fn leaves_past_capacity_leave_root_unchanged() {
    let leaves: Vec<[u8; 32]> = (1..=4).map(leaf_from_low_u64_be).collect();
    let mut m = MerkleStream::new(2);
    for leaf in leaves.iter() {
        m.process_leaf(leaf).expect("within the limit");
    }
    assert_eq!(m.finish(), pair_hash(&leaves[0], &leaves[1]));
}

#[test]
fn leaf_count_zero_gives_depth_one() {
    let m = MerkleStream::new_for_leaf_count(0);
    assert_eq!(m.finish(), [0u8; 32]);
    let mut m = MerkleStream::new_for_leaf_count(0);
    let leaf = leaf_from_low_u64_be(7);
    m.process_leaf(&leaf).unwrap();
    assert_eq!(m.finish(), leaf);
}

#[test]
fn hash_concat_hashes_both_halves() {
    let a = leaf_from_low_u64_be(1);
    let b = leaf_from_low_u64_be(2);
    let h = hash_concat(&a, &b);
    assert_ne!(h, a);
    assert_ne!(h, b);
    assert_eq!(h, pair_hash(&a, &b));
    assert_ne!(h, hash_concat(&b, &a));
}

#[test]
fn half_node_size() {
    // A half-node keeps its id and the 32 bytes of its left child; the
    // stream's stack holds 64 of them inline.
    assert_eq!(std::mem::size_of::<peer_sync::merkle_stream::HalfNode>(), 32 + 8);
}

#[test]
fn empty_tree_root_is_zero_subtree_root() {
    let mut z = [0u8; 32];
    for depth in 1..10usize {
        assert_eq!(MerkleStream::new(depth).finish(), z);
        z = pair_hash(&z, &z);
    }
}
