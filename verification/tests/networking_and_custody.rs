use moonglass_core::containers::chain::Checkpoint;
use moonglass_core::containers::data_availability::{
    compute_columns_for_custody_group, compute_subnet_for_data_column_sidecar, get_custody_groups, increment_node_id,
    node_id_from_decimal, DataAvailabilityError,
};
use moonglass_core::networking::{
    beacon_block_topic, compute_fork_data_root, data_column_sidecar_topic, fork_digest_hex,
};
use moonglass_core::primitives::{ColumnIndex, CustodyIndex, Epoch, ForkDigest, NodeId, Root, SubnetId, Version};

#[test]
fn gossip_topics_follow_the_naming_scheme() {
    let digest = ForkDigest([0x12, 0xab, 0x00, 0xff]);
    assert_eq!(fork_digest_hex(digest), "12ab00ff");
    assert_eq!(beacon_block_topic(digest), "/eth2/12ab00ff/beacon_block/ssz_snappy");
    assert_eq!(
        data_column_sidecar_topic(digest, SubnetId(17)),
        "/eth2/12ab00ff/data_column_sidecar_17/ssz_snappy"
    );
}

#[test]
fn fork_data_root_is_the_root_of_version_and_genesis_root() {
    // A two-field container: the hash of the padded version and the root.
    let root = compute_fork_data_root(Version([0, 0, 0, 0]), Root([0u8; 32]));
    let expected = [
        0xf5, 0xa5, 0xfd, 0x42, 0xd1, 0x6a, 0x20, 0x30, 0x27, 0x98, 0xef, 0x6e, 0xd3, 0x09, 0x97, 0x9b, 0x43,
        0x00, 0x3d, 0x23, 0x20, 0xd9, 0xf0, 0xe8, 0xea, 0x98, 0x31, 0xa9, 0x27, 0x59, 0xfb, 0x4b,
    ];
    assert_eq!(root.0, expected);
    let other = compute_fork_data_root(Version([1, 0, 0, 0]), Root([0u8; 32]));
    assert_ne!(other.0, expected);
}

#[test]
fn checkpoint_root_of_zero_checkpoint() {
    let root = Checkpoint { epoch: Epoch(0), root: Root([0u8; 32]) }.hash_tree_root().unwrap();
    assert_eq!(root.0[0], 0xf5);
    assert_eq!(root.0[31], 0x4b);
}

#[test]
fn node_ids_parse_from_decimal() {
    let id = node_id_from_decimal("258").unwrap();
    let mut expected = [0u8; 32];
    expected[0] = 2;
    expected[1] = 1;
    assert_eq!(id.0, expected);
    assert!(matches!(node_id_from_decimal(""), Err(DataAvailabilityError::InvalidNodeIdDecimal)));
    assert!(matches!(node_id_from_decimal("12x"), Err(DataAvailabilityError::InvalidNodeIdDecimal)));
    let too_big = "9".repeat(80);
    assert!(matches!(node_id_from_decimal(&too_big), Err(DataAvailabilityError::NodeIdOverflow)));
    assert_eq!(node_id_from_decimal("  7 ").unwrap().0[0], 7);
}

#[test]
fn node_id_increment_wraps_at_the_top() {
    let mut max = [0xffu8; 32];
    increment_node_id(&mut max);
    assert_eq!(max, [0u8; 32]);
    let mut carry = [0u8; 32];
    carry[0] = 0xff;
    increment_node_id(&mut carry);
    assert_eq!(carry[0], 0);
    assert_eq!(carry[1], 1);
}

#[test]
fn custody_groups_are_sorted_distinct_and_counted() {
    let groups = get_custody_groups(NodeId([3u8; 32]), 8).unwrap();
    assert_eq!(groups.len(), 8);
    for pair in groups.windows(2) {
        assert!(pair[0].0 < pair[1].0);
    }
    assert!(groups.iter().all(|g| g.0 < 128));
    let all = get_custody_groups(NodeId([9u8; 32]), 128).unwrap();
    let values: Vec<u64> = all.iter().map(|g| g.0).collect();
    assert_eq!(values, (0..128).collect::<Vec<u64>>());
    assert!(matches!(
        get_custody_groups(NodeId([9u8; 32]), 129),
        Err(DataAvailabilityError::TooManyCustodyGroups { requested: 129, limit: 128 })
    ));
}

#[test]
fn custody_group_columns_and_subnets() {
    let columns = compute_columns_for_custody_group(CustodyIndex(5)).unwrap();
    assert_eq!(columns, vec![ColumnIndex(5)]);
    assert!(compute_columns_for_custody_group(CustodyIndex(128)).is_err());
    assert_eq!(compute_subnet_for_data_column_sidecar(ColumnIndex(130)), SubnetId(2));
}
