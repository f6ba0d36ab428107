use raftmeta::keys::{
    local_max, min_key, raft_applied_index_key, raft_last_index_key, raft_truncated_state_key,
    region_id_prefix, region_meta_prefix,
};

#[test]
fn region_id_prefix_is_fixed_width_big_endian() {
    assert_eq!(region_id_prefix(7), vec![1, 2, 0, 0, 0, 0, 0, 0, 0, 7]);
    assert_eq!(
        region_id_prefix(0x0102030405060708),
        vec![1, 2, 1, 2, 3, 4, 5, 6, 7, 8]
    );
    assert_eq!(region_id_prefix(0), vec![1, 2, 0, 0, 0, 0, 0, 0, 0, 0]);
}

#[test]
fn region_id_prefixes_are_strictly_ordered() {
    let ids: [u64; 7] = [0, 1, 2, 255, 256, 65536, u64::MAX - 1];
    for w in ids.windows(2) {
        assert!(region_id_prefix(w[0]) < region_id_prefix(w[1]));
    }
}

#[test]
fn neighbouring_region_ranges_do_not_overlap() {
    // every local metadata key of region 9 sorts inside [prefix(9), prefix(10))
    let lo = region_id_prefix(9);
    let hi = region_id_prefix(10);
    assert!(lo < hi);
    for key in [
        raft_truncated_state_key(9),
        raft_last_index_key(9),
        raft_applied_index_key(9),
    ] {
        assert!(key > lo);
        assert!(key < hi);
    }
}

#[test]
fn field_keys_extend_the_region_prefix() {
    let p = region_id_prefix(3);
    let mut truncated = p.clone();
    truncated.push(1);
    let mut last = p.clone();
    last.push(2);
    let mut applied = p.clone();
    applied.push(3);
    assert_eq!(raft_truncated_state_key(3), truncated);
    assert_eq!(raft_last_index_key(3), last);
    assert_eq!(raft_applied_index_key(3), applied);
}

#[test]
fn meta_prefix_preserves_boundary_order() {
    let a = region_meta_prefix(&b"a".to_vec());
    let b = region_meta_prefix(&b"b".to_vec());
    assert!(a < b);
    assert_eq!(region_meta_prefix(&Vec::new()), vec![1, 3]);
    assert_eq!(region_meta_prefix(&b"m".to_vec()), vec![1, 3, b'm']);
}

#[test]
fn local_namespace_sorts_below_local_max() {
    assert_eq!(min_key(), Vec::<u8>::new());
    assert_eq!(local_max(), vec![2]);
    assert!(region_id_prefix(u64::MAX) < local_max());
    assert!(raft_applied_index_key(u64::MAX) < local_max());
    assert!(region_meta_prefix(&vec![0xff, 0xff]) < local_max());
}
