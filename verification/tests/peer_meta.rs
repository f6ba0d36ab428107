use raftmeta::engine::{CollectVisitor, FaultEngine, MemEngine, MemSnapshot};
use raftmeta::errors::Error;
use raftmeta::keys::{
    local_max, raft_applied_index_key, raft_last_index_key, raft_truncated_state_key,
    region_id_prefix, region_meta_prefix,
};
use raftmeta::peer_meta::{
    PeerMeta, Region, TruncatedState, RAFT_INIT_LOG_INDEX, RAFT_INIT_LOG_TERM,
};

fn region(id: u64, start: &[u8], end: &[u8]) -> Region {
    Region {
        id,
        start_key: start.to_vec(),
        end_key: end.to_vec(),
    }
}

fn meta(engine: MemEngine, id: u64, start: &[u8], end: &[u8]) -> PeerMeta<MemEngine> {
    PeerMeta {
        engine,
        region_id: id,
        region: region(id, start, end),
        last_index: 0,
        applied_index: 0,
        truncated_state: None,
    }
}

#[test]
fn uninitialized_region_defaults_to_zero() {
    let m = meta(MemEngine::new(), 5, b"", b"");
    assert!(!m.is_initialized());
    assert_eq!(
        m.load_truncated_state(),
        Ok(TruncatedState { index: 0, term: 0 })
    );
}

#[test]
fn load_then_use_protocol_for_uninitialized_region() {
    let mut m = meta(MemEngine::new(), 5, b"", b"");
    assert!(!m.is_initialized());
    assert_eq!(m.get_truncated_state(), Err(Error::UninitializedState));
    assert_eq!(m.get_first_index(), Err(Error::UninitializedState));
    let loaded = m.load_truncated_state().unwrap();
    assert_eq!(loaded, TruncatedState { index: 0, term: 0 });
    m.truncated_state = Some(loaded);
    assert_eq!(m.get_first_index(), Ok(1));
}

#[test]
fn initialized_region_defaults_to_bootstrap_sentinels() {
    let mut m = meta(MemEngine::new(), 5, b"", b"z");
    assert!(m.is_initialized());
    let loaded = m.load_truncated_state().unwrap();
    assert_eq!(
        loaded,
        TruncatedState {
            index: RAFT_INIT_LOG_INDEX,
            term: RAFT_INIT_LOG_TERM
        }
    );
    m.truncated_state = Some(loaded);
    assert_eq!(m.get_first_index(), Ok(11));
    // the last-index fallback returns the truncated index itself, not one past
    assert_eq!(m.load_last_index(), Ok(10));
}

#[test]
fn truncated_state_round_trips_through_the_engine() {
    let mut e = MemEngine::new();
    e.put_state(
        raft_truncated_state_key(9),
        TruncatedState { index: 77, term: 9 },
    );
    let m = meta(e, 9, b"a", b"k");
    assert_eq!(
        m.load_truncated_state(),
        Ok(TruncatedState { index: 77, term: 9 })
    );
    // rewriting replaces the record; reloading sees the newest write
    let mut e2 = MemEngine::new();
    e2.put_state(
        raft_truncated_state_key(9),
        TruncatedState { index: 77, term: 9 },
    );
    e2.put_state(
        raft_truncated_state_key(9),
        TruncatedState { index: 200, term: 11 },
    );
    let m2 = meta(e2, 9, b"a", b"k");
    assert_eq!(
        m2.load_truncated_state(),
        Ok(TruncatedState {
            index: 200,
            term: 11
        })
    );
}

#[test]
fn first_index_is_one_past_truncated_for_defaulted_and_persisted() {
    let mut m = meta(MemEngine::new(), 4, b"a", b"b");
    let s = m.load_truncated_state().unwrap();
    m.truncated_state = Some(s);
    assert_eq!(m.get_first_index(), Ok(s.index + 1));

    let mut e = MemEngine::new();
    e.put_state(
        raft_truncated_state_key(4),
        TruncatedState { index: 500, term: 8 },
    );
    let mut m2 = meta(e, 4, b"a", b"b");
    let s2 = m2.load_truncated_state().unwrap();
    m2.truncated_state = Some(s2);
    assert_eq!(m2.get_first_index(), Ok(501));
}

#[test]
fn persisted_applied_index_wins_over_default() {
    let mut e = MemEngine::new();
    e.put_state(
        raft_truncated_state_key(7),
        TruncatedState { index: 100, term: 3 },
    );
    e.put_u64(raft_last_index_key(7), 150);
    let m = meta(e, 7, b"a", b"m");
    let mut batch = MemEngine::new();
    batch.put_u64(raft_applied_index_key(7), 120);
    assert_eq!(m.load_applied_index(&batch), Ok(120));
    assert_eq!(m.load_last_index(), Ok(150));
}

#[test]
fn absent_applied_index_falls_back_to_default() {
    let initialized = meta(MemEngine::new(), 7, b"a", b"m");
    assert_eq!(
        initialized.load_applied_index(&MemEngine::new()),
        Ok(RAFT_INIT_LOG_INDEX)
    );
    let uninitialized = meta(MemEngine::new(), 7, b"a", b"");
    assert_eq!(uninitialized.load_applied_index(&MemEngine::new()), Ok(0));
}

#[test]
fn last_index_fallback_requires_loaded_truncated_state() {
    let m = meta(MemEngine::new(), 2, b"a", b"b");
    assert_eq!(m.load_last_index(), Err(Error::UninitializedState));
    let mut m2 = meta(MemEngine::new(), 2, b"a", b"b");
    m2.truncated_state = Some(TruncatedState { index: 42, term: 6 });
    assert_eq!(m2.load_last_index(), Ok(42));
}

#[test]
fn failing_engine_surfaces_storage_error() {
    let m = PeerMeta {
        engine: FaultEngine {},
        region_id: 1,
        region: region(1, b"a", b"b"),
        last_index: 0,
        applied_index: 0,
        truncated_state: None,
    };
    assert_eq!(m.load_truncated_state(), Err(Error::StorageIOError));
    assert_eq!(m.load_last_index(), Err(Error::StorageIOError));
    assert_eq!(m.load_applied_index(&FaultEngine {}), Err(Error::StorageIOError));
}

#[test]
fn ranges_substitute_local_max_for_min_start() {
    let m = meta(MemEngine::new(), 7, b"", b"m");
    let r = m.region_key_ranges();
    assert_eq!(r.len(), 3);
    assert_eq!(r[0], (region_id_prefix(7), region_id_prefix(8)));
    assert_eq!(
        r[1],
        (region_meta_prefix(&Vec::new()), region_meta_prefix(&b"m".to_vec()))
    );
    assert_eq!(r[2], (local_max(), b"m".to_vec()));
}

#[test]
fn ranges_keep_a_real_start_key() {
    let m = meta(MemEngine::new(), 3, b"c", b"q");
    let r = m.region_key_ranges();
    assert_eq!(r.len(), 3);
    assert_eq!(r[0], (region_id_prefix(3), region_id_prefix(4)));
    assert_eq!(
        r[1],
        (region_meta_prefix(&b"c".to_vec()), region_meta_prefix(&b"q".to_vec()))
    );
    assert_eq!(r[2], (b"c".to_vec(), b"q".to_vec()));
}

#[test]
fn full_scan_visits_all_three_ranges_in_order() {
    let m = meta(MemEngine::new(), 7, b"", b"m");
    let raft_key = raft_truncated_state_key(7);
    let meta_key = {
        let mut k = region_meta_prefix(&Vec::new());
        k.push(0);
        k
    };
    let snap = MemSnapshot {
        entries: vec![
            (b"z".to_vec(), b"outside".to_vec()),
            (b"d".to_vec(), b"v1".to_vec()),
            (meta_key.clone(), b"desc".to_vec()),
            (raft_key.clone(), b"ts".to_vec()),
        ],
    };
    let mut v = CollectVisitor::new(100);
    assert_eq!(m.snap_scan_region(&snap, &mut v), Ok(()));
    assert!(!v.is_stopped);
    let keys: Vec<Vec<u8>> = v.seen.iter().map(|p| p.0.clone()).collect();
    assert_eq!(keys, vec![raft_key, meta_key, b"d".to_vec()]);
}

#[test]
fn visitor_stop_in_second_range_keeps_first_range_complete() {
    let m = meta(MemEngine::new(), 7, b"", b"m");
    let raft_key = raft_truncated_state_key(7);
    let meta_key = {
        let mut k = region_meta_prefix(&Vec::new());
        k.push(0);
        k
    };
    let snap = MemSnapshot {
        entries: vec![
            (raft_key.clone(), b"ts".to_vec()),
            (meta_key.clone(), b"desc".to_vec()),
            (b"d".to_vec(), b"v1".to_vec()),
        ],
    };
    let mut v = CollectVisitor::new(2);
    assert_eq!(m.snap_scan_region(&snap, &mut v), Ok(()));
    assert!(v.is_stopped);
    let keys: Vec<Vec<u8>> = v.seen.iter().map(|p| p.0.clone()).collect();
    assert_eq!(keys, vec![raft_key, meta_key]);
}

#[test]
fn visitor_stop_in_first_range_skips_later_ranges() {
    let m = meta(MemEngine::new(), 7, b"", b"m");
    let raft_key = raft_truncated_state_key(7);
    let meta_key = {
        let mut k = region_meta_prefix(&Vec::new());
        k.push(0);
        k
    };
    let snap = MemSnapshot {
        entries: vec![
            (raft_key.clone(), b"ts".to_vec()),
            (meta_key, b"desc".to_vec()),
            (b"d".to_vec(), b"v1".to_vec()),
        ],
    };
    let mut v = CollectVisitor::new(1);
    assert_eq!(m.snap_scan_region(&snap, &mut v), Ok(()));
    assert!(v.is_stopped);
    assert_eq!(v.seen.len(), 1);
    assert_eq!(v.seen[0].0, raft_key);
}
