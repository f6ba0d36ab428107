use vstd::prelude::*;
use crate::engine::{in_byte_range, in_range_entries, log_extends, Retriever, SnapshotView, Visitor};
use crate::errors::Error;
use crate::keys::{
    local_max, local_max_spec, min_key_spec, raft_applied_index_key, raft_applied_index_key_spec,
    raft_last_index_key, raft_last_index_key_spec, raft_truncated_state_key,
    raft_truncated_state_key_spec, region_id_prefix, region_id_prefix_spec, region_meta_prefix,
    region_meta_prefix_spec,
};
use crate::order::copy_bytes;

verus! {

/// Raft log index implicitly consumed by cluster bootstrap; indices 1 through
/// 9 are reserved. Part of the durable compatibility contract.
pub const RAFT_INIT_LOG_INDEX: u64 = 10;

/// Raft log term assigned to the bootstrap-consumed entries. Part of the
/// durable compatibility contract.
pub const RAFT_INIT_LOG_TERM: u64 = 5;

/// The highest raft log entry physically removed by compaction. Entries at or
/// below `index` are gone; the first retrievable entry is `index + 1`.
#[derive(Clone, Copy, PartialEq, Eq, Structural, Debug)]
pub struct TruncatedState {
    pub index: u64,
    pub term: u64,
}

/// Region descriptor: a contiguous key range managed as one independently
/// raft-replicated shard. `start_key` is an inclusive lower bound (empty =
/// absolute minimum); `end_key` is an exclusive upper bound (empty = not yet
/// assigned, so the region owns no data range).
#[derive(Clone, Debug)]
pub struct Region {
    pub id: u64,
    pub start_key: Vec<u8>,
    pub end_key: Vec<u8>,
}

/// Bootstrap default for a region with no persisted truncated state: an
/// initialized region starts past the bootstrap-consumed entries, an
/// uninitialized one at zero.
pub open spec fn default_truncated_state(initialized: bool) -> TruncatedState {
    if initialized {
        TruncatedState { index: RAFT_INIT_LOG_INDEX, term: RAFT_INIT_LOG_TERM }
    } else {
        TruncatedState { index: 0, term: 0 }
    }
}

/// What loading the truncated state yields: the persisted record when
/// present, the bootstrap default otherwise.
pub open spec fn resolved_truncated_state(
    persisted: Option<TruncatedState>,
    initialized: bool,
) -> TruncatedState {
    match persisted {
        Some(s) => s,
        None => default_truncated_state(initialized),
    }
}

/// What loading the applied index yields: the persisted counter when present,
/// the bootstrap default otherwise.
pub open spec fn resolved_applied_index(persisted: Option<u64>, initialized: bool) -> u64 {
    match persisted {
        Some(n) => n,
        None => if initialized {
            RAFT_INIT_LOG_INDEX
        } else {
            0
        },
    }
}

/// First log index still retrievable above a truncated state.
pub open spec fn first_index_of(s: TruncatedState) -> u64
    recommends
        s.index < u64::MAX,
{
    (s.index + 1) as u64
}

/// Start of a region's data range: the region's own start key, except that
/// the absolute minimum key is replaced by the end of the locally reserved
/// keyspace, so a data scan cannot re-read reserved local or meta keys.
pub open spec fn data_start_key_spec(start_key: Seq<u8>) -> Seq<u8> {
    if start_key == min_key_spec() {
        local_max_spec()
    } else {
        start_key
    }
}

/// Per-region replica handle: a read capability on the shared engine plus
/// this region's descriptor and cached counters. `truncated_state` is absent
/// until a loaded value is explicitly installed.
pub struct PeerMeta<E: Retriever> {
    /// Read capability on the shared engine.
    pub engine: E,
    pub region_id: u64,
    pub region: Region,
    pub last_index: u64,
    pub applied_index: u64,
    pub truncated_state: Option<TruncatedState>,
}

impl<E: Retriever> PeerMeta<E> {
    /// A region is initialized iff its end key has been assigned.
    pub open spec fn spec_is_initialized(&self) -> bool {
        self.region.end_key@.len() > 0
    }

    /// True iff the region's end key is non-empty.
    pub fn is_initialized(&self) -> (r: bool)
        ensures
            r == self.spec_is_initialized(),
    {
        self.region.end_key.len() > 0
    }

    /// Pure read of the cached truncated state; no I/O. Fails until a loaded
    /// value has been installed, enforcing the load-then-use protocol.
    pub fn get_truncated_state(&self) -> (r: Result<TruncatedState, Error>)
        ensures
            self.truncated_state matches Some(t) ==> (r matches Ok(s) && s == t),
            self.truncated_state is None ==> (r matches Err(e) && e == Error::UninitializedState),
    {
        match self.truncated_state {
            None => Err(Error::UninitializedState),
            Some(state) => Ok(state),
        }
    }

    /// One past the cached truncated index; fails exactly when
    /// `get_truncated_state` does.
    pub fn get_first_index(&self) -> (r: Result<u64, Error>)
        requires
            self.truncated_state matches Some(t) ==> t.index < u64::MAX,
        ensures
            self.truncated_state matches Some(t) ==> (r matches Ok(i) && i == first_index_of(t)),
            self.truncated_state is None ==> (r matches Err(e) && e == Error::UninitializedState),
    {
        match self.get_truncated_state() {
            Ok(state) => Ok(state.index + 1),
            Err(e) => Err(e),
        }
    }

    /// Loads this region's truncated state from the engine. Absent a
    /// persisted record it synthesizes the bootstrap default — `(10, 5)` for
    /// an initialized region, `(0, 0)` otherwise — and persists nothing.
    pub fn load_truncated_state(&self) -> (r: Result<TruncatedState, Error>)
        ensures
            r matches Ok(s) ==> s == resolved_truncated_state(
                self.engine.state_at(raft_truncated_state_key_spec(self.region_id)),
                self.spec_is_initialized(),
            ),
            r matches Err(e) ==> e == Error::StorageIOError,
    {
        let key = raft_truncated_state_key(self.region_id);
        match self.engine.get_state(&key) {
            Err(e) => Err(e),
            Ok(Some(state)) => Ok(state),
            Ok(None) => {
                if self.is_initialized() {
                    Ok(TruncatedState { index: RAFT_INIT_LOG_INDEX, term: RAFT_INIT_LOG_TERM })
                } else {
                    Ok(TruncatedState { index: 0, term: 0 })
                }
            },
        }
    }

    /// Loads this region's last index. An absent counter means the log is
    /// empty — brand new or fully compacted — and falls back to the cached
    /// truncated state's own index (not one past it), failing with
    /// `UninitializedState` if no truncated state is installed.
    pub fn load_last_index(&self) -> (r: Result<u64, Error>)
        ensures
            r matches Ok(i) ==> (match self.engine.u64_at(
                raft_last_index_key_spec(self.region_id),
            ) {
                Some(n) => i == n,
                None => self.truncated_state matches Some(s) && i == s.index,
            }),
            r matches Err(e) ==> e == Error::StorageIOError || (e == Error::UninitializedState
                && self.engine.u64_at(raft_last_index_key_spec(self.region_id)) is None
                && self.truncated_state is None),
    {
        let key = raft_last_index_key(self.region_id);
        match self.engine.get_u64(&key) {
            Err(e) => Err(e),
            Ok(Some(last_index)) => Ok(last_index),
            Ok(None) => match self.get_truncated_state() {
                Ok(state) => Ok(state.index),
                Err(e) => Err(e),
            },
        }
    }

    /// Loads the applied index through a caller-supplied read capability —
    /// the committed engine or an in-flight batch view — so that index
    /// advancement stays atomic with the data mutation it accompanies. A
    /// persisted counter always wins over the bootstrap default.
    pub fn load_applied_index<T: Retriever>(&self, db: &T) -> (r: Result<u64, Error>)
        ensures
            r matches Ok(i) ==> i == resolved_applied_index(
                db.u64_at(raft_applied_index_key_spec(self.region_id)),
                self.spec_is_initialized(),
            ),
            r matches Err(e) ==> e == Error::StorageIOError,
    {
        let mut applied_index: u64 = 0;
        if self.is_initialized() {
            applied_index = RAFT_INIT_LOG_INDEX;
        }
        let key = raft_applied_index_key(self.region_id);
        match db.get_u64(&key) {
            Err(e) => Err(e),
            Ok(Some(n)) => Ok(n),
            Ok(None) => Ok(applied_index),
        }
    }

    /// This region's local raft-metadata interval.
    pub open spec fn spec_raft_range(&self) -> (Seq<u8>, Seq<u8>)
        recommends
            self.region_id < u64::MAX,
    {
        (
            region_id_prefix_spec(self.region_id),
            region_id_prefix_spec((self.region_id + 1) as u64),
        )
    }

    /// This region's descriptor interval in the meta namespace.
    pub open spec fn spec_meta_range(&self) -> (Seq<u8>, Seq<u8>) {
        (
            region_meta_prefix_spec(self.region.start_key@),
            region_meta_prefix_spec(self.region.end_key@),
        )
    }

    /// This region's data interval.
    pub open spec fn spec_data_range(&self) -> (Seq<u8>, Seq<u8>) {
        (data_start_key_spec(self.region.start_key@), self.region.end_key@)
    }

    /// Membership in the local raft-metadata interval.
    pub open spec fn in_raft_range(&self, k: Seq<u8>) -> bool {
        in_byte_range(k, self.spec_raft_range().0, self.spec_raft_range().1)
    }

    /// Membership in the descriptor interval.
    pub open spec fn in_meta_range(&self, k: Seq<u8>) -> bool {
        in_byte_range(k, self.spec_meta_range().0, self.spec_meta_range().1)
    }

    /// Membership in the data interval.
    pub open spec fn in_data_range(&self, k: Seq<u8>) -> bool {
        in_byte_range(k, self.spec_data_range().0, self.spec_data_range().1)
    }

    /// Membership in any of the three snapshot intervals.
    pub open spec fn in_snap_ranges(&self, k: Seq<u8>) -> bool {
        self.in_raft_range(k) || self.in_meta_range(k) || self.in_data_range(k)
    }

    /// The ordered byte ranges a consistent snapshot of this region must
    /// cover: its local raft metadata, its descriptor record, then its data.
    pub fn region_key_ranges(&self) -> (r: Vec<(Vec<u8>, Vec<u8>)>)
        requires
            self.region_id < u64::MAX,
        ensures
            r@.len() == 3,
            r@[0].0@ == self.spec_raft_range().0,
            r@[0].1@ == self.spec_raft_range().1,
            r@[1].0@ == self.spec_meta_range().0,
            r@[1].1@ == self.spec_meta_range().1,
            r@[2].0@ == self.spec_data_range().0,
            r@[2].1@ == self.spec_data_range().1,
    {
        let data_start_key: Vec<u8> = if self.region.start_key.len() == 0 {
            proof {
                assert(self.region.start_key@ =~= min_key_spec());
            }
            local_max()
        } else {
            copy_bytes(&self.region.start_key)
        };
        let mut r: Vec<(Vec<u8>, Vec<u8>)> = Vec::new();
        r.push((region_id_prefix(self.region_id), region_id_prefix(self.region_id + 1)));
        r.push(
            (region_meta_prefix(&self.region.start_key), region_meta_prefix(&self.region.end_key)),
        );
        r.push((data_start_key, copy_bytes(&self.region.end_key)));
        r
    }

    /// The visit log a complete snapshot scan of this region appends: the
    /// view's in-range entries of the three ranges, range by range, in the
    /// fixed order [local metadata, descriptor, data].
    pub open spec fn full_scan_log<S: SnapshotView>(&self, snap: &S) -> Seq<(Seq<u8>, Seq<u8>)>
        recommends
            self.region_id < u64::MAX,
    {
        in_range_entries(snap.entries(), self.spec_raft_range().0, self.spec_raft_range().1)
            + in_range_entries(snap.entries(), self.spec_meta_range().0, self.spec_meta_range().1)
            + in_range_entries(snap.entries(), self.spec_data_range().0, self.spec_data_range().1)
    }

    /// The visit log grows range by range: what a region scan appended is a
    /// partial first range, or the whole first range and a partial second, or
    /// the first two whole ranges and a partial third — never an entry of a
    /// later range before an earlier range is exhausted.
    pub open spec fn scan_log_is_staged<S: SnapshotView>(
        &self,
        snap: &S,
        pre: Seq<(Seq<u8>, Seq<u8>)>,
        post: Seq<(Seq<u8>, Seq<u8>)>,
    ) -> bool
        recommends
            self.region_id < u64::MAX,
    {
        let ents = snap.entries();
        let raft_all = in_range_entries(ents, self.spec_raft_range().0, self.spec_raft_range().1);
        let meta_all = in_range_entries(ents, self.spec_meta_range().0, self.spec_meta_range().1);
        ||| exists|n: int|
            #![auto]
            0 <= n <= ents.len() && post == pre + in_range_entries(
                ents.take(n),
                self.spec_raft_range().0,
                self.spec_raft_range().1,
            )
        ||| exists|n: int|
            #![auto]
            0 <= n <= ents.len() && post == pre + raft_all + in_range_entries(
                ents.take(n),
                self.spec_meta_range().0,
                self.spec_meta_range().1,
            )
        ||| exists|n: int|
            #![auto]
            0 <= n <= ents.len() && post == pre + raft_all + meta_all + in_range_entries(
                ents.take(n),
                self.spec_data_range().0,
                self.spec_data_range().1,
            )
    }

    /// Scans the three ranges in fixed order — local metadata, descriptor,
    /// data — against a point-in-time snapshot view, handing every entry to
    /// the visitor. A run the visitor did not stop delivers exactly the
    /// view's in-range entries of the three ranges, in that order. Returns as
    /// soon as a scan fails or the visitor stops; a stop during an earlier
    /// range leaves the later ranges unscanned.
    pub fn snap_scan_region<S: SnapshotView, V: Visitor>(&self, snap: &S, f: &mut V) -> (r: Result<
        (),
        Error,
    >)
        requires
            self.region_id < u64::MAX,
            !old(f).stopped(),
        ensures
            log_extends(old(f).observed(), final(f).observed()),
            forall|i: int|
                old(f).observed().len() <= i < final(f).observed().len()
                    ==> self.in_snap_ranges((#[trigger] final(f).observed()[i]).0),
            (r matches Ok(()) && !final(f).stopped()) ==> final(f).observed() == old(f).observed()
                + self.full_scan_log(snap),
            self.scan_log_is_staged(snap, old(f).observed(), final(f).observed()),
            r matches Err(e) ==> e == Error::StorageIOError,
            (final(f).stopped() && final(f).observed().len() > old(f).observed().len()
                && !self.in_meta_range(final(f).observed().last().0) && !self.in_data_range(
                final(f).observed().last().0,
            )) ==> forall|i: int|
                old(f).observed().len() <= i < final(f).observed().len()
                    ==> self.in_raft_range((#[trigger] final(f).observed()[i]).0),
    {
        let ghost obs0 = f.observed();
        let ranges = self.region_key_ranges();
        match snap.scan(&ranges[0].0, &ranges[0].1, f) {
            Err(e) => {
                proof {
                    self.lemma_staged_after_first(snap, obs0, f.observed());
                }
                return Err(e);
            },
            Ok(false) => {
                proof {
                    self.lemma_staged_after_first(snap, obs0, f.observed());
                }
                return Ok(());
            },
            Ok(true) => {},
        }
        let ghost obs1 = f.observed();
        match snap.scan(&ranges[1].0, &ranges[1].1, f) {
            Err(e) => {
                proof {
                    self.lemma_after_second_scan(obs0, obs1, f.observed());
                    self.lemma_staged_after_second(snap, obs0, obs1, f.observed());
                }
                return Err(e);
            },
            Ok(false) => {
                proof {
                    self.lemma_after_second_scan(obs0, obs1, f.observed());
                    self.lemma_staged_after_second(snap, obs0, obs1, f.observed());
                }
                return Ok(());
            },
            Ok(true) => {},
        }
        let ghost obs2 = f.observed();
        let res = match snap.scan(&ranges[2].0, &ranges[2].1, f) {
            Err(e) => Err(e),
            Ok(completed) => {
                proof {
                    if completed {
                        assert(obs1 == obs0 + in_range_entries(
                            snap.entries(),
                            self.spec_raft_range().0,
                            self.spec_raft_range().1,
                        ));
                        assert(obs2 == obs1 + in_range_entries(
                            snap.entries(),
                            self.spec_meta_range().0,
                            self.spec_meta_range().1,
                        ));
                        assert(f.observed() == obs2 + in_range_entries(
                            snap.entries(),
                            self.spec_data_range().0,
                            self.spec_data_range().1,
                        ));
                        assert(f.observed() =~= obs0 + self.full_scan_log(snap));
                    }
                }
                Ok(())
            },
        };
        proof {
            self.lemma_after_third_scan(obs0, obs1, obs2, f.observed());
            self.lemma_staged_after_third(snap, obs0, obs1, obs2, f.observed());
        }
        res
    }

    /// A return during the first range leaves the log a partial first range.
    proof fn lemma_staged_after_first<S: SnapshotView>(
        &self,
        snap: &S,
        obs0: Seq<(Seq<u8>, Seq<u8>)>,
        obs1: Seq<(Seq<u8>, Seq<u8>)>,
    )
        requires
            exists|n: int|
                #![auto]
                0 <= n <= snap.entries().len() && obs1 == obs0 + in_range_entries(
                    snap.entries().take(n),
                    self.spec_raft_range().0,
                    self.spec_raft_range().1,
                ),
        ensures
            self.scan_log_is_staged(snap, obs0, obs1),
    {
    }

    /// A return during the second range leaves the log the whole first range
    /// and a partial second.
    proof fn lemma_staged_after_second<S: SnapshotView>(
        &self,
        snap: &S,
        obs0: Seq<(Seq<u8>, Seq<u8>)>,
        obs1: Seq<(Seq<u8>, Seq<u8>)>,
        obs2: Seq<(Seq<u8>, Seq<u8>)>,
    )
        requires
            obs1 == obs0 + in_range_entries(
                snap.entries(),
                self.spec_raft_range().0,
                self.spec_raft_range().1,
            ),
            exists|n: int|
                #![auto]
                0 <= n <= snap.entries().len() && obs2 == obs1 + in_range_entries(
                    snap.entries().take(n),
                    self.spec_meta_range().0,
                    self.spec_meta_range().1,
                ),
        ensures
            self.scan_log_is_staged(snap, obs0, obs2),
    {
        let n = choose|n: int|
            #![auto]
            0 <= n <= snap.entries().len() && obs2 == obs1 + in_range_entries(
                snap.entries().take(n),
                self.spec_meta_range().0,
                self.spec_meta_range().1,
            );
        assert(obs2 == obs0 + in_range_entries(
            snap.entries(),
            self.spec_raft_range().0,
            self.spec_raft_range().1,
        ) + in_range_entries(
            snap.entries().take(n),
            self.spec_meta_range().0,
            self.spec_meta_range().1,
        ));
    }

    /// A return during the third range leaves the log the first two whole
    /// ranges and a partial third.
    proof fn lemma_staged_after_third<S: SnapshotView>(
        &self,
        snap: &S,
        obs0: Seq<(Seq<u8>, Seq<u8>)>,
        obs1: Seq<(Seq<u8>, Seq<u8>)>,
        obs2: Seq<(Seq<u8>, Seq<u8>)>,
        obs3: Seq<(Seq<u8>, Seq<u8>)>,
    )
        requires
            obs1 == obs0 + in_range_entries(
                snap.entries(),
                self.spec_raft_range().0,
                self.spec_raft_range().1,
            ),
            obs2 == obs1 + in_range_entries(
                snap.entries(),
                self.spec_meta_range().0,
                self.spec_meta_range().1,
            ),
            exists|n: int|
                #![auto]
                0 <= n <= snap.entries().len() && obs3 == obs2 + in_range_entries(
                    snap.entries().take(n),
                    self.spec_data_range().0,
                    self.spec_data_range().1,
                ),
        ensures
            self.scan_log_is_staged(snap, obs0, obs3),
    {
        let n = choose|n: int|
            #![auto]
            0 <= n <= snap.entries().len() && obs3 == obs2 + in_range_entries(
                snap.entries().take(n),
                self.spec_data_range().0,
                self.spec_data_range().1,
            );
        assert(obs3 == obs0 + in_range_entries(
            snap.entries(),
            self.spec_raft_range().0,
            self.spec_raft_range().1,
        ) + in_range_entries(
            snap.entries(),
            self.spec_meta_range().0,
            self.spec_meta_range().1,
        ) + in_range_entries(
            snap.entries().take(n),
            self.spec_data_range().0,
            self.spec_data_range().1,
        ));
    }

    /// After the descriptor-range scan: every entry visited since `obs0` lies
    /// in the first two ranges, and if only first-range entries were added,
    /// they all lie in the first range.
    proof fn lemma_after_second_scan(
        &self,
        obs0: Seq<(Seq<u8>, Seq<u8>)>,
        obs1: Seq<(Seq<u8>, Seq<u8>)>,
        obs2: Seq<(Seq<u8>, Seq<u8>)>,
    )
        requires
            log_extends(obs0, obs1),
            log_extends(obs1, obs2),
            forall|i: int|
                obs0.len() <= i < obs1.len() ==> self.in_raft_range((#[trigger] obs1[i]).0),
            forall|i: int|
                obs1.len() <= i < obs2.len() ==> self.in_meta_range((#[trigger] obs2[i]).0),
        ensures
            log_extends(obs0, obs2),
            forall|i: int| obs0.len() <= i < obs2.len() ==> self.in_snap_ranges((#[trigger] obs2[i]).0),
            obs2.len() > obs0.len() && !self.in_meta_range(obs2.last().0) ==> forall|i: int|
                obs0.len() <= i < obs2.len() ==> self.in_raft_range((#[trigger] obs2[i]).0),
    {
        assert forall|i: int| obs0.len() <= i < obs2.len() implies self.in_snap_ranges(
            (#[trigger] obs2[i]).0,
        ) by {
            if i < obs1.len() {
                assert(obs2[i] == obs1[i]);
            }
        }
        if obs2.len() > obs0.len() && !self.in_meta_range(obs2.last().0) {
            assert(obs2.len() == obs1.len());
            assert forall|i: int| obs0.len() <= i < obs2.len() implies self.in_raft_range(
                (#[trigger] obs2[i]).0,
            ) by {
                assert(obs2[i] == obs1[i]);
            }
        }
    }

    /// After the data-range scan: every entry visited since `obs0` lies in
    /// one of the three ranges, and a trailing entry outside the descriptor
    /// and data ranges means nothing beyond the first range was visited.
    proof fn lemma_after_third_scan(
        &self,
        obs0: Seq<(Seq<u8>, Seq<u8>)>,
        obs1: Seq<(Seq<u8>, Seq<u8>)>,
        obs2: Seq<(Seq<u8>, Seq<u8>)>,
        obs3: Seq<(Seq<u8>, Seq<u8>)>,
    )
        requires
            log_extends(obs0, obs1),
            log_extends(obs1, obs2),
            log_extends(obs2, obs3),
            forall|i: int|
                obs0.len() <= i < obs1.len() ==> self.in_raft_range((#[trigger] obs1[i]).0),
            forall|i: int|
                obs1.len() <= i < obs2.len() ==> self.in_meta_range((#[trigger] obs2[i]).0),
            forall|i: int|
                obs2.len() <= i < obs3.len() ==> self.in_data_range((#[trigger] obs3[i]).0),
        ensures
            log_extends(obs0, obs3),
            forall|i: int| obs0.len() <= i < obs3.len() ==> self.in_snap_ranges((#[trigger] obs3[i]).0),
            (obs3.len() > obs0.len() && !self.in_meta_range(obs3.last().0) && !self.in_data_range(
                obs3.last().0,
            )) ==> forall|i: int|
                obs0.len() <= i < obs3.len() ==> self.in_raft_range((#[trigger] obs3[i]).0),
    {
        assert forall|i: int| obs0.len() <= i < obs3.len() implies self.in_snap_ranges(
            (#[trigger] obs3[i]).0,
        ) by {
            if i < obs1.len() {
                assert(obs3[i] == obs2[i]);
                assert(obs2[i] == obs1[i]);
            } else if i < obs2.len() {
                assert(obs3[i] == obs2[i]);
            }
        }
        if obs3.len() > obs0.len() && !self.in_meta_range(obs3.last().0) && !self.in_data_range(
            obs3.last().0,
        ) {
            assert(obs3.len() == obs2.len());
            if obs2.len() > obs1.len() {
                assert(obs3.last() == obs2[obs2.len() - 1]);
                assert(self.in_meta_range(obs3.last().0));
            }
            assert(obs2.len() == obs1.len());
            assert forall|i: int| obs0.len() <= i < obs3.len() implies self.in_raft_range(
                (#[trigger] obs3[i]).0,
            ) by {
                assert(obs3[i] == obs2[i]);
                assert(obs2[i] == obs1[i]);
            }
        }
    }
}

/// The first retrievable index is one past the resolved truncated index, for
/// defaulted and persisted truncated states alike.
pub proof fn lemma_first_index_follows_truncation(
    persisted: Option<TruncatedState>,
    initialized: bool,
)
    requires
        resolved_truncated_state(persisted, initialized).index < u64::MAX,
    ensures
        first_index_of(resolved_truncated_state(persisted, initialized))
            == resolved_truncated_state(persisted, initialized).index + 1,
{
}

/// Loading never rewrites a persisted truncated state: a record that was
/// written is resolved to identical index and term, whatever the region's
/// initialization status.
pub proof fn lemma_truncated_state_round_trip(written: TruncatedState, initialized: bool)
    ensures
        resolved_truncated_state(Some(written), initialized) == written,
{
}

/// A persisted applied index always wins over the initialization default.
pub proof fn lemma_applied_index_prefers_persisted(persisted: u64, initialized: bool)
    ensures
        resolved_applied_index(Some(persisted), initialized) == persisted,
{
}

} // verus!
