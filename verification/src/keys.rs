use vstd::prelude::*;
use crate::order::{
    lex_le, lex_lt, lemma_lex_le_lt_trans, lemma_lex_lt_irrefl, lemma_lex_lt_le_trans,
    lemma_lex_prepend, lemma_u64_be_bytes_order, push_u64_be, u64_be_bytes,
};

verus! {

/// First byte of every locally reserved (non-replicated) key.
pub const LOCAL_PREFIX: u8 = 1;

/// First byte of the smallest key above the locally reserved keyspace.
pub const LOCAL_MAX_BYTE: u8 = 2;

/// Second byte of per-region raft metadata keys.
pub const REGION_RAFT_PREFIX: u8 = 2;

/// Second byte of region descriptor (meta) keys.
pub const REGION_META_PREFIX: u8 = 3;

/// Field tag of the persisted truncated state record.
pub const RAFT_TRUNCATED_STATE_SUFFIX: u8 = 1;

/// Field tag of the persisted last-index counter.
pub const RAFT_LAST_INDEX_SUFFIX: u8 = 2;

/// Field tag of the persisted applied-index counter.
pub const RAFT_APPLIED_INDEX_SUFFIX: u8 = 3;

/// The engine's absolute minimum key: the empty byte string.
pub open spec fn min_key_spec() -> Seq<u8> {
    Seq::<u8>::empty()
}

/// Exclusive upper bound of the locally reserved keyspace. Every local key
/// starts with `LOCAL_PREFIX` and therefore sorts below it; every key at or
/// above it is free for application data.
pub open spec fn local_max_spec() -> Seq<u8> {
    seq![LOCAL_MAX_BYTE]
}

/// Start of the half-open interval holding exactly one region's local raft
/// metadata: the local tag followed by the fixed-width big-endian region id.
pub open spec fn region_id_prefix_spec(region_id: u64) -> Seq<u8> {
    seq![LOCAL_PREFIX, REGION_RAFT_PREFIX] + u64_be_bytes(region_id)
}

/// Key of the persisted truncated state of one region.
pub open spec fn raft_truncated_state_key_spec(region_id: u64) -> Seq<u8> {
    region_id_prefix_spec(region_id).push(RAFT_TRUNCATED_STATE_SUFFIX)
}

/// Key of the persisted last-index counter of one region.
pub open spec fn raft_last_index_key_spec(region_id: u64) -> Seq<u8> {
    region_id_prefix_spec(region_id).push(RAFT_LAST_INDEX_SUFFIX)
}

/// Key of the persisted applied-index counter of one region.
pub open spec fn raft_applied_index_key_spec(region_id: u64) -> Seq<u8> {
    region_id_prefix_spec(region_id).push(RAFT_APPLIED_INDEX_SUFFIX)
}

/// Image of a region boundary in the meta namespace; prepending a fixed tag
/// preserves the relative order of boundaries.
pub open spec fn region_meta_prefix_spec(boundary_key: Seq<u8>) -> Seq<u8> {
    seq![LOCAL_PREFIX, REGION_META_PREFIX] + boundary_key
}

/// The engine's absolute minimum key.
pub fn min_key() -> (r: Vec<u8>)
    ensures
        r@ == min_key_spec(),
{
    let v: Vec<u8> = Vec::new();
    proof {
        assert(v@ =~= min_key_spec());
    }
    v
}

/// First key above the locally reserved keyspace.
pub fn local_max() -> (r: Vec<u8>)
    ensures
        r@ == local_max_spec(),
{
    let mut v: Vec<u8> = Vec::new();
    v.push(LOCAL_MAX_BYTE);
    proof {
        assert(v@ =~= local_max_spec());
    }
    v
}

/// Start of the half-open interval `[prefix(id), prefix(id + 1))` spanning
/// exactly one region's local raft metadata.
pub fn region_id_prefix(region_id: u64) -> (r: Vec<u8>)
    ensures
        r@ == region_id_prefix_spec(region_id),
{
    let mut v: Vec<u8> = Vec::new();
    v.push(LOCAL_PREFIX);
    v.push(REGION_RAFT_PREFIX);
    push_u64_be(&mut v, region_id);
    proof {
        assert(v@ =~= region_id_prefix_spec(region_id));
    }
    v
}

/// Key under which one region's truncated state is persisted.
pub fn raft_truncated_state_key(region_id: u64) -> (r: Vec<u8>)
    ensures
        r@ == raft_truncated_state_key_spec(region_id),
{
    let mut v = region_id_prefix(region_id);
    v.push(RAFT_TRUNCATED_STATE_SUFFIX);
    v
}

/// Key under which one region's last index is persisted.
pub fn raft_last_index_key(region_id: u64) -> (r: Vec<u8>)
    ensures
        r@ == raft_last_index_key_spec(region_id),
{
    let mut v = region_id_prefix(region_id);
    v.push(RAFT_LAST_INDEX_SUFFIX);
    v
}

/// Key under which one region's applied index is persisted.
pub fn raft_applied_index_key(region_id: u64) -> (r: Vec<u8>)
    ensures
        r@ == raft_applied_index_key_spec(region_id),
{
    let mut v = region_id_prefix(region_id);
    v.push(RAFT_APPLIED_INDEX_SUFFIX);
    v
}

/// Maps a region boundary into the meta namespace.
pub fn region_meta_prefix(boundary_key: &Vec<u8>) -> (r: Vec<u8>)
    ensures
        r@ == region_meta_prefix_spec(boundary_key@),
{
    let mut v: Vec<u8> = Vec::new();
    v.push(LOCAL_PREFIX);
    v.push(REGION_META_PREFIX);
    let mut i: usize = 0;
    proof {
        assert(v@ =~= seq![LOCAL_PREFIX, REGION_META_PREFIX] + boundary_key@.subrange(0, 0));
    }
    while i < boundary_key.len()
        invariant
            i <= boundary_key@.len(),
            v@ == seq![LOCAL_PREFIX, REGION_META_PREFIX] + boundary_key@.subrange(0, i as int),
        decreases boundary_key@.len() - i,
    {
        v.push(boundary_key[i]);
        proof {
            assert(v@ =~= seq![LOCAL_PREFIX, REGION_META_PREFIX] + boundary_key@.subrange(
                0,
                i as int + 1,
            ));
        }
        i += 1;
    }
    proof {
        assert(boundary_key@.subrange(0, boundary_key@.len() as int) =~= boundary_key@);
    }
    v
}

/// Region-id prefixes are strictly ordered: a larger id owns a
/// lexicographically larger prefix, so `prefix(id) < prefix(id + 1)` always.
pub proof fn lemma_region_id_prefix_order(r1: u64, r2: u64)
    requires
        r1 < r2,
    ensures
        lex_lt(region_id_prefix_spec(r1), region_id_prefix_spec(r2)),
{
    lemma_u64_be_bytes_order(r1, r2);
    lemma_lex_prepend(
        seq![LOCAL_PREFIX, REGION_RAFT_PREFIX],
        u64_be_bytes(r1),
        u64_be_bytes(r2),
    );
}

/// The region-id encoding is injective: distinct ids own distinct prefixes.
pub proof fn lemma_region_id_prefix_injective(r1: u64, r2: u64)
    requires
        r1 != r2,
    ensures
        region_id_prefix_spec(r1) != region_id_prefix_spec(r2),
{
    if region_id_prefix_spec(r1) == region_id_prefix_spec(r2) {
        if r1 < r2 {
            lemma_region_id_prefix_order(r1, r2);
        } else {
            lemma_region_id_prefix_order(r2, r1);
        }
        lemma_lex_lt_irrefl(region_id_prefix_spec(r1));
    }
}

/// Mapping boundaries into the meta namespace preserves their relative
/// order, so region descriptors sort by their data range.
pub proof fn lemma_region_meta_prefix_order(a: Seq<u8>, b: Seq<u8>)
    requires
        lex_lt(a, b),
    ensures
        lex_lt(region_meta_prefix_spec(a), region_meta_prefix_spec(b)),
{
    lemma_lex_prepend(seq![LOCAL_PREFIX, REGION_META_PREFIX], a, b);
}

/// Membership of a key in the half-open local-metadata interval
/// `[prefix(id), prefix(id + 1))` of one region.
pub open spec fn region_id_range_contains(region_id: u64, k: Seq<u8>) -> bool
    recommends
        region_id < u64::MAX,
{
    lex_le(region_id_prefix_spec(region_id), k) && lex_lt(
        k,
        region_id_prefix_spec((region_id + 1) as u64),
    )
}

/// The local-metadata intervals of two distinct regions share no key: one
/// region's local records can never bleed into another's.
pub proof fn lemma_region_id_ranges_disjoint(r1: u64, r2: u64, k: Seq<u8>)
    requires
        r1 != r2,
        r1 < u64::MAX,
        r2 < u64::MAX,
    ensures
        !(region_id_range_contains(r1, k) && region_id_range_contains(r2, k)),
{
    if region_id_range_contains(r1, k) && region_id_range_contains(r2, k) {
        let lo = if r1 < r2 { r1 } else { r2 };
        let hi = if r1 < r2 { r2 } else { r1 };
        let lo_end = region_id_prefix_spec((lo + 1) as u64);
        let hi_start = region_id_prefix_spec(hi);
        if lo + 1 < hi {
            lemma_region_id_prefix_order((lo + 1) as u64, hi);
        }
        lemma_lex_lt_le_trans(k, lo_end, hi_start);
        lemma_lex_le_lt_trans(hi_start, k, hi_start);
        lemma_lex_lt_irrefl(hi_start);
    }
}

} // verus!
