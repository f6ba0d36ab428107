//! Per-region replica metadata and raft-log-truncation tracking for a
//! multi-raft key-value store: many independently replicated regions share one
//! ordered engine, each owning disjoint key ranges.
//!
//! The crate partitions the engine's flat keyspace into three disjoint
//! namespaces (locally reserved raft metadata, region descriptors, region
//! data), tracks per-region counters (truncated state, last index, applied
//! index) with explicit bootstrap defaults, and derives the ordered key ranges
//! that a consistent snapshot of one region must cover.

pub mod engine;
pub mod errors;
pub mod keys;
pub mod order;
pub mod peer_meta;
