//! Control plane of one collection of a distributed vector-search cluster.
//!
//! A collection is a set of points partitioned over a fixed number of shards;
//! each shard is replicated on one or more peers. This crate holds the
//! verified core of the per-collection coordinator: the replica-set and
//! shard-transfer state machines, the hash ring that routes points to shards,
//! the fan-out/merge logic of queries and updates, and the snapshot naming and
//! path rules. Networking, storage and the async runtime live outside and
//! exchange plain values with this library.

pub mod types;
pub mod config;
pub mod version;
pub mod hash_ring;
pub mod replica_set;
pub mod transfer;
pub mod shard_holder;
pub mod collection;
pub mod search;
pub mod update;
pub mod snapshot;
