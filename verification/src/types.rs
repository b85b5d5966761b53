//! Identifiers, replica states and the error taxonomy of the coordinator.

use vstd::prelude::*;

verus! {

/// Cluster-unique identifier of a node.
pub type PeerId = u64;

/// Identifier of one shard, stable for the life of the collection.
pub type ShardId = u32;

/// Identifier of a point: a plain number or a 128-bit UUID value.
#[derive(Clone, Copy, PartialEq, Eq, Structural, Debug)]
pub enum PointId {
    Num(u64),
    Uuid(u128),
}

/// Per-peer state of one replica of a shard.
#[derive(Clone, Copy, PartialEq, Eq, Structural, Debug)]
pub enum ReplicaState {
    /// Serves reads and writes.
    Active,
    /// Excluded from reads; writes that target it are tolerated failures.
    Dead,
    /// Receiving a transfer; accepts and buffers writes, serves no reads.
    Partial,
    /// Created but never activated.
    Initializing,
    /// Read-only follower; applies writes but is never the last active.
    Listener,
}

/// Node-wide mode of this peer.
#[derive(Clone, Copy, PartialEq, Eq, Structural, Debug)]
pub enum NodeType {
    Normal,
    Listener,
}

/// Status of an applied update operation.
#[derive(Clone, Copy, PartialEq, Eq, Structural, Debug)]
pub enum UpdateStatus {
    Acknowledged,
    Completed,
}

/// Outcome of one update operation on one shard.
#[derive(Clone, Copy, PartialEq, Eq, Structural, Debug)]
pub struct UpdateResult {
    pub operation_id: u64,
    pub status: UpdateStatus,
}

/// Ordering guarantee requested for a client write.
#[derive(Clone, Copy, PartialEq, Eq, Structural, Debug)]
pub enum WriteOrdering {
    Weak,
    Medium,
    Strong,
}

/// Errors surfaced at the coordinator boundary.
#[derive(Debug)]
pub enum CollectionError {
    /// The request itself is malformed or not allowed in the current state.
    BadInput { description: String },
    /// The request addresses something in a wrong way.
    BadRequest { description: String },
    /// The addressed shard, snapshot or transfer does not exist.
    NotFound { what: String },
    /// An internal invariant did not hold.
    ServiceError { error: String },
    /// A bounded wait ran out.
    Timeout { description: String },
    /// A batched update succeeded on some shards and failed on others.
    InconsistentShardFailure {
        shards_total: u32,
        shards_failed: u32,
        first_err: Box<CollectionError>,
    },
}

impl CollectionError {
    pub fn bad_input(description: String) -> (r: CollectionError)
        ensures
            r is BadInput,
    {
        CollectionError::BadInput { description }
    }

    pub fn bad_request(description: String) -> (r: CollectionError)
        ensures
            r is BadRequest,
    {
        CollectionError::BadRequest { description }
    }

    pub fn not_found(what: String) -> (r: CollectionError)
        ensures
            r is NotFound,
    {
        CollectionError::NotFound { what }
    }

    pub fn service_error(error: String) -> (r: CollectionError)
        ensures
            r is ServiceError,
    {
        CollectionError::ServiceError { error }
    }
}

} // verus!
