use collection_coordinator::collection::{Change, Collection, CoordinatorAction};
use collection_coordinator::config::{
    CollectionConfig, CollectionParams, Distance, HnswConfig, OptimizersConfig, VectorParams,
    WalConfig,
};
use collection_coordinator::transfer::ShardTransfer;
use collection_coordinator::types::{CollectionError, NodeType, PeerId, ReplicaState};

fn default_config(shard_number: u32) -> CollectionConfig {
    CollectionConfig {
        params: CollectionParams {
            shard_number,
            replication_factor: 1,
            write_consistency_factor: 1,
            vectors: vec![VectorParams { name_id: 0, distance: Distance::Cosine }],
        },
        hnsw_config: HnswConfig { m: 16, ef_construct: 100, full_scan_threshold: 10000 },
        optimizer_config: OptimizersConfig {
            deleted_threshold_permille: 200,
            default_segment_number: 0,
            max_segment_size: 200000,
            flush_interval_sec: 5,
        },
        wal_config: WalConfig { wal_capacity_mb: 32, wal_segments_ahead: 0 },
        quantization_config: None,
    }
}

fn new_collection(this_peer: PeerId, dist: &[(u32, Vec<PeerId>)]) -> Collection {
    let dist: Vec<(u32, Vec<PeerId>)> = dist.to_vec();
    Collection::new(
        String::from("replica_test"),
        this_peer,
        default_config(dist.len() as u32),
        &dist,
        NodeType::Normal,
    )
    .unwrap()
}

const PEER_A: PeerId = 1;
const PEER_B: PeerId = 2;

#[test]
fn last_active_deactivation_rejected() {
    let mut c = new_collection(PEER_A, &[(0, vec![PEER_A])]);
    c.set_shard_replica_state(0, PEER_A, ReplicaState::Active, None).unwrap();

    let r = c.set_shard_replica_state(0, PEER_A, ReplicaState::Dead, None);
    assert!(matches!(r, Err(CollectionError::BadInput { .. })));
    // the replica is still Active
    assert_eq!(
        c.shards_holder.shards[0].peer_state(&PEER_A),
        Some(ReplicaState::Active)
    );
}

#[test]
fn no_sequence_of_state_changes_loses_the_last_active() {
    let mut c = new_collection(PEER_A, &[(0, vec![PEER_A, PEER_B])]);
    c.set_shard_replica_state(0, PEER_A, ReplicaState::Active, None).unwrap();
    c.set_shard_replica_state(0, PEER_B, ReplicaState::Active, None).unwrap();

    let attempts = [
        (PEER_A, ReplicaState::Dead),
        (PEER_B, ReplicaState::Listener),
        (PEER_B, ReplicaState::Dead),
        (PEER_A, ReplicaState::Partial),
        (PEER_A, ReplicaState::Initializing),
    ];
    for (peer, state) in attempts {
        let _ = c.set_shard_replica_state(0, peer, state, None);
        let actives = c.shards_holder.shards[0]
            .peers()
            .into_iter()
            .filter(|(_, s)| *s == ReplicaState::Active)
            .count();
        assert!(actives >= 1, "a legitimate call sequence lost the last active replica");
    }
}

#[test]
fn from_state_mismatch_rejected() {
    let mut c = new_collection(PEER_A, &[(0, vec![PEER_A, PEER_B])]);
    c.set_shard_replica_state(0, PEER_A, ReplicaState::Active, None).unwrap();
    let r = c.set_shard_replica_state(
        0,
        PEER_A,
        ReplicaState::Listener,
        Some(ReplicaState::Partial),
    );
    assert!(matches!(r, Err(CollectionError::BadInput { .. })));
    let ok = c.set_shard_replica_state(
        0,
        PEER_B,
        ReplicaState::Active,
        Some(ReplicaState::Initializing),
    );
    assert!(ok.is_ok());
}

#[test]
fn unknown_shard_not_found() {
    let mut c = new_collection(PEER_A, &[(0, vec![PEER_A])]);
    let r = c.set_shard_replica_state(7, PEER_A, ReplicaState::Active, None);
    assert!(matches!(r, Err(CollectionError::NotFound { .. })));
}

#[test]
fn own_dead_replica_requests_recovery_transfer() {
    let mut c = new_collection(PEER_A, &[(0, vec![PEER_A, PEER_B])]);
    c.set_shard_replica_state(0, PEER_A, ReplicaState::Active, None).unwrap();
    c.set_shard_replica_state(0, PEER_B, ReplicaState::Active, None).unwrap();

    let actions = c.set_shard_replica_state(0, PEER_A, ReplicaState::Dead, None).unwrap();
    assert_eq!(
        actions,
        vec![CoordinatorAction::RequestShardTransfer {
            transfer: ShardTransfer { shard_id: 0, from: PEER_B, to: PEER_A, sync: true },
        }]
    );
}

#[test]
fn dead_peer_terminates_related_transfers() {
    let mut c = new_collection(PEER_A, &[(0, vec![PEER_A, PEER_B])]);
    c.set_shard_replica_state(0, PEER_A, ReplicaState::Active, None).unwrap();
    c.set_shard_replica_state(0, PEER_B, ReplicaState::Active, None).unwrap();
    let t = ShardTransfer { shard_id: 0, from: PEER_A, to: PEER_B, sync: true };
    assert_eq!(c.start_shard_transfer(t).unwrap(), true);
    assert!(c.get_transfer(&t.key()).is_some());

    // B dies: the transfer towards it is aborted and deregistered
    c.set_shard_replica_state(0, PEER_B, ReplicaState::Dead, None).unwrap();
    assert!(c.get_transfer(&t.key()).is_none());
}

#[test]
fn initialization_latch_flips_once_all_active() {
    let mut c = new_collection(PEER_A, &[(0, vec![PEER_A, PEER_B]), (1, vec![PEER_A])]);
    assert!(!c.is_initialized);
    c.set_shard_replica_state(0, PEER_A, ReplicaState::Active, None).unwrap();
    assert!(!c.is_initialized);
    c.set_shard_replica_state(0, PEER_B, ReplicaState::Active, None).unwrap();
    assert!(!c.is_initialized);
    c.set_shard_replica_state(1, PEER_A, ReplicaState::Active, None).unwrap();
    assert!(c.is_initialized);
    assert!(c.is_all_active());
}

#[test]
fn handle_replica_changes_validations() {
    let mut c = new_collection(PEER_A, &[(0, vec![PEER_A, PEER_B])]);
    // unknown shard
    let r = c.handle_replica_changes(vec![Change::Remove(9, PEER_A)]);
    assert!(matches!(r, Err(CollectionError::BadRequest { .. })));
    // peer without replica
    let r = c.handle_replica_changes(vec![Change::Remove(0, 77)]);
    assert!(matches!(r, Err(CollectionError::BadRequest { .. })));
    // a successful removal
    c.handle_replica_changes(vec![Change::Remove(0, PEER_B)]).unwrap();
    assert_eq!(c.shards_holder.shards[0].peer_state(&PEER_B), None);
    // removing the only replica left is rejected
    let r = c.handle_replica_changes(vec![Change::Remove(0, PEER_A)]);
    assert!(matches!(r, Err(CollectionError::BadRequest { .. })));
}

#[test]
fn reads_prefer_the_local_active_replica() {
    let mut c = new_collection(PEER_A, &[(0, vec![PEER_A, PEER_B])]);
    c.set_shard_replica_state(0, PEER_A, ReplicaState::Active, None).unwrap();
    c.set_shard_replica_state(0, PEER_B, ReplicaState::Active, None).unwrap();
    // the local replica leads, the Active remote is the fallback
    assert_eq!(c.shards_holder.shards[0].read_candidates(), vec![PEER_A, PEER_B]);
    // a dead local replica serves no reads
    c.set_shard_replica_state(0, PEER_A, ReplicaState::Dead, None).unwrap();
    assert_eq!(c.shards_holder.shards[0].read_candidates(), vec![PEER_B]);
}

#[test]
fn remove_shards_at_peer_clears_peer() {
    let mut c = new_collection(PEER_A, &[(0, vec![PEER_A, PEER_B]), (1, vec![PEER_A, PEER_B])]);
    c.remove_shards_at_peer(PEER_B).unwrap();
    assert_eq!(c.shards_holder.shards[0].peer_state(&PEER_B), None);
    assert_eq!(c.shards_holder.shards[1].peer_state(&PEER_B), None);
    assert!(c.shards_holder.shards[0].peer_state(&PEER_A).is_some());
}
