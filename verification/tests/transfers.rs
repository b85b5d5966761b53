use collection_coordinator::collection::Collection;
use collection_coordinator::config::{
    CollectionConfig, CollectionParams, Distance, HnswConfig, OptimizersConfig, VectorParams,
    WalConfig,
};
use collection_coordinator::replica_set::LocalReplica;
use collection_coordinator::transfer::{ShardTransfer, TaskResult};
use collection_coordinator::types::{CollectionError, NodeType, PeerId, ReplicaState};

fn default_config(shard_number: u32) -> CollectionConfig {
    CollectionConfig {
        params: CollectionParams {
            shard_number,
            replication_factor: 1,
            write_consistency_factor: 1,
            vectors: vec![VectorParams { name_id: 0, distance: Distance::Cosine }],
        },
        hnsw_config: HnswConfig { m: 16, ef_construct: 100, full_scan_threshold: 10000 },
        optimizer_config: OptimizersConfig {
            deleted_threshold_permille: 200,
            default_segment_number: 0,
            max_segment_size: 200000,
            flush_interval_sec: 5,
        },
        wal_config: WalConfig { wal_capacity_mb: 32, wal_segments_ahead: 0 },
        quantization_config: None,
    }
}

const PEER_A: PeerId = 100;
const PEER_B: PeerId = 200;
const PEER_C: PeerId = 300;

/// One coordinator per peer, shard 5 replicated on A and C, absent on B.
fn three_peer_setup() -> (Collection, Collection, Collection) {
    let dist = vec![(5u32, vec![PEER_A, PEER_C])];
    let mut out = Vec::new();
    for peer in [PEER_A, PEER_B, PEER_C] {
        let mut c = Collection::new(
            String::from("transfer_test"),
            peer,
            default_config(1),
            &dist,
            NodeType::Normal,
        )
        .unwrap();
        c.set_shard_replica_state(5, PEER_A, ReplicaState::Active, None).unwrap();
        c.set_shard_replica_state(5, PEER_C, ReplicaState::Active, None).unwrap();
        out.push(c);
    }
    let c3 = out.pop().unwrap();
    let c2 = out.pop().unwrap();
    let c1 = out.pop().unwrap();
    (c1, c2, c3)
}

fn peer_state(c: &Collection, peer: PeerId) -> Option<ReplicaState> {
    c.shards_holder.shards[0].peer_state(&peer)
}

#[test]
fn transfer_happy_path() {
    let (mut a, mut b, mut c) = three_peer_setup();
    let t = ShardTransfer { shard_id: 5, from: PEER_A, to: PEER_B, sync: false };

    // start: the sender begins streaming, everyone marks B as Partial
    assert_eq!(a.start_shard_transfer(t).unwrap(), true);
    assert_eq!(b.start_shard_transfer(t).unwrap(), false);
    assert_eq!(c.start_shard_transfer(t).unwrap(), false);

    // live writes on A go through a forward proxy towards B
    assert!(matches!(a.shards_holder.shards[0].local, LocalReplica::ForwardProxy { to } if to == PEER_B));
    assert_eq!(peer_state(&a, PEER_B), Some(ReplicaState::Partial));
    // B created an empty local replica in Partial
    assert!(matches!(b.shards_holder.shards[0].local, LocalReplica::Local));
    assert_eq!(peer_state(&b, PEER_B), Some(ReplicaState::Partial));

    // completion on every peer
    a.finish_shard_transfer(t).unwrap();
    b.finish_shard_transfer(t).unwrap();
    b.set_shard_replica_state(5, PEER_B, ReplicaState::Active, None).unwrap();
    a.set_shard_replica_state(5, PEER_B, ReplicaState::Active, None).unwrap();
    c.finish_shard_transfer(t).unwrap();

    // A keeps its local replica (not a sync transfer), both A and B Active
    assert!(matches!(a.shards_holder.shards[0].local, LocalReplica::Local));
    assert_eq!(peer_state(&a, PEER_A), Some(ReplicaState::Active));
    assert_eq!(peer_state(&b, PEER_B), Some(ReplicaState::Active));

    // C's remote stub for shard 5 still points at A
    assert!(c.shards_holder.shards[0].remotes.contains(&PEER_A));

    // the transfer is deregistered everywhere
    assert!(a.get_transfer(&t.key()).is_none());
    assert!(b.get_transfer(&t.key()).is_none());

    // a second finish is a no-op
    let before = a.shards_holder.shards[0].peers();
    a.finish_shard_transfer(t).unwrap();
    assert_eq!(a.shards_holder.shards[0].peers(), before);
    assert!(matches!(a.shards_holder.shards[0].local, LocalReplica::Local));
}

#[test]
fn transfer_abort_non_sync_removes_destination() {
    let (mut a, _b, _c) = three_peer_setup();
    let t = ShardTransfer { shard_id: 5, from: PEER_A, to: PEER_B, sync: false };
    assert_eq!(a.start_shard_transfer(t).unwrap(), true);
    assert!(a.get_transfer(&t.key()).is_some());

    a.abort_shard_transfer(t.key()).unwrap();

    // B's replica entry is removed, A's proxy unwrapped, the key gone
    assert_eq!(peer_state(&a, PEER_B), None);
    assert!(matches!(a.shards_holder.shards[0].local, LocalReplica::Local));
    assert!(a.get_transfer(&t.key()).is_none());
}

#[test]
fn transfer_abort_sync_marks_destination_dead() {
    let (mut a, _b, _c) = three_peer_setup();
    let t = ShardTransfer { shard_id: 5, from: PEER_A, to: PEER_B, sync: true };
    assert_eq!(a.start_shard_transfer(t).unwrap(), true);

    a.abort_shard_transfer(t.key()).unwrap();

    // with sync=true the partial data is kept: B goes Dead, not removed
    assert_eq!(peer_state(&a, PEER_B), Some(ReplicaState::Dead));
    assert!(a.get_transfer(&t.key()).is_none());
}

#[test]
fn abort_is_idempotent() {
    // non-sync: a second abort succeeds and changes nothing
    let (mut a, _b, _c) = three_peer_setup();
    let t = ShardTransfer { shard_id: 5, from: PEER_A, to: PEER_B, sync: false };
    assert_eq!(a.start_shard_transfer(t).unwrap(), true);
    a.abort_shard_transfer(t.key()).unwrap();
    let peers_after = a.shards_holder.shards[0].peers();
    let local_after = a.shards_holder.shards[0].local;
    a.abort_shard_transfer(t.key()).unwrap();
    assert_eq!(a.shards_holder.shards[0].peers(), peers_after);
    assert_eq!(a.shards_holder.shards[0].local, local_after);

    // sync: a second abort keeps the retained Dead replica
    let (mut a2, _b2, _c2) = three_peer_setup();
    let ts = ShardTransfer { shard_id: 5, from: PEER_A, to: PEER_B, sync: true };
    assert_eq!(a2.start_shard_transfer(ts).unwrap(), true);
    a2.abort_shard_transfer(ts.key()).unwrap();
    assert_eq!(peer_state(&a2, PEER_B), Some(ReplicaState::Dead));
    a2.abort_shard_transfer(ts.key()).unwrap();
    assert_eq!(peer_state(&a2, PEER_B), Some(ReplicaState::Dead));
}

#[test]
fn abort_refuses_to_empty_a_shard() {
    // the destination is the shard's only replica: a non-sync abort would
    // leave the shard empty and is rejected; the transfer stays registered
    let mut c = Collection::new(
        String::from("transfer_test"),
        PEER_C,
        default_config(1),
        &vec![(0u32, vec![PEER_B])],
        NodeType::Normal,
    )
    .unwrap();
    let t = ShardTransfer { shard_id: 0, from: PEER_A, to: PEER_B, sync: false };
    assert!(c.shards_holder.register_start_shard_transfer(t).unwrap());
    let r = c.abort_shard_transfer(t.key());
    assert!(matches!(r, Err(CollectionError::BadInput { .. })));
    assert!(c.get_transfer(&t.key()).is_some());
    assert_eq!(
        c.shards_holder.shards[0].peer_state(&PEER_B),
        Some(ReplicaState::Initializing)
    );
}

#[test]
fn duplicate_transfer_key_rejected() {
    let (mut a, _b, _c) = three_peer_setup();
    let t = ShardTransfer { shard_id: 5, from: PEER_A, to: PEER_B, sync: false };
    assert_eq!(a.start_shard_transfer(t).unwrap(), true);
    // same key again, even with another sync flag, is rejected
    let dup = ShardTransfer { sync: true, ..t };
    assert!(matches!(
        a.start_shard_transfer(dup),
        Err(CollectionError::BadInput { .. })
    ));
    // the registry still holds exactly one transfer
    assert_eq!(a.get_transfers().len(), 1);
}

#[test]
fn register_interleavings_keep_keys_unique() {
    let (mut a, _b, _c) = three_peer_setup();
    let t1 = ShardTransfer { shard_id: 5, from: PEER_A, to: PEER_B, sync: false };
    let t2 = ShardTransfer { shard_id: 5, from: PEER_C, to: PEER_B, sync: true };
    assert!(a.shards_holder.register_start_shard_transfer(t1).unwrap());
    assert!(a.shards_holder.register_start_shard_transfer(t2).unwrap());
    assert!(!a.shards_holder.register_start_shard_transfer(t1).unwrap());
    assert!(a.shards_holder.register_finish_transfer(&t1.key()).unwrap());
    assert!(!a.shards_holder.register_finish_transfer(&t1.key()).unwrap());
    assert!(a.shards_holder.register_start_shard_transfer(t1).unwrap());
    let all = a.get_transfers();
    for i in 0..all.len() {
        for j in i + 1..all.len() {
            assert_ne!(all[i].key(), all[j].key());
        }
    }
    assert_eq!(all.len(), 2);
}

#[test]
fn transfer_task_pool_outcomes() {
    let (mut a, _b, _c) = three_peer_setup();
    let t = ShardTransfer { shard_id: 5, from: PEER_A, to: PEER_B, sync: false };
    assert_eq!(a.start_shard_transfer(t).unwrap(), true);
    assert!(a.transfer_tasks.check_if_still_running(&t.key()));
    assert_eq!(a.transfer_tasks.get_task_result(&t.key()), None);

    a.on_transfer_task_finished(&t.key(), true);
    assert!(!a.transfer_tasks.check_if_still_running(&t.key()));
    assert_eq!(a.transfer_tasks.get_task_result(&t.key()), Some(true));

    // stopping afterwards reports the cached outcome and keeps it
    assert_eq!(a.transfer_tasks.stop_if_exists(&t.key()), TaskResult::Finished(true));
    assert_eq!(a.transfer_tasks.get_task_result(&t.key()), Some(true));

    // an unknown key is not found
    let other = ShardTransfer { shard_id: 5, from: PEER_C, to: PEER_B, sync: false };
    assert_eq!(a.transfer_tasks.stop_if_exists(&other.key()), TaskResult::NotFound);
}

#[test]
fn initiate_prepares_local_replica() {
    let (mut a, mut b, _c) = three_peer_setup();
    // receiver side: B has no local replica; initiate leaves it absent but succeeds
    b.initiate_shard_transfer(5).unwrap();
    // sender side: a proxy left over from an earlier transfer is unwrapped
    let t = ShardTransfer { shard_id: 5, from: PEER_A, to: PEER_B, sync: false };
    assert_eq!(a.start_shard_transfer(t).unwrap(), true);
    assert!(matches!(a.shards_holder.shards[0].local, LocalReplica::ForwardProxy { .. }));
    a.initiate_shard_transfer(5).unwrap();
    assert!(matches!(a.shards_holder.shards[0].local, LocalReplica::Local));
    // unknown shard
    assert!(matches!(
        a.initiate_shard_transfer(9),
        Err(CollectionError::ServiceError { .. })
    ));
    // the wait predicate sees the registered transfer towards B
    assert!(a.shards_holder.has_transfer_to(5, PEER_B));
    assert!(!a.shards_holder.has_transfer_to(5, PEER_C));
}
