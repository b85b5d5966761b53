use collection_coordinator::collection::{
    Change, Collection, CollectionInfo, CollectionStatus, CoordinatorAction, OptimizersStatus,
    ShardInfo, State,
};
use collection_coordinator::config::{
    CollectionConfig, CollectionParams, Distance, HnswConfig, HnswConfigDiff, OptimizersConfig,
    QuantizationConfig, QuantizationConfigDiff, VectorParams, WalConfig,
};
use collection_coordinator::transfer::ShardTransfer;
use collection_coordinator::types::{NodeType, PeerId, ReplicaState};

fn default_config(shard_number: u32) -> CollectionConfig {
    CollectionConfig {
        params: CollectionParams {
            shard_number,
            replication_factor: 1,
            write_consistency_factor: 1,
            vectors: vec![VectorParams { name_id: 0, distance: Distance::Cosine }],
        },
        hnsw_config: HnswConfig { m: 16, ef_construct: 100, full_scan_threshold: 10000 },
        optimizer_config: OptimizersConfig {
            deleted_threshold_permille: 200,
            default_segment_number: 0,
            max_segment_size: 200000,
            flush_interval_sec: 5,
        },
        wal_config: WalConfig { wal_capacity_mb: 32, wal_segments_ahead: 0 },
        quantization_config: None,
    }
}

fn new_collection(this_peer: PeerId, node_type: NodeType, dist: &[(u32, Vec<PeerId>)]) -> Collection {
    let dist: Vec<(u32, Vec<PeerId>)> = dist.to_vec();
    Collection::new(
        String::from("maintenance_test"),
        this_peer,
        default_config(dist.len() as u32),
        &dist,
        NodeType::Normal,
    )
    .map(|mut c| {
        c.node_type = node_type;
        c
    })
    .unwrap()
}

const PEER_A: PeerId = 1;
const PEER_B: PeerId = 2;

#[test]
fn sync_reports_initializing_replicas() {
    let c = new_collection(PEER_A, NodeType::Normal, &[(0, vec![PEER_A, PEER_B])]);
    let actions = c.sync_local_state();
    assert_eq!(
        actions,
        vec![CoordinatorAction::FinishInit { peer_id: PEER_A, shard_id: 0 }]
    );
}

#[test]
fn sync_converts_listener_modes() {
    // a listener-mode node with a non-last Active replica demotes itself
    let mut c = new_collection(PEER_A, NodeType::Listener, &[(0, vec![PEER_A, PEER_B])]);
    c.set_shard_replica_state(0, PEER_A, ReplicaState::Active, None).unwrap();
    c.set_shard_replica_state(0, PEER_B, ReplicaState::Active, None).unwrap();
    assert_eq!(
        c.sync_local_state(),
        vec![CoordinatorAction::ConvertToListener { peer_id: PEER_A, shard_id: 0 }]
    );
    // but never when it is the last Active one
    c.set_shard_replica_state(0, PEER_B, ReplicaState::Dead, None).unwrap();
    assert_eq!(c.sync_local_state(), vec![]);

    // a normal-mode node promotes its Listener replica back
    let mut n = new_collection(PEER_A, NodeType::Normal, &[(0, vec![PEER_A, PEER_B])]);
    n.set_shard_replica_state(0, PEER_B, ReplicaState::Active, None).unwrap();
    n.set_shard_replica_state(0, PEER_A, ReplicaState::Listener, None).unwrap();
    assert_eq!(
        n.sync_local_state(),
        vec![CoordinatorAction::ConvertFromListener { peer_id: PEER_A, shard_id: 0 }]
    );
}

#[test]
fn sync_requests_recovery_for_dead_local() {
    let mut c = new_collection(PEER_A, NodeType::Normal, &[(0, vec![PEER_A, PEER_B])]);
    c.set_shard_replica_state(0, PEER_A, ReplicaState::Active, None).unwrap();
    c.set_shard_replica_state(0, PEER_B, ReplicaState::Active, None).unwrap();
    c.set_shard_replica_state(0, PEER_A, ReplicaState::Dead, None).unwrap();

    let expected = ShardTransfer { shard_id: 0, from: PEER_B, to: PEER_A, sync: true };
    assert_eq!(
        c.sync_local_state(),
        vec![CoordinatorAction::RequestShardTransfer { transfer: expected }]
    );

    // with a conflicting transfer registered, no request is made
    c.shards_holder.register_start_shard_transfer(expected).unwrap();
    assert_eq!(c.sync_local_state(), vec![]);
}

#[test]
fn sync_reports_finished_transfers() {
    let mut c = new_collection(PEER_A, NodeType::Normal, &[(0, vec![PEER_A, PEER_B])]);
    c.set_shard_replica_state(0, PEER_A, ReplicaState::Active, None).unwrap();
    c.set_shard_replica_state(0, PEER_B, ReplicaState::Active, None).unwrap();
    let t = ShardTransfer { shard_id: 0, from: PEER_A, to: PEER_B, sync: false };
    assert_eq!(c.start_shard_transfer(t).unwrap(), true);

    // still running: nothing to report
    assert_eq!(c.sync_local_state(), vec![]);

    c.on_transfer_task_finished(&t.key(), true);
    assert_eq!(
        c.sync_local_state(),
        vec![CoordinatorAction::ReportTransferSuccess { transfer: t }]
    );

    c.on_transfer_task_finished(&t.key(), true);
    let mut c2 = new_collection(PEER_A, NodeType::Normal, &[(0, vec![PEER_A, PEER_B])]);
    c2.set_shard_replica_state(0, PEER_A, ReplicaState::Active, None).unwrap();
    c2.set_shard_replica_state(0, PEER_B, ReplicaState::Active, None).unwrap();
    assert_eq!(c2.start_shard_transfer(t).unwrap(), true);
    c2.on_transfer_task_finished(&t.key(), false);
    assert_eq!(
        c2.sync_local_state(),
        vec![CoordinatorAction::ReportTransferFailure { transfer: t }]
    );
}

#[test]
fn cluster_info_lists_replicas_sorted() {
    let mut c = new_collection(
        PEER_A,
        NodeType::Normal,
        &[(1, vec![PEER_A, PEER_B]), (0, vec![PEER_A])],
    );
    c.set_shard_replica_state(1, PEER_A, ReplicaState::Active, None).unwrap();
    let counts = vec![(1u32, 7u64)];
    let info = c.cluster_info(PEER_A, &counts);
    assert_eq!(info.peer_id, PEER_A);
    assert_eq!(info.shard_count, 2);
    assert_eq!(info.local_shards.len(), 2);
    // sorted by shard id even though shard 1 was added first
    assert_eq!(info.local_shards[0].shard_id, 0);
    assert_eq!(info.local_shards[1].shard_id, 1);
    assert_eq!(info.local_shards[1].points_count, 7);
    assert_eq!(info.local_shards[1].state, ReplicaState::Active);
    assert_eq!(info.remote_shards.len(), 1);
    assert_eq!(info.remote_shards[0].peer_id, PEER_B);
}

#[test]
fn state_reflects_holder() {
    let mut c = new_collection(PEER_A, NodeType::Normal, &[(0, vec![PEER_A, PEER_B])]);
    c.set_shard_replica_state(0, PEER_B, ReplicaState::Active, None).unwrap();
    let s = c.state();
    assert_eq!(s.shards.len(), 1);
    assert_eq!(s.shards[0].0, 0);
    assert!(s.shards[0].1.replicas.contains(&(PEER_B, ReplicaState::Active)));
    assert!(s.transfers.is_empty());
}

#[test]
fn apply_state_adopts_replicas_and_aborts_transfers() {
    let mut c = new_collection(PEER_A, NodeType::Normal, &[(0, vec![PEER_A, PEER_B])]);
    c.set_shard_replica_state(0, PEER_A, ReplicaState::Active, None).unwrap();
    let t = ShardTransfer { shard_id: 0, from: PEER_A, to: PEER_B, sync: false };
    assert_eq!(c.start_shard_transfer(t).unwrap(), true);

    let broadcast = State {
        config: default_config(1),
        shards: vec![(
            0,
            ShardInfo { replicas: vec![(PEER_A, ReplicaState::Active), (PEER_B, ReplicaState::Active)] },
        )],
        transfers: vec![],
    };
    let aborted = c.apply_state(broadcast).unwrap();
    assert_eq!(aborted, vec![t.key()]);
    assert!(c.get_transfer(&t.key()).is_none());
    assert_eq!(
        c.shards_holder.shards[0].peer_state(&PEER_B),
        Some(ReplicaState::Active)
    );
}

#[test]
fn apply_state_registers_broadcast_transfers() {
    let mut c = new_collection(PEER_A, NodeType::Normal, &[(0, vec![PEER_A, PEER_B])]);
    let t = ShardTransfer { shard_id: 0, from: PEER_B, to: PEER_A, sync: true };
    let broadcast = State {
        config: default_config(1),
        shards: vec![(
            0,
            ShardInfo { replicas: vec![(PEER_A, ReplicaState::Dead), (PEER_B, ReplicaState::Active)] },
        )],
        transfers: vec![t],
    };
    let aborted = c.apply_state(broadcast).unwrap();
    assert!(aborted.is_empty());
    // the broadcast transfer is now registered, the replica states adopted
    assert!(c.get_transfer(&t.key()).is_some());
    assert_eq!(
        c.shards_holder.shards[0].peer_state(&PEER_A),
        Some(ReplicaState::Dead)
    );
    // naming an unknown shard rejects the broadcast
    let bad = State {
        config: default_config(1),
        shards: vec![(9, ShardInfo { replicas: vec![(PEER_A, ReplicaState::Active)] })],
        transfers: vec![],
    };
    assert!(c.apply_state(bad).is_err());
}

#[test]
fn empty_change_list_is_accepted() {
    let mut c = new_collection(PEER_A, NodeType::Normal, &[(0, vec![PEER_A, PEER_B])]);
    assert!(c.handle_replica_changes(vec![]).is_ok());
    // two valid removals in one request, applied left to right
    let mut c2 = new_collection(
        PEER_A,
        NodeType::Normal,
        &[(0, vec![PEER_A, PEER_B, 3]), (1, vec![PEER_A, PEER_B])],
    );
    c2.handle_replica_changes(vec![Change::Remove(0, PEER_B), Change::Remove(0, 3)])
        .unwrap();
    assert_eq!(c2.shards_holder.shards[0].peer_state(&PEER_B), None);
    assert_eq!(c2.shards_holder.shards[0].peer_state(&3), None);
    // the same removal twice: the second names a peer already gone
    let r = c2.handle_replica_changes(vec![
        Change::Remove(1, PEER_B),
        Change::Remove(1, PEER_B),
    ]);
    assert!(r.is_err());
}

#[test]
fn info_aggregates_shard_infos() {
    let c = new_collection(PEER_A, NodeType::Normal, &[(0, vec![PEER_A])]);
    let a = CollectionInfo {
        status: CollectionStatus::Green,
        optimizer_status: OptimizersStatus::Working,
        vectors_count: 10,
        indexed_vectors_count: 8,
        points_count: 10,
        segments_count: 2,
        payload_schema: vec![(1, 5), (2, 3)],
    };
    let b = CollectionInfo {
        status: CollectionStatus::Yellow,
        optimizer_status: OptimizersStatus::Working,
        vectors_count: 4,
        indexed_vectors_count: 4,
        points_count: 4,
        segments_count: 1,
        payload_schema: vec![(2, 2), (3, 1)],
    };
    let merged = c.info(vec![a, b]).unwrap();
    assert_eq!(merged.status, CollectionStatus::Yellow);
    assert_eq!(merged.optimizer_status, OptimizersStatus::Working);
    assert_eq!(merged.vectors_count, 14);
    assert_eq!(merged.points_count, 14);
    assert_eq!(merged.segments_count, 3);
    assert_eq!(merged.payload_schema, vec![(1, 5), (2, 5), (3, 1)]);
    assert!(c.info(vec![]).is_err());
}

#[test]
fn config_diffs_apply() {
    let mut c = new_collection(PEER_A, NodeType::Normal, &[(0, vec![PEER_A])]);
    c.update_hnsw_config_from_diff(HnswConfigDiff {
        m: Some(32),
        ef_construct: None,
        full_scan_threshold: None,
    })
    .unwrap();
    assert_eq!(c.collection_config.hnsw_config.m, 32);
    assert_eq!(c.collection_config.hnsw_config.ef_construct, 100);

    c.update_quantization_config_from_diff(QuantizationConfigDiff::Scalar {
        quantile_permille: 990,
    })
    .unwrap();
    assert_eq!(
        c.collection_config.quantization_config,
        Some(QuantizationConfig::Scalar { quantile_permille: 990 })
    );
    c.update_quantization_config_from_diff(QuantizationConfigDiff::Disabled).unwrap();
    assert_eq!(c.collection_config.quantization_config, None);
}

#[test]
fn vectors_diff_updates_named_spaces() {
    let mut c = new_collection(PEER_A, NodeType::Normal, &[(0, vec![PEER_A])]);
    c.collection_config.params.vectors =
        vec![
            VectorParams { name_id: 0, distance: Distance::Cosine },
            VectorParams { name_id: 1, distance: Distance::Dot },
        ];
    c.update_vectors_from_diff(&vec![(1, Distance::Euclid)]).unwrap();
    assert_eq!(c.collection_config.params.vectors[0].distance, Distance::Cosine);
    assert_eq!(c.collection_config.params.vectors[1].distance, Distance::Euclid);
    // an unknown name rejects the whole diff and changes nothing
    let r = c.update_vectors_from_diff(&vec![(0, Distance::Dot), (9, Distance::Dot)]);
    assert!(r.is_err());
    assert_eq!(c.collection_config.params.vectors[0].distance, Distance::Cosine);
}

#[test]
fn local_shards_and_telemetry() {
    let c = new_collection(PEER_A, NodeType::Normal, &[(0, vec![PEER_A]), (1, vec![PEER_B])]);
    assert_eq!(c.get_local_shards(), vec![0]);
    assert_eq!(c.name(), "maintenance_test");
    let t = c.get_telemetry_data(1234);
    assert_eq!(t.id, "maintenance_test");
    assert_eq!(t.init_time_ms, 1234);
    assert_eq!(t.shard_count, 2);
}
