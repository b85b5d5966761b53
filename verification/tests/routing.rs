use collection_coordinator::collection::Collection;
use collection_coordinator::types::{NodeType, PointId};
use collection_coordinator::update::{UpdateKind, UpdateOperation};

use collection_coordinator::config::{
    CollectionConfig, CollectionParams, Distance, HnswConfig, OptimizersConfig, VectorParams,
    WalConfig,
};
use collection_coordinator::types::PeerId;

fn default_config(shard_number: u32) -> CollectionConfig {
    CollectionConfig {
        params: CollectionParams {
            shard_number,
            replication_factor: 1,
            write_consistency_factor: 1,
            vectors: vec![VectorParams { name_id: 0, distance: Distance::Cosine }],
        },
        hnsw_config: HnswConfig { m: 16, ef_construct: 100, full_scan_threshold: 10000 },
        optimizer_config: OptimizersConfig {
            deleted_threshold_permille: 200,
            default_segment_number: 0,
            max_segment_size: 200000,
            flush_interval_sec: 5,
        },
        wal_config: WalConfig { wal_capacity_mb: 32, wal_segments_ahead: 0 },
        quantization_config: None,
    }
}

fn new_collection(this_peer: PeerId, dist: &[(u32, Vec<PeerId>)]) -> Collection {
    let dist: Vec<(u32, Vec<PeerId>)> = dist.to_vec();
    Collection::new(
        String::from("test_collection"),
        this_peer,
        default_config(dist.len() as u32),
        &dist,
        NodeType::Normal,
    )
    .unwrap()
}

#[test]
fn split_by_shard_partitions_points() {
    let c = new_collection(1, &[(0, vec![1]), (1, vec![1]), (2, vec![1])]);
    let points: Vec<PointId> = (0..200).map(PointId::Num).collect();
    let op = UpdateOperation { kind: UpdateKind::UpsertPoints, points: points.clone() };
    let groups = c.shards_holder.split_by_shard(&op);

    assert!(!groups.is_empty());
    // group shard ids are unique and belong to the collection
    for a in 0..groups.len() {
        for b in a + 1..groups.len() {
            assert_ne!(groups[a].0, groups[b].0);
        }
        assert!(groups[a].0 <= 2);
        assert!(!groups[a].1.points.is_empty());
        assert!(matches!(groups[a].1.kind, UpdateKind::UpsertPoints));
    }
    // every point lands in exactly one group, the one its shard owns
    for p in &points {
        let expected = c.shards_holder.ring.shard_of(p);
        let mut seen = 0;
        for (sid, sub) in &groups {
            let hits = sub.points.iter().filter(|q| *q == p).count();
            if hits > 0 {
                assert_eq!(*sid, expected);
            }
            seen += hits;
        }
        assert_eq!(seen, 1);
    }
}

#[test]
fn split_by_shard_empty_operation() {
    let c = new_collection(1, &[(0, vec![1]), (1, vec![1])]);
    let op = UpdateOperation { kind: UpdateKind::DeletePoints, points: vec![] };
    let groups = c.shards_holder.split_by_shard(&op);
    assert!(groups.is_empty());
}

#[test]
fn routing_is_deterministic() {
    let a = new_collection(1, &[(0, vec![1]), (1, vec![1]), (2, vec![1])]);
    let b = new_collection(7, &[(0, vec![7]), (1, vec![7]), (2, vec![7])]);
    for i in 0..500u64 {
        let p = PointId::Num(i * 7919);
        assert_eq!(a.shards_holder.ring.shard_of(&p), b.shards_holder.ring.shard_of(&p));
    }
    let u = PointId::Uuid(0x0123_4567_89ab_cdef_0011_2233_4455_6677u128);
    assert_eq!(a.shards_holder.ring.shard_of(&u), b.shards_holder.ring.shard_of(&u));
}

#[test]
fn update_from_client_rejects_empty() {
    let c = new_collection(1, &[(0, vec![1])]);
    let op = UpdateOperation { kind: UpdateKind::UpsertPoints, points: vec![] };
    let r = c.update_from_client(&op);
    assert!(matches!(
        r,
        Err(collection_coordinator::types::CollectionError::BadRequest { .. })
    ));
}

#[test]
fn update_from_peer_requires_local_shard() {
    let c = new_collection(1, &[(0, vec![1]), (1, vec![2])]);
    assert!(c.update_from_peer(0).is_ok());
    // shard 1 lives only on peer 2, so there is no local replica here
    assert!(matches!(
        c.update_from_peer(1),
        Err(collection_coordinator::types::CollectionError::ServiceError { .. })
    ));
    assert!(matches!(
        c.update_from_peer(9),
        Err(collection_coordinator::types::CollectionError::ServiceError { .. })
    ));
}

#[test]
fn new_collection_rejects_duplicate_shards() {
    let r = Collection::new(
        String::from("dup"),
        1,
        default_config(2),
        &vec![(0, vec![1]), (0, vec![2])],
        NodeType::Normal,
    );
    assert!(r.is_err());
}
