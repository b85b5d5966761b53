use collection_coordinator::collection::Collection;
use collection_coordinator::config::{
    CollectionConfig, CollectionParams, Distance, HnswConfig, OptimizersConfig, VectorParams,
    WalConfig,
};
use collection_coordinator::search::{
    fill_search_result_with_payload, peek_top, Record, ScoredPoint, SearchRequest,
    SearchRequestBatch,
};
use collection_coordinator::types::{NodeType, PeerId, PointId};

fn config_with(distance: Distance, shard_number: u32) -> CollectionConfig {
    CollectionConfig {
        params: CollectionParams {
            shard_number,
            replication_factor: 1,
            write_consistency_factor: 1,
            vectors: vec![VectorParams { name_id: 0, distance }],
        },
        hnsw_config: HnswConfig { m: 16, ef_construct: 100, full_scan_threshold: 10000 },
        optimizer_config: OptimizersConfig {
            deleted_threshold_permille: 200,
            default_segment_number: 0,
            max_segment_size: 200000,
            flush_interval_sec: 5,
        },
        wal_config: WalConfig { wal_capacity_mb: 32, wal_segments_ahead: 0 },
        quantization_config: None,
    }
}

fn new_collection(distance: Distance, shards: u32) -> Collection {
    let dist: Vec<(u32, Vec<PeerId>)> = (0..shards).map(|s| (s, vec![1u64])).collect();
    Collection::new(
        String::from("search_test"),
        1,
        config_with(distance, shards),
        &dist,
        NodeType::Normal,
    )
    .unwrap()
}

/// Monotone map from an f32 score to the integer score key the merge
/// compares: order is preserved exactly.
fn score_key(score: f32) -> i64 {
    let bits = score.to_bits();
    let ordered: u32 = if bits & 0x8000_0000 != 0 { !bits } else { bits | 0x8000_0000 };
    ordered as i64
}

fn sp(id: u64, score: f32) -> ScoredPoint {
    ScoredPoint {
        id: PointId::Num(id),
        version: 0,
        score: score_key(score),
        payload: None,
        vector: None,
    }
}

fn req(limit: usize, offset: usize) -> SearchRequest {
    SearchRequest { vector_name_id: 0, limit, offset, with_payload: None, with_vector: None }
}

fn ids(points: &[ScoredPoint]) -> Vec<u64> {
    points
        .iter()
        .map(|p| match p.id {
            PointId::Num(n) => n,
            PointId::Uuid(_) => panic!("unexpected uuid id"),
        })
        .collect()
}

#[test]
fn two_shard_cosine_search() {
    // shard 0 holds {id:1, vec:[1,0], payload:{a:1}}; shard 1 holds
    // {id:2, vec:[0,1], payload:{a:2}}. A cosine search for [1,0] scores
    // them 1.0 and 0.0; with limit 1 only id 1 comes back, payload intact.
    let c = new_collection(Distance::Cosine, 2);
    let shard0 = vec![ScoredPoint { payload: Some(1), ..sp(1, 1.0) }];
    let shard1 = vec![ScoredPoint { payload: Some(2), ..sp(2, 0.0) }];
    let answers = vec![shard0, shard1];
    let request = SearchRequest { with_payload: Some(true), ..req(1, 0) };

    let result = c.search(&request, &answers, None).unwrap();
    assert_eq!(ids(&result), vec![1]);
    assert_eq!(result[0].score, score_key(1.0));
    assert_eq!(result[0].payload, Some(1));
}

#[test]
fn offset_behavior() {
    // points ids 1..10 with scores 10..1 descending, spread over two shards
    let c = new_collection(Distance::Cosine, 2);
    let shard0: Vec<ScoredPoint> =
        (1..=5u64).map(|i| sp(i, (11 - i) as f32)).collect();
    let shard1: Vec<ScoredPoint> =
        (6..=10u64).map(|i| sp(i, (11 - i) as f32)).collect();
    let answers = vec![shard0, shard1];

    let r = c.search(&req(3, 2), &answers, None).unwrap();
    assert_eq!(ids(&r), vec![3, 4, 5]);

    let r = c.search(&req(3, 8), &answers, None).unwrap();
    assert_eq!(ids(&r), vec![9, 10]);

    let r = c.search(&req(3, 20), &answers, None).unwrap();
    assert!(r.is_empty());
}

#[test]
fn single_shard_request_skips_offset_again() {
    // with a shard selection, the shard already applied the offset
    let c = new_collection(Distance::Cosine, 1);
    let answers = vec![vec![sp(3, 8.0), sp(4, 7.0), sp(5, 6.0)]];
    let r = c.search(&req(3, 2), &answers, Some(0)).unwrap();
    assert_eq!(ids(&r), vec![3, 4, 5]);
}

#[test]
fn search_is_idempotent() {
    let c = new_collection(Distance::Dot, 2);
    let answers = vec![
        vec![sp(1, 0.5), sp(2, 0.25), sp(3, 0.75)],
        vec![sp(4, 0.6), sp(5, 0.1)],
    ];
    let first = c.search(&req(4, 0), &answers, None).unwrap();
    let second = c.search(&req(4, 0), &answers, None).unwrap();
    assert_eq!(first, second);
}

#[test]
fn merge_returns_global_top_k() {
    let c = new_collection(Distance::Euclid, 3);
    // SmallBetter: smaller distance wins
    let answers = vec![
        vec![sp(1, 3.0), sp(2, 9.0)],
        vec![sp(3, 1.0), sp(4, 7.0)],
        vec![sp(5, 2.0)],
    ];
    let r = c.search(&req(3, 0), &answers, None).unwrap();
    assert_eq!(ids(&r), vec![3, 5, 1]);
}

#[test]
fn merge_batch_in_order() {
    let c = new_collection(Distance::Cosine, 2);
    // two queries, two shards, one answer list per (shard, query)
    let all = vec![
        vec![vec![sp(1, 0.9)], vec![sp(3, 0.4)]],
        vec![vec![sp(2, 0.5)], vec![sp(4, 0.8)]],
    ];
    let batch = SearchRequestBatch { searches: vec![req(2, 0), req(1, 0)] };
    let out = c.merge_from_shards(&all, &batch, None).unwrap();
    assert_eq!(out.len(), 2);
    assert_eq!(ids(&out[0]), vec![1, 2]);
    assert_eq!(ids(&out[1]), vec![4]);
}

#[test]
fn negative_scores_order_correctly() {
    // dot products may be negative; the score keys must keep their order
    let c = new_collection(Distance::Dot, 1);
    let answers = vec![vec![sp(1, -0.5), sp(2, 0.5), sp(3, -1.5), sp(4, 0.0)]];
    let r = c.search(&req(4, 0), &answers, None).unwrap();
    assert_eq!(ids(&r), vec![2, 4, 1, 3]);
}

#[test]
fn zero_limit_short_circuits() {
    let c = new_collection(Distance::Cosine, 1);
    let r = c.search(&req(0, 5), &vec![vec![sp(1, 1.0)]], None).unwrap();
    assert!(r.is_empty());
}

#[test]
fn unknown_vector_name_rejected() {
    let c = new_collection(Distance::Cosine, 1);
    let request = SearchRequest { vector_name_id: 9, ..req(1, 0) };
    assert!(c.search(&request, &vec![vec![]], None).is_err());
}

#[test]
fn two_phase_threshold() {
    let c = new_collection(Distance::Cosine, 4);
    // metadata requested and 4 shards * (10+16) > 10 * 10
    let heavy = SearchRequestBatch {
        searches: vec![SearchRequest { with_payload: Some(true), ..req(10, 16) }],
    };
    assert!(c.search_batch_uses_two_phase(&heavy));
    // no metadata requested: never two-phase
    let plain = SearchRequestBatch { searches: vec![req(10, 16)] };
    assert!(!c.search_batch_uses_two_phase(&plain));
    // metadata requested but the fan-out is small
    let light = SearchRequestBatch {
        searches: vec![SearchRequest { with_payload: Some(true), ..req(10, 0) }],
    };
    assert!(!c.search_batch_uses_two_phase(&light));
}

#[test]
fn strip_payload_for_phase_one() {
    let batch = SearchRequestBatch {
        searches: vec![SearchRequest {
            with_payload: Some(true),
            with_vector: Some(true),
            ..req(5, 1)
        }],
    };
    let stripped = Collection::strip_payload_in_batch(&batch);
    assert_eq!(stripped.searches.len(), 1);
    assert_eq!(stripped.searches[0].with_payload, None);
    assert_eq!(stripped.searches[0].with_vector, None);
    assert_eq!(stripped.searches[0].limit, 5);
    assert_eq!(stripped.searches[0].offset, 1);
}

#[test]
fn fill_joins_surviving_points() {
    let points = vec![sp(1, 0.9), sp(2, 0.8), sp(3, 0.7)];
    // point 2 was deleted between search and retrieve
    let records = vec![
        Record { id: PointId::Num(1), payload: Some(11), vector: Some(21) },
        Record { id: PointId::Num(3), payload: Some(13), vector: Some(23) },
    ];
    let filled =
        fill_search_result_with_payload(points, records, Some(true), Some(true));
    assert_eq!(ids(&filled), vec![1, 3]);
    assert_eq!(filled[0].payload, Some(11));
    assert_eq!(filled[0].vector, Some(21));
    assert_eq!(filled[1].payload, Some(13));
}

#[test]
fn fill_strips_when_nothing_requested() {
    let points = vec![ScoredPoint { payload: Some(7), vector: Some(8), ..sp(1, 0.9) }];
    let filled =
        fill_search_result_with_payload(points, vec![], Some(false), Some(false));
    assert_eq!(filled.len(), 1);
    assert_eq!(filled[0].payload, None);
    assert_eq!(filled[0].vector, None);
}

#[test]
fn peek_top_is_sorted_prefix() {
    let all = vec![sp(1, 0.1), sp(2, 0.9), sp(3, 0.5), sp(4, 0.7)];
    let top = peek_top(&all, 2, collection_coordinator::config::Order::LargeBetter);
    assert_eq!(ids(&top), vec![2, 4]);
    let everything = peek_top(&all, 10, collection_coordinator::config::Order::LargeBetter);
    assert_eq!(ids(&everything), vec![2, 4, 3, 1]);
}
