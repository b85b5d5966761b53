use collection_coordinator::collection::Collection;
use collection_coordinator::config::{
    CollectionConfig, CollectionParams, Distance, HnswConfig, OptimizersConfig, VectorParams,
    WalConfig,
};
use collection_coordinator::search::{CountResult, Record, ScrollRequest};
use collection_coordinator::types::{CollectionError, NodeType, PeerId, PointId};

fn default_config(shard_number: u32) -> CollectionConfig {
    CollectionConfig {
        params: CollectionParams {
            shard_number,
            replication_factor: 1,
            write_consistency_factor: 1,
            vectors: vec![VectorParams { name_id: 0, distance: Distance::Cosine }],
        },
        hnsw_config: HnswConfig { m: 16, ef_construct: 100, full_scan_threshold: 10000 },
        optimizer_config: OptimizersConfig {
            deleted_threshold_permille: 200,
            default_segment_number: 0,
            max_segment_size: 200000,
            flush_interval_sec: 5,
        },
        wal_config: WalConfig { wal_capacity_mb: 32, wal_segments_ahead: 0 },
        quantization_config: None,
    }
}

fn new_collection(shards: u32) -> Collection {
    let dist: Vec<(u32, Vec<PeerId>)> = (0..shards).map(|s| (s, vec![1u64])).collect();
    Collection::new(
        String::from("scroll_test"),
        1,
        default_config(shards),
        &dist,
        NodeType::Normal,
    )
    .unwrap()
}

fn rec(id: u64) -> Record {
    Record { id: PointId::Num(id), payload: None, vector: None }
}

fn scroll_req(limit: Option<usize>) -> ScrollRequest {
    ScrollRequest { offset: None, limit, with_payload: None, with_vector: None }
}

fn rec_ids(points: &[Record]) -> Vec<u64> {
    points
        .iter()
        .map(|p| match p.id {
            PointId::Num(n) => n,
            PointId::Uuid(_) => panic!("unexpected uuid id"),
        })
        .collect()
}

#[test]
fn scroll_merges_and_pages() {
    let c = new_collection(2);
    // each shard returns its points ordered by id
    let retrieved = vec![
        vec![rec(1), rec(4), rec(6), rec(9)],
        vec![rec(2), rec(3), rec(7), rec(8)],
    ];
    let r = c.scroll_by(&scroll_req(Some(5)), retrieved).unwrap();
    assert_eq!(rec_ids(&r.points), vec![1, 2, 3, 4, 6]);
    // the removed extra point names the next page
    assert_eq!(r.next_page_offset, Some(PointId::Num(7)));
}

#[test]
fn scroll_last_page_has_no_next_offset() {
    let c = new_collection(2);
    let retrieved = vec![vec![rec(1), rec(2)], vec![rec(3)]];
    let r = c.scroll_by(&scroll_req(Some(5)), retrieved).unwrap();
    assert_eq!(rec_ids(&r.points), vec![1, 2, 3]);
    assert_eq!(r.next_page_offset, None);
}

#[test]
fn scroll_exact_page_boundary() {
    let c = new_collection(1);
    let retrieved = vec![vec![rec(1), rec(2), rec(3)]];
    let r = c.scroll_by(&scroll_req(Some(3)), retrieved).unwrap();
    assert_eq!(rec_ids(&r.points), vec![1, 2, 3]);
    assert_eq!(r.next_page_offset, None);
}

#[test]
fn scroll_rejects_zero_limit() {
    let c = new_collection(1);
    let r = c.scroll_by(&scroll_req(Some(0)), vec![vec![]]);
    assert!(matches!(r, Err(CollectionError::BadRequest { .. })));
}

#[test]
fn scroll_numeric_ids_before_uuids() {
    let c = new_collection(1);
    let u = Record { id: PointId::Uuid(5), payload: None, vector: None };
    let retrieved = vec![vec![u, rec(10)]];
    let r = c.scroll_by(&scroll_req(Some(5)), retrieved).unwrap();
    assert_eq!(r.points[0].id, PointId::Num(10));
    assert_eq!(r.points[1].id, PointId::Uuid(5));
}

#[test]
fn count_sums_shard_counts() {
    let c = new_collection(3);
    let counts = vec![
        CountResult { count: 10 },
        CountResult { count: 0 },
        CountResult { count: 32 },
    ];
    assert_eq!(c.count(&counts).count, 42);
    assert_eq!(c.count(&vec![]).count, 0);
}

#[test]
fn retrieve_concatenates_in_shard_order() {
    let c = new_collection(2);
    let per_shard = vec![vec![rec(5), rec(1)], vec![rec(9)]];
    let all = c.retrieve(&per_shard);
    assert_eq!(rec_ids(&all), vec![5, 1, 9]);
}
