use collection_coordinator::snapshot::{
    format_shard_snapshot_name, format_snapshot_name, generate_shard_snapshot_name,
    generate_snapshot_name, get_snapshot_path, is_valid_snapshot_file_name, path_within,
    plan_snapshot_restore, shard_snapshot_path_unchecked, snapshots_path_for_shard_unchecked,
    u64_to_dec_string, ShardKind,
};
use collection_coordinator::types::CollectionError;

#[test]
fn decimal_strings() {
    assert_eq!(u64_to_dec_string(0), "0");
    assert_eq!(u64_to_dec_string(7), "7");
    assert_eq!(u64_to_dec_string(10), "10");
    assert_eq!(u64_to_dec_string(90210), "90210");
    assert_eq!(u64_to_dec_string(u64::MAX), "18446744073709551615");
}

#[test]
fn snapshot_names() {
    assert_eq!(
        format_snapshot_name("books", 42, "2024-05-01-10-30-00"),
        "books-42-2024-05-01-10-30-00.snapshot"
    );
    assert_eq!(
        format_shard_snapshot_name("books", 3, "2024-05-01-10-30-00"),
        "books-shard-3-2024-05-01-10-30-00.snapshot"
    );
}

#[test]
fn generated_names_carry_a_timestamp() {
    let name = generate_snapshot_name("books", 42);
    assert!(name.starts_with("books-42-"));
    assert!(name.ends_with(".snapshot"));
    let ts = &name["books-42-".len()..name.len() - ".snapshot".len()];
    assert!(ts.len() >= 19);
    assert!(ts.chars().all(|c| c == '-' || c.is_ascii_digit()));

    let shard_name = generate_shard_snapshot_name("books", 3);
    assert!(shard_name.starts_with("books-shard-3-"));
    assert!(shard_name.ends_with(".snapshot"));
}

#[test]
fn snapshot_file_name_validity() {
    assert!(is_valid_snapshot_file_name("books-42.snapshot"));
    assert!(!is_valid_snapshot_file_name(""));
    assert!(!is_valid_snapshot_file_name("."));
    assert!(!is_valid_snapshot_file_name(".."));
    assert!(!is_valid_snapshot_file_name("a/b"));
    assert!(!is_valid_snapshot_file_name("..\\up"));
}

#[test]
fn path_containment() {
    assert!(path_within("/data/snapshots", "/data/snapshots"));
    assert!(path_within("/data/snapshots", "/data/snapshots/a.snapshot"));
    assert!(!path_within("/data/snapshots", "/data/snapshots-evil/a.snapshot"));
    assert!(!path_within("/data/snapshots", "/data"));
    assert!(!path_within("/data/snapshots", "/etc/passwd"));
}

#[test]
fn escaping_snapshot_path_is_not_found() {
    // a name like "../../etc/passwd" canonicalizes outside the directory
    let r = get_snapshot_path(
        "/data/snapshots",
        "../../etc/passwd",
        Some("/data/snapshots"),
        Some("/etc/passwd"),
        true,
    );
    assert!(matches!(r, Err(CollectionError::NotFound { .. })));
}

#[test]
fn snapshot_path_happy_and_missing() {
    let ok = get_snapshot_path(
        "/data/snapshots",
        "a.snapshot",
        Some("/data/snapshots"),
        Some("/data/snapshots/a.snapshot"),
        true,
    )
    .unwrap();
    assert_eq!(ok, "/data/snapshots/a.snapshot");

    // the file vanished between listing and the request
    let gone = get_snapshot_path(
        "/data/snapshots",
        "a.snapshot",
        Some("/data/snapshots"),
        Some("/data/snapshots/a.snapshot"),
        false,
    );
    assert!(matches!(gone, Err(CollectionError::NotFound { .. })));

    // canonicalization failed: nothing of that name exists
    let missing = get_snapshot_path("/data/snapshots", "nope", Some("/data/snapshots"), None, true);
    assert!(matches!(missing, Err(CollectionError::NotFound { .. })));
}

#[test]
fn shard_snapshot_paths() {
    assert_eq!(snapshots_path_for_shard_unchecked("/snaps", 4), "/snaps/shards/4");
    let p = shard_snapshot_path_unchecked("/snaps", 4, "x.snapshot").unwrap();
    assert_eq!(p, "/snaps/shards/4/x.snapshot");
    assert!(matches!(
        shard_snapshot_path_unchecked("/snaps", 4, "../x"),
        Err(CollectionError::BadInput { .. })
    ));
}

#[test]
fn restore_plan_needs_every_shard_config() {
    let full = vec![Some(ShardKind::Local), Some(ShardKind::ReplicaSetKind)];
    let plan = plan_snapshot_restore(2, &full).unwrap();
    assert_eq!(plan, vec![(0, ShardKind::Local), (1, ShardKind::ReplicaSetKind)]);

    let holed = vec![Some(ShardKind::Local), None];
    assert!(matches!(
        plan_snapshot_restore(2, &holed),
        Err(CollectionError::ServiceError { .. })
    ));
}
