use collection_coordinator::collection::Collection;
use collection_coordinator::types::CollectionError;
use collection_coordinator::version::{
    can_upgrade_storage, check_storage_compatibility, check_stored_version_strings,
    StorageCompatibility, Version,
};

fn v(major: u64, minor: u64, patch: u64) -> Version {
    Version { major, minor, patch }
}

#[test]
fn upgrade_gate_consecutive_patch() {
    assert!(can_upgrade_storage(&v(0, 4, 0), &v(0, 4, 1)));
    assert!(!can_upgrade_storage(&v(0, 4, 0), &v(0, 4, 2)));
    assert!(!can_upgrade_storage(&v(0, 4, 0), &v(0, 5, 0)));
    assert!(!can_upgrade_storage(&v(0, 4, 0), &v(0, 5, 1)));
    assert!(!can_upgrade_storage(&v(1, 4, 0), &v(0, 4, 0)));
}

#[test]
fn upgrade_gate_same_and_older_patch() {
    assert!(can_upgrade_storage(&v(1, 2, 3), &v(1, 2, 3)));
    assert!(can_upgrade_storage(&v(1, 2, 3), &v(1, 2, 4)));
    assert!(can_upgrade_storage(&v(1, 2, 9), &v(1, 2, 3)));
}

#[test]
fn upgrade_gate_exhaustive_small() {
    for sa in 0..3u64 {
        for sb in 0..3u64 {
            for sc in 0..4u64 {
                for aa in 0..3u64 {
                    for ab in 0..3u64 {
                        for ac in 0..4u64 {
                            let s = v(sa, sb, sc);
                            let a = v(aa, ab, ac);
                            let expected = sa == aa && sb == ab && ac <= sc + 1;
                            assert_eq!(can_upgrade_storage(&s, &a), expected);
                        }
                    }
                }
            }
        }
    }
}

#[test]
fn upgrade_gate_via_collection() {
    assert!(Collection::can_upgrade_storage(&v(0, 4, 0), &v(0, 4, 1)));
    assert!(!Collection::can_upgrade_storage(&v(0, 4, 0), &v(0, 4, 2)));
}

#[test]
fn compatibility_verdicts() {
    assert_eq!(
        check_storage_compatibility(&v(1, 2, 3), &v(1, 2, 3)),
        StorageCompatibility::UpToDate
    );
    assert_eq!(
        check_storage_compatibility(&v(1, 2, 3), &v(1, 2, 4)),
        StorageCompatibility::Migrate
    );
    assert_eq!(
        check_storage_compatibility(&v(1, 2, 5), &v(1, 2, 3)),
        StorageCompatibility::Downgrade
    );
    assert_eq!(
        check_storage_compatibility(&v(1, 2, 3), &v(1, 3, 0)),
        StorageCompatibility::Incompatible
    );
}

#[test]
fn parse_through_semver() {
    // pre-release metadata is dropped before the numeric comparison
    assert_eq!(
        check_stored_version_strings("2.0.0-alpha.1", "2.0.0").unwrap(),
        StorageCompatibility::UpToDate
    );
    assert!(check_stored_version_strings("not-a-version", "1.0.0").is_err());
    assert!(check_stored_version_strings("1.0", "1.0.0").is_err());
}

#[test]
fn stored_version_strings() {
    assert_eq!(
        check_stored_version_strings("1.7.3", "1.7.4").unwrap(),
        StorageCompatibility::Migrate
    );
    assert_eq!(
        check_stored_version_strings("1.7.4", "1.7.4").unwrap(),
        StorageCompatibility::UpToDate
    );
    assert_eq!(
        check_stored_version_strings("1.8.0", "1.7.4").unwrap(),
        StorageCompatibility::Downgrade
    );
    let err = check_stored_version_strings("bogus", "1.7.4");
    assert!(matches!(err, Err(CollectionError::ServiceError { .. })));
}
