use collection_coordinator::types::{CollectionError, UpdateResult, UpdateStatus};
use collection_coordinator::update::aggregate_update_results;

fn ok(id: u64) -> Result<UpdateResult, CollectionError> {
    Ok(UpdateResult { operation_id: id, status: UpdateStatus::Completed })
}

fn bad_input() -> Result<UpdateResult, CollectionError> {
    Err(CollectionError::BadInput { description: String::from("malformed points") })
}

fn service() -> Result<UpdateResult, CollectionError> {
    Err(CollectionError::ServiceError { error: String::from("storage failure") })
}

#[test]
fn inconsistent_batch_update() {
    // two shards: success on shard 0, a validation failure on shard 1
    let r = aggregate_update_results(vec![ok(1), bad_input()]);
    match r {
        Err(CollectionError::InconsistentShardFailure {
            shards_total,
            shards_failed,
            first_err,
        }) => {
            assert_eq!(shards_total, 2);
            assert_eq!(shards_failed, 1);
            assert!(matches!(*first_err, CollectionError::BadInput { .. }));
        },
        _ => panic!("expected an inconsistent-shard failure"),
    }
}

#[test]
fn all_failures_propagate_the_first() {
    let r = aggregate_update_results(vec![bad_input(), service()]);
    assert!(matches!(r, Err(CollectionError::BadInput { .. })));
}

#[test]
fn all_successes_return_the_last() {
    let r = aggregate_update_results(vec![ok(1), ok(2), ok(3)]).unwrap();
    assert_eq!(r.operation_id, 3);
    assert_eq!(r.status, UpdateStatus::Completed);
}

#[test]
fn single_success() {
    let r = aggregate_update_results(vec![ok(9)]).unwrap();
    assert_eq!(r.operation_id, 9);
}

#[test]
fn mixed_counts_match() {
    let r = aggregate_update_results(vec![service(), ok(1), bad_input(), ok(2)]);
    match r {
        Err(CollectionError::InconsistentShardFailure {
            shards_total,
            shards_failed,
            first_err,
        }) => {
            assert_eq!(shards_total, 4);
            assert_eq!(shards_failed, 2);
            assert!(matches!(*first_err, CollectionError::ServiceError { .. }));
        },
        _ => panic!("expected an inconsistent-shard failure"),
    }
}
