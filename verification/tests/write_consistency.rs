use collection_coordinator::types::{PeerId, ReplicaState, WriteOrdering};
use collection_coordinator::update::{failed_active_peers, write_succeeded, write_targets};

const A: PeerId = 1;
const B: PeerId = 2;
const C: PeerId = 3;

fn replicas() -> Vec<(PeerId, ReplicaState)> {
    vec![
        (A, ReplicaState::Active),
        (B, ReplicaState::Active),
        (C, ReplicaState::Dead),
    ]
}

#[test]
fn dead_replicas_are_not_write_targets() {
    let targets = write_targets(&replicas());
    assert_eq!(
        targets,
        vec![(A, ReplicaState::Active), (B, ReplicaState::Active)]
    );
    let partial = vec![(A, ReplicaState::Partial), (B, ReplicaState::Dead)];
    assert_eq!(write_targets(&partial), vec![(A, ReplicaState::Partial)]);
}

#[test]
fn failures_on_active_replicas_escalate() {
    let targets = vec![
        (A, ReplicaState::Active),
        (B, ReplicaState::Active),
        (C, ReplicaState::Partial),
    ];
    // B and C fail; only B is Active, so only B is escalated
    let results = vec![(A, true), (B, false), (C, false)];
    assert_eq!(failed_active_peers(&targets, &results), vec![B]);
    // with everything acknowledged nothing escalates
    let all_ok = vec![(A, true), (B, true), (C, true)];
    assert!(failed_active_peers(&targets, &all_ok).is_empty());
}

#[test]
fn weak_ordering_always_succeeds() {
    let targets = write_targets(&replicas());
    let results = vec![(A, false), (B, false)];
    assert!(write_succeeded(WriteOrdering::Weak, A, 2, &targets, &results));
}

#[test]
fn medium_ordering_needs_local_ack() {
    let targets = write_targets(&replicas());
    let local_ok = vec![(A, true), (B, false)];
    assert!(write_succeeded(WriteOrdering::Medium, A, 2, &targets, &local_ok));
    let local_failed = vec![(A, false), (B, true)];
    assert!(!write_succeeded(WriteOrdering::Medium, A, 2, &targets, &local_failed));
    let no_local_report = vec![(B, true)];
    assert!(!write_succeeded(WriteOrdering::Medium, A, 2, &targets, &no_local_report));
}

#[test]
fn strong_ordering_needs_active_quorum() {
    let targets = vec![
        (A, ReplicaState::Active),
        (B, ReplicaState::Active),
        (C, ReplicaState::Partial),
    ];
    // C's ack does not count towards the Active quorum
    let results = vec![(A, true), (B, false), (C, true)];
    assert!(write_succeeded(WriteOrdering::Strong, A, 1, &targets, &results));
    assert!(!write_succeeded(WriteOrdering::Strong, A, 2, &targets, &results));
    let both = vec![(A, true), (B, true)];
    assert!(write_succeeded(WriteOrdering::Strong, A, 2, &targets, &both));
}
