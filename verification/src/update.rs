//! Update operations and how per-shard update outcomes are folded into the
//! single answer a client sees.

use vstd::prelude::*;

use crate::types::{CollectionError, PeerId, PointId, ReplicaState, UpdateResult, WriteOrdering};

verus! {

broadcast use vstd::seq_lib::group_seq_properties;

/// The replicas a write goes to: every peer that is not Dead, in replica
/// order. Writes to Dead replicas are not attempted; their failures would
/// be tolerated anyway.
pub open spec fn spec_write_targets(s: Seq<(PeerId, ReplicaState)>) -> Seq<(
    PeerId,
    ReplicaState,
)>
    decreases s.len(),
{
    if s.len() == 0 {
        Seq::empty()
    } else {
        let pre = spec_write_targets(s.drop_last());
        if s.last().1 != ReplicaState::Dead {
            pre.push(s.last())
        } else {
            pre
        }
    }
}

/// Pick the write targets out of a replica list.
pub fn write_targets(replicas: &Vec<(PeerId, ReplicaState)>) -> (r: Vec<(
    PeerId,
    ReplicaState,
)>)
    ensures
        r@ == spec_write_targets(replicas@),
{
    let mut r: Vec<(PeerId, ReplicaState)> = Vec::new();
    let n = replicas.len();
    let mut i: usize = 0;
    while i < n
        invariant
            0 <= i <= n,
            n == replicas@.len(),
            r@ == spec_write_targets(replicas@.take(i as int)),
        decreases n - i,
    {
        assert(replicas@.take(i as int + 1).drop_last() =~= replicas@.take(i as int));
        assert(replicas@.take(i as int + 1).last() == replicas@[i as int]);
        let (p, st) = replicas[i];
        if !(matches!(st, ReplicaState::Dead)) {
            r.push((p, st));
        }
        i = i + 1;
    }
    assert(replicas@.take(n as int) =~= replicas@);
    r
}

/// The Active peers whose write failed, in target order: each of these is
/// escalated so consensus can mark the peer Dead. Failures on non-Active
/// replicas are tolerated silently.
pub open spec fn spec_failed_active_peers(
    targets: Seq<(PeerId, ReplicaState)>,
    results: Seq<(PeerId, bool)>,
) -> Seq<PeerId>
    decreases targets.len(),
{
    if targets.len() == 0 {
        Seq::empty()
    } else {
        let pre = spec_failed_active_peers(targets.drop_last(), results);
        let t = targets.last();
        if t.1 == ReplicaState::Active && spec_write_ok(results, t.0) == Some(false) {
            pre.push(t.0)
        } else {
            pre
        }
    }
}

/// Outcome reported for a peer, if one was reported.
pub open spec fn spec_write_ok(results: Seq<(PeerId, bool)>, p: PeerId) -> Option<bool>
    decreases results.len(),
{
    if results.len() == 0 {
        None
    } else if results[0].0 == p {
        Some(results[0].1)
    } else {
        spec_write_ok(results.drop_first(), p)
    }
}

proof fn lemma_write_ok_at(results: Seq<(PeerId, bool)>, p: PeerId, i: int)
    requires
        0 <= i <= results.len(),
        forall|j: int| 0 <= j < i ==> results[j].0 != p,
        i == results.len() || results[i].0 == p,
    ensures
        spec_write_ok(results, p) == if i == results.len() {
            None::<bool>
        } else {
            Some(results[i].1)
        },
    decreases i,
{
    if i == 0 {
    } else {
        lemma_write_ok_at(results.drop_first(), p, i - 1);
    }
}

fn write_ok(results: &Vec<(PeerId, bool)>, p: PeerId) -> (r: Option<bool>)
    ensures
        r == spec_write_ok(results@, p),
{
    let n = results.len();
    let mut i: usize = 0;
    while i < n && results[i].0 != p
        invariant
            0 <= i <= n,
            n == results@.len(),
            forall|j: int| 0 <= j < i ==> results@[j].0 != p,
        decreases n - i,
    {
        i = i + 1;
    }
    proof {
        lemma_write_ok_at(results@, p, i as int);
    }
    if i < n {
        Some(results[i].1)
    } else {
        None
    }
}

/// The Active peers whose write failed.
pub fn failed_active_peers(
    targets: &Vec<(PeerId, ReplicaState)>,
    results: &Vec<(PeerId, bool)>,
) -> (r: Vec<PeerId>)
    ensures
        r@ == spec_failed_active_peers(targets@, results@),
{
    let mut r: Vec<PeerId> = Vec::new();
    let n = targets.len();
    let mut i: usize = 0;
    while i < n
        invariant
            0 <= i <= n,
            n == targets@.len(),
            r@ == spec_failed_active_peers(targets@.take(i as int), results@),
        decreases n - i,
    {
        assert(targets@.take(i as int + 1).drop_last() =~= targets@.take(i as int));
        assert(targets@.take(i as int + 1).last() == targets@[i as int]);
        let (p, st) = targets[i];
        if matches!(st, ReplicaState::Active) {
            match write_ok(results, p) {
                Some(false) => {
                    r.push(p);
                },
                _ => {},
            }
        }
        i = i + 1;
    }
    assert(targets@.take(n as int) =~= targets@);
    r
}

/// Number of Active targets whose write was acknowledged.
pub open spec fn spec_active_ack_count(
    targets: Seq<(PeerId, ReplicaState)>,
    results: Seq<(PeerId, bool)>,
) -> nat
    decreases targets.len(),
{
    if targets.len() == 0 {
        0
    } else {
        let pre = spec_active_ack_count(targets.drop_last(), results);
        let t = targets.last();
        if t.1 == ReplicaState::Active && spec_write_ok(results, t.0) == Some(true) {
            pre + 1
        } else {
            pre
        }
    }
}

/// Did a consistent write meet its ordering guarantee? `Weak` fires and
/// forgets; `Medium` needs this peer's own acknowledgement; `Strong` needs
/// acknowledgements from a quorum of the Active replicas.
pub open spec fn spec_write_succeeded(
    ordering: WriteOrdering,
    this_peer: PeerId,
    quorum: nat,
    targets: Seq<(PeerId, ReplicaState)>,
    results: Seq<(PeerId, bool)>,
) -> bool {
    match ordering {
        WriteOrdering::Weak => true,
        WriteOrdering::Medium => spec_write_ok(results, this_peer) == Some(true),
        WriteOrdering::Strong => spec_active_ack_count(targets, results) >= quorum,
    }
}

/// Decide the outcome of a consistent write from the per-replica results.
pub fn write_succeeded(
    ordering: WriteOrdering,
    this_peer: PeerId,
    quorum: usize,
    targets: &Vec<(PeerId, ReplicaState)>,
    results: &Vec<(PeerId, bool)>,
) -> (r: bool)
    ensures
        r == spec_write_succeeded(ordering, this_peer, quorum as nat, targets@, results@),
{
    match ordering {
        WriteOrdering::Weak => true,
        WriteOrdering::Medium => {
            match write_ok(results, this_peer) {
                Some(true) => true,
                _ => false,
            }
        },
        WriteOrdering::Strong => {
            let mut acks: usize = 0;
            let n = targets.len();
            let mut i: usize = 0;
            while i < n
                invariant
                    0 <= i <= n,
                    n == targets@.len(),
                    acks == spec_active_ack_count(targets@.take(i as int), results@),
                    acks <= i,
                decreases n - i,
            {
                assert(targets@.take(i as int + 1).drop_last() =~= targets@.take(i as int));
                assert(targets@.take(i as int + 1).last() == targets@[i as int]);
                let (p, st) = targets[i];
                if matches!(st, ReplicaState::Active) {
                    match write_ok(results, p) {
                        Some(true) => {
                            acks = acks + 1;
                        },
                        _ => {},
                    }
                }
                i = i + 1;
            }
            assert(targets@.take(n as int) =~= targets@);
            acks >= quorum
        },
    }
}

/// What an update does to the points it addresses.
#[derive(Clone, Copy, PartialEq, Eq, Structural, Debug)]
pub enum UpdateKind {
    UpsertPoints,
    DeletePoints,
}

/// One update operation addressed at a set of points.
#[derive(Clone, Debug)]
pub struct UpdateOperation {
    pub kind: UpdateKind,
    pub points: Vec<PointId>,
}

/// Number of failed per-shard outcomes.
pub open spec fn spec_err_count(s: Seq<Result<UpdateResult, CollectionError>>) -> nat
    decreases s.len(),
{
    if s.len() == 0 {
        0
    } else {
        spec_err_count(s.drop_last()) + if s.last() is Err {
            1nat
        } else {
            0nat
        }
    }
}

/// Index of the first failed outcome.
pub open spec fn spec_first_err_index(s: Seq<Result<UpdateResult, CollectionError>>) -> int
    decreases s.len(),
{
    if s.len() == 0 {
        0
    } else if s[0] is Err {
        0
    } else {
        1 + spec_first_err_index(s.drop_first())
    }
}

proof fn lemma_first_err_at(s: Seq<Result<UpdateResult, CollectionError>>, i: int)
    requires
        0 <= i <= s.len(),
        forall|j: int| 0 <= j < i ==> s[j] is Ok,
        i == s.len() || s[i] is Err,
    ensures
        spec_first_err_index(s) == i,
    decreases i,
{
    if i == 0 {
    } else {
        lemma_first_err_at(s.drop_first(), i - 1);
    }
}

proof fn lemma_err_count_all_ok(s: Seq<Result<UpdateResult, CollectionError>>)
    requires
        spec_err_count(s) == 0,
    ensures
        forall|j: int| 0 <= j < s.len() ==> s[j] is Ok,
    decreases s.len(),
{
    if s.len() > 0 {
        lemma_err_count_all_ok(s.drop_last());
        assert forall|j: int| 0 <= j < s.len() implies s[j] is Ok by {
            if j < s.len() - 1 {
                assert(s.drop_last()[j] == s[j]);
            } else {
                assert(s.last() == s[j]);
            }
        }
    }
}

proof fn lemma_err_count_zero(s: Seq<Result<UpdateResult, CollectionError>>)
    requires
        forall|j: int| 0 <= j < s.len() ==> s[j] is Ok,
    ensures
        spec_err_count(s) == 0,
    decreases s.len(),
{
    if s.len() > 0 {
        assert forall|j: int| 0 <= j < s.drop_last().len() implies s.drop_last()[j] is Ok by {
            assert(s.drop_last()[j] == s[j]);
        }
        lemma_err_count_zero(s.drop_last());
    }
}

proof fn lemma_err_count_le(s: Seq<Result<UpdateResult, CollectionError>>)
    ensures
        spec_err_count(s) <= s.len(),
    decreases s.len(),
{
    if s.len() > 0 {
        lemma_err_count_le(s.drop_last());
    }
}

proof fn lemma_err_count_full(s: Seq<Result<UpdateResult, CollectionError>>)
    requires
        s.len() > 0,
        spec_err_count(s) == s.len(),
    ensures
        s[0] is Err,
    decreases s.len(),
{
    lemma_err_count_le(s.drop_last());
    if s.len() == 1 {
    } else {
        lemma_err_count_full(s.drop_last());
        assert(s.drop_last()[0] == s[0]);
    }
}

/// Fold the per-shard outcomes of one client update into one answer: all
/// successes return the last success; all failures propagate the first
/// failure; a proper mix is an inconsistent-shard failure that counts the
/// shards and carries the first error.
pub fn aggregate_update_results(results: Vec<Result<UpdateResult, CollectionError>>) -> (r:
    Result<UpdateResult, CollectionError>)
    requires
        results@.len() > 0,
        results@.len() <= 0xFFFF_FFFF,
    ensures
        spec_err_count(results@) == 0 ==> r == results@.last(),
        spec_err_count(results@) == results@.len() ==> r == results@[0],
        0 < spec_err_count(results@) < results@.len() ==> (r matches Err(e) && (e matches
            CollectionError::InconsistentShardFailure {
            shards_total,
            shards_failed,
            first_err,
        } && shards_total == results@.len() && shards_failed == spec_err_count(results@)
            && Err::<UpdateResult, CollectionError>(*first_err) == results@[
            spec_first_err_index(results@)
        ])),
{
    let mut results = results;
    let n = results.len();
    let mut with_error: u32 = 0;
    let mut first_err: usize = n;
    let mut i: usize = 0;
    while i < n
        invariant
            0 <= i <= n,
            n == results@.len(),
            n <= 0xFFFF_FFFF,
            with_error == spec_err_count(results@.take(i as int)),
            with_error <= i,
            first_err == n || (first_err < i && results@[first_err as int] is Err),
            forall|j: int| 0 <= j < i && j < first_err ==> results@[j] is Ok,
        decreases n - i,
    {
        assert(results@.take(i as int + 1).drop_last() =~= results@.take(i as int));
        assert(results@.take(i as int + 1).last() == results@[i as int]);
        let is_err = match &results[i] {
            Ok(_) => false,
            Err(_) => true,
        };
        if is_err {
            with_error = with_error + 1;
            if first_err == n {
                first_err = i;
            }
        }
        i = i + 1;
    }
    assert(results@.take(n as int) =~= results@);
    if with_error > 0 {
        proof {
            if first_err == n {
                lemma_err_count_zero(results@);
            }
        }
        assert(first_err < n);
        proof {
            lemma_first_err_at(results@, first_err as int);
            if with_error == n as u32 {
                lemma_err_count_full(results@);
                assert(first_err == 0);
            }
        }
        let first = results.remove(first_err);
        match first {
            Ok(_) => {
                proof {
                    assert(false);
                }
                Err(
                    CollectionError::service_error(
                        String::from_str("unreachable update aggregation state"),
                    ),
                )
            },
            Err(err) => {
                if (with_error as usize) < n {
                    Err(
                        CollectionError::InconsistentShardFailure {
                            shards_total: n as u32,
                            shards_failed: with_error,
                            first_err: Box::new(err),
                        },
                    )
                } else {
                    Err(err)
                }
            },
        }
    } else {
        proof {
            lemma_err_count_all_ok(results@);
        }
        match results.pop() {
            Some(last) => last,
            None => Err(
                CollectionError::service_error(
                    String::from_str("unreachable update aggregation state"),
                ),
            ),
        }
    }
}

} // verus!
