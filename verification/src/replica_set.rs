//! One shard's replica set: the per-peer replica states, the local replica
//! slot, and the remote stubs this peer keeps for the other replicas.

use vstd::prelude::*;

use crate::types::{CollectionError, PeerId, ReplicaState, ShardId};

verus! {

broadcast use vstd::seq_lib::group_seq_properties;

/// The local replica slot of a replica set.
#[derive(Clone, Copy, PartialEq, Eq, Structural, Debug)]
pub enum LocalReplica {
    /// This peer holds no replica of the shard.
    Absent,
    /// A plain local replica.
    Local,
    /// A local replica wrapped in a forward proxy that tees every successful
    /// write to the transfer destination.
    ForwardProxy { to: PeerId },
    /// A placeholder local replica awaiting data from a transfer.
    Dummy,
}

/// State of peer `p` in an association list of replica states.
pub open spec fn find_peer(s: Seq<(PeerId, ReplicaState)>, p: PeerId) -> Option<ReplicaState>
    decreases s.len(),
{
    if s.len() == 0 {
        None
    } else if s[0].0 == p {
        Some(s[0].1)
    } else {
        find_peer(s.drop_first(), p)
    }
}

pub open spec fn unique_peers(s: Seq<(PeerId, ReplicaState)>) -> bool {
    forall|a: int, b: int| 0 <= a < b < s.len() ==> s[a].0 != s[b].0
}

pub proof fn lemma_unique_drop_first(s: Seq<(PeerId, ReplicaState)>)
    requires
        unique_peers(s),
        s.len() > 0,
    ensures
        unique_peers(s.drop_first()),
{
    assert forall|a: int, b: int|
        0 <= a < b < s.drop_first().len() implies s.drop_first()[a].0 != s.drop_first()[
        b
    ].0 by {
        assert(s.drop_first()[a] == s[a + 1]);
        assert(s.drop_first()[b] == s[b + 1]);
    }
}

/// The first-match scan: if everything before `i` misses `p` and `i` hits it
/// (or is the end), `find_peer` is decided.
pub proof fn lemma_find_peer_at(s: Seq<(PeerId, ReplicaState)>, p: PeerId, i: int)
    requires
        0 <= i <= s.len(),
        forall|j: int| 0 <= j < i ==> s[j].0 != p,
        i == s.len() || s[i].0 == p,
    ensures
        find_peer(s, p) == if i == s.len() {
            None::<ReplicaState>
        } else {
            Some(s[i].1)
        },
    decreases i,
{
    if i == 0 {
    } else {
        lemma_find_peer_at(s.drop_first(), p, i - 1);
    }
}

/// With unique keys, every entry is found under its own key.
pub proof fn lemma_find_peer_at_index(s: Seq<(PeerId, ReplicaState)>, i: int)
    requires
        unique_peers(s),
        0 <= i < s.len(),
    ensures
        find_peer(s, s[i].0) == Some(s[i].1),
    decreases i,
{
    if i == 0 {
    } else {
        lemma_unique_drop_first(s);
        lemma_find_peer_at_index(s.drop_first(), i - 1);
        assert(s.drop_first()[i - 1] == s[i]);
    }
}

/// A found peer has an entry.
pub proof fn lemma_find_peer_exists(s: Seq<(PeerId, ReplicaState)>, p: PeerId)
    requires
        find_peer(s, p) is Some,
    ensures
        exists|i: int| 0 <= i < s.len() && s[i].0 == p && s[i].1 == find_peer(s, p)->Some_0,
    decreases s.len(),
{
    if s.len() == 0 {
    } else if s[0].0 == p {
        assert(s[0].0 == p && s[0].1 == find_peer(s, p)->Some_0);
    } else {
        lemma_find_peer_exists(s.drop_first(), p);
        let i = choose|i: int|
            0 <= i < s.drop_first().len() && s.drop_first()[i].0 == p && s.drop_first()[i].1
                == find_peer(s.drop_first(), p)->Some_0;
        assert(s[i + 1].0 == p && s[i + 1].1 == find_peer(s, p)->Some_0);
    }
}

pub proof fn lemma_find_peer_update(s: Seq<(PeerId, ReplicaState)>, i: int, v: ReplicaState, p:
    PeerId)
    requires
        unique_peers(s),
        0 <= i < s.len(),
    ensures
        find_peer(s.update(i, (s[i].0, v)), p) == if p == s[i].0 {
            Some(v)
        } else {
            find_peer(s, p)
        },
    decreases s.len(),
{
    if s.len() == 0 {
    } else if i == 0 {
        assert(s.update(0, (s[0].0, v))[0] == (s[0].0, v));
        assert(s.update(0, (s[0].0, v)).drop_first() =~= s.drop_first());
    } else {
        assert(s.update(i, (s[i].0, v))[0] == s[0]);
        assert(s.update(i, (s[i].0, v)).drop_first() =~= s.drop_first().update(
            i - 1,
            (s[i].0, v),
        ));
        lemma_unique_drop_first(s);
        assert(s.drop_first()[i - 1] == s[i]);
        lemma_find_peer_update(s.drop_first(), i - 1, v, p);
    }
}

pub proof fn lemma_find_peer_push(s: Seq<(PeerId, ReplicaState)>, q: PeerId, v: ReplicaState, p:
    PeerId)
    requires
        find_peer(s, q) is None,
    ensures
        find_peer(s.push((q, v)), p) == if p == q {
            Some(v)
        } else {
            find_peer(s, p)
        },
    decreases s.len(),
{
    if s.len() == 0 {
        assert(s.push((q, v))[0] == (q, v));
        assert(s.push((q, v)).drop_first() =~= Seq::<(PeerId, ReplicaState)>::empty());
    } else {
        assert(s.push((q, v))[0] == s[0]);
        assert(s.push((q, v)).drop_first() =~= s.drop_first().push((q, v)));
        lemma_find_peer_push(s.drop_first(), q, v, p);
    }
}

pub proof fn lemma_find_peer_remove(s: Seq<(PeerId, ReplicaState)>, i: int, p: PeerId)
    requires
        unique_peers(s),
        0 <= i < s.len(),
    ensures
        find_peer(s.remove(i), p) == if p == s[i].0 {
            None::<ReplicaState>
        } else {
            find_peer(s, p)
        },
    decreases s.len(),
{
    if s.len() == 0 {
    } else if i == 0 {
        assert(s.remove(0) =~= s.drop_first());
        if p == s[0].0 {
            if find_peer(s.drop_first(), p) is Some {
                lemma_find_peer_exists(s.drop_first(), p);
                let j = choose|j: int|
                    0 <= j < s.drop_first().len() && s.drop_first()[j].0 == p;
                assert(s[j + 1].0 == p);
            }
        }
    } else {
        assert(s.remove(i)[0] == s[0]);
        assert(s.remove(i).drop_first() =~= s.drop_first().remove(i - 1));
        lemma_unique_drop_first(s);
        assert(s.drop_first()[i - 1] == s[i]);
        lemma_find_peer_remove(s.drop_first(), i - 1, p);
    }
}

/// First peer whose replica is Active, in replica-list order.
pub open spec fn spec_first_active(s: Seq<(PeerId, ReplicaState)>) -> Option<PeerId>
    decreases s.len(),
{
    if s.len() == 0 {
        None
    } else if s[0].1 == ReplicaState::Active {
        Some(s[0].0)
    } else {
        spec_first_active(s.drop_first())
    }
}

pub proof fn lemma_first_active_at(s: Seq<(PeerId, ReplicaState)>, i: int)
    requires
        0 <= i <= s.len(),
        forall|j: int| 0 <= j < i ==> s[j].1 != ReplicaState::Active,
        i == s.len() || s[i].1 == ReplicaState::Active,
    ensures
        spec_first_active(s) == if i == s.len() {
            None::<PeerId>
        } else {
            Some(s[i].0)
        },
    decreases i,
{
    if i == 0 {
    } else {
        lemma_first_active_at(s.drop_first(), i - 1);
    }
}

/// Remote peers whose replica is Active, in replica-list order.
pub open spec fn spec_active_remotes(s: Seq<(PeerId, ReplicaState)>, this: PeerId) -> Seq<
    PeerId,
>
    decreases s.len(),
{
    if s.len() == 0 {
        Seq::empty()
    } else {
        let pre = spec_active_remotes(s.drop_last(), this);
        if s.last().1 == ReplicaState::Active && s.last().0 != this {
            pre.push(s.last().0)
        } else {
            pre
        }
    }
}

/// The unit of replication of one shard: every peer's replica state, this
/// peer's local replica slot, and the remote stubs it holds.
pub struct ReplicaSet {
    pub shard_id: ShardId,
    pub this_peer_id: PeerId,
    pub local: LocalReplica,
    pub replicas: Vec<(PeerId, ReplicaState)>,
    pub remotes: Vec<PeerId>,
}

impl ReplicaSet {
    /// Exactly one entry per participating peer; remote stubs unique and
    /// never pointing at this peer itself.
    pub open spec fn wf(self) -> bool {
        &&& unique_peers(self.replicas@)
        &&& forall|a: int, b: int|
            0 <= a < b < self.remotes@.len() ==> self.remotes@[a] != self.remotes@[b]
        &&& !self.remotes@.contains(self.this_peer_id)
    }

    pub open spec fn spec_peer_state(self, p: PeerId) -> Option<ReplicaState> {
        find_peer(self.replicas@, p)
    }

    pub open spec fn spec_has_peer(self, p: PeerId) -> bool {
        self.spec_peer_state(p) is Some
    }

    /// Is `p` the only Active replica?
    pub open spec fn spec_is_last_active(self, p: PeerId) -> bool {
        self.spec_peer_state(p) == Some(ReplicaState::Active) && forall|q: PeerId|
            q != p ==> #[trigger] self.spec_peer_state(q) != Some(ReplicaState::Active)
    }

    pub open spec fn spec_is_local(self) -> bool {
        self.local is Local || self.local is Dummy
    }

    pub open spec fn spec_has_local_shard(self) -> bool {
        !(self.local is Absent)
    }

    pub open spec fn spec_is_dummy(self) -> bool {
        self.local is Dummy
    }

    /// Build the replica set of one shard. Peers listed in `peers` (this one
    /// included, if it takes part) start in `Initializing`.
    pub fn build(shard_id: ShardId, this_peer_id: PeerId, peers: &Vec<PeerId>) -> (r:
        ReplicaSet)
        ensures
            r.wf(),
            r.shard_id == shard_id,
            r.this_peer_id == this_peer_id,
            forall|p: PeerId|
                #[trigger] r.spec_peer_state(p) == if peers@.contains(p) {
                    Some(ReplicaState::Initializing)
                } else {
                    None::<ReplicaState>
                },
            r.local == if peers@.contains(this_peer_id) {
                LocalReplica::Local
            } else {
                LocalReplica::Absent
            },
            forall|q: PeerId|
                #[trigger] r.remotes@.contains(q) <==> (peers@.contains(q) && q
                    != this_peer_id),
    {
        let mut rs = ReplicaSet {
            shard_id,
            this_peer_id,
            local: LocalReplica::Absent,
            replicas: Vec::new(),
            remotes: Vec::new(),
        };
        let n = peers.len();
        let mut i: usize = 0;
        let mut saw_this = false;
        while i < n
            invariant
                0 <= i <= n,
                n == peers@.len(),
                rs.wf(),
                rs.shard_id == shard_id,
                rs.this_peer_id == this_peer_id,
                rs.local == LocalReplica::Absent,
                saw_this == peers@.take(i as int).contains(this_peer_id),
                forall|p: PeerId|
                    #[trigger] rs.spec_peer_state(p) == if peers@.take(i as int).contains(p) {
                        Some(ReplicaState::Initializing)
                    } else {
                        None::<ReplicaState>
                    },
                forall|q: PeerId|
                    #[trigger] rs.remotes@.contains(q) <==> (peers@.take(i as int).contains(q)
                        && q != this_peer_id),
            decreases n - i,
        {
            let p = peers[i];
            assert(peers@.take(i as int + 1) =~= peers@.take(i as int).push(p));
            let existing = rs.peer_state(&p);
            if existing.is_none() {
                proof {
                    lemma_find_peer_push(
                        rs.replicas@,
                        p,
                        ReplicaState::Initializing,
                        this_peer_id,
                    );
                    assert forall|q: PeerId|
                        find_peer(
                            rs.replicas@.push((p, ReplicaState::Initializing)),
                            q,
                        ) == if q == p {
                        Some(ReplicaState::Initializing)
                    } else {
                        find_peer(rs.replicas@, q)
                    } by {
                        lemma_find_peer_push(rs.replicas@, p, ReplicaState::Initializing, q);
                    }
                }
                let ghost pre = rs.replicas@;
                rs.replicas.push((p, ReplicaState::Initializing));
                assert forall|a: int, b: int|
                    0 <= a < b < rs.replicas@.len() implies rs.replicas@[a].0 != rs.replicas@[
                    b
                ].0 by {
                    if b == rs.replicas@.len() - 1 {
                        assert(rs.replicas@[a] == pre[a]);
                        lemma_find_peer_at_index(pre, a);
                    }
                }
                if p != this_peer_id {
                    let ghost rpre = rs.remotes@;
                    rs.remotes.push(p);
                    assert forall|q: PeerId| #[trigger]
                        rs.remotes@.contains(q) implies (rpre.contains(q) || q == p) by {
                        let j = choose|j: int|
                            0 <= j < rs.remotes@.len() && rs.remotes@[j] == q;
                        if j < rpre.len() {
                            assert(rpre[j] == q);
                        }
                    }
                    assert forall|a: int, b: int|
                        0 <= a < b < rs.remotes@.len() implies rs.remotes@[a] != rs.remotes@[
                        b
                    ] by {
                        if b == rs.remotes@.len() - 1 {
                            assert(rpre.contains(rpre[a]));
                        }
                    }
                }
            }
            if p == this_peer_id {
                saw_this = true;
            }
            i = i + 1;
        }
        assert(peers@.take(n as int) =~= peers@);
        let ghost pre_rs = rs;
        if saw_this {
            rs.local = LocalReplica::Local;
        }
        proof {
            assert(rs.replicas@ == pre_rs.replicas@);
            assert(rs.remotes@ == pre_rs.remotes@);
            assert forall|p: PeerId|
                #[trigger] rs.spec_peer_state(p) == if peers@.contains(p) {
                    Some(ReplicaState::Initializing)
                } else {
                    None::<ReplicaState>
                } by {
                assert(pre_rs.spec_peer_state(p) == find_peer(pre_rs.replicas@, p));
            }
            assert forall|q: PeerId|
                #[trigger] rs.remotes@.contains(q) <==> (peers@.contains(q) && q
                    != this_peer_id) by {
                assert(pre_rs.remotes@.contains(q) <==> (peers@.contains(q) && q
                    != this_peer_id));
            }
        }
        rs
    }

    /// A copy of the replica states of all peers.
    pub fn peers(&self) -> (r: Vec<(PeerId, ReplicaState)>)
        ensures
            r@ == self.replicas@,
    {
        let mut r: Vec<(PeerId, ReplicaState)> = Vec::new();
        let n = self.replicas.len();
        let mut i: usize = 0;
        while i < n
            invariant
                0 <= i <= n,
                n == self.replicas@.len(),
                r@ == self.replicas@.take(i as int),
            decreases n - i,
        {
            r.push(self.replicas[i]);
            assert(r@ =~= self.replicas@.take(i as int + 1));
            i = i + 1;
        }
        assert(self.replicas@.take(n as int) =~= self.replicas@);
        r
    }

    fn find_index(&self, p: &PeerId) -> (r: Option<usize>)
        ensures
            match r {
                Some(i) => 0 <= i < self.replicas@.len() && self.replicas@[i as int].0 == *p
                    && self.spec_peer_state(*p) == Some(self.replicas@[i as int].1),
                None => self.spec_peer_state(*p) is None,
            },
    {
        let n = self.replicas.len();
        let mut i: usize = 0;
        while i < n && self.replicas[i].0 != *p
            invariant
                0 <= i <= n,
                n == self.replicas@.len(),
                forall|j: int| 0 <= j < i ==> self.replicas@[j].0 != *p,
            decreases n - i,
        {
            i = i + 1;
        }
        proof {
            lemma_find_peer_at(self.replicas@, *p, i as int);
        }
        if i < n {
            Some(i)
        } else {
            None
        }
    }

    /// Replica state of peer `p`, if it takes part in this shard.
    pub fn peer_state(&self, p: &PeerId) -> (r: Option<ReplicaState>)
        ensures
            r == self.spec_peer_state(*p),
    {
        match self.find_index(p) {
            Some(i) => Some(self.replicas[i].1),
            None => None,
        }
    }

    /// Set the replica state of a peer that already takes part.
    pub fn set_replica_state(&mut self, p: &PeerId, state: ReplicaState) -> (r: Result<
        (),
        CollectionError,
    >)
        requires
            old(self).wf(),
        ensures
            final(self).wf(),
            r is Ok <==> old(self).spec_has_peer(*p),
            r is Err ==> *final(self) == *old(self) && r->Err_0 is NotFound,
            r is Ok ==> {
                &&& final(self).spec_peer_state(*p) == Some(state)
                &&& forall|q: PeerId|
                    q != *p ==> #[trigger] final(self).spec_peer_state(q) == old(
                        self,
                    ).spec_peer_state(q)
                &&& final(self).replicas@.len() == old(self).replicas@.len()
                &&& final(self).local == old(self).local
                &&& final(self).remotes@ == old(self).remotes@
                &&& final(self).shard_id == old(self).shard_id
                &&& final(self).this_peer_id == old(self).this_peer_id
            },
    {
        match self.find_index(p) {
            Some(i) => {
                proof {
                    assert forall|q: PeerId|
                        find_peer(
                            self.replicas@.update(
                                i as int,
                                (self.replicas@[i as int].0, state),
                            ),
                            q,
                        ) == if q == self.replicas@[i as int].0 {
                        Some(state)
                    } else {
                        find_peer(self.replicas@, q)
                    } by {
                        lemma_find_peer_update(self.replicas@, i as int, state, q);
                    }
                }
                let peer = self.replicas[i].0;
                let ghost pre = self.replicas@;
                self.replicas.set(i, (peer, state));
                assert forall|a: int, b: int|
                    0 <= a < b < self.replicas@.len() implies self.replicas@[a].0
                    != self.replicas@[b].0 by {
                    assert(pre[a].0 != pre[b].0);
                }
                Ok(())
            },
            None => Err(
                CollectionError::not_found(String::from_str("replica of peer on this shard")),
            ),
        }
    }

    /// Set the replica state of a peer, inserting the peer if it is missing.
    /// A newly inserted remote peer also gets a remote stub.
    pub fn ensure_replica_with_state(&mut self, p: &PeerId, state: ReplicaState)
        requires
            old(self).wf(),
        ensures
            final(self).wf(),
            final(self).spec_peer_state(*p) == Some(state),
            forall|q: PeerId|
                q != *p ==> #[trigger] final(self).spec_peer_state(q) == old(
                    self,
                ).spec_peer_state(q),
            forall|q: PeerId|
                #[trigger] final(self).remotes@.contains(q) <==> (old(self).remotes@.contains(q)
                    || (q == *p && *p != old(self).this_peer_id && !old(self).spec_has_peer(*p))),
            final(self).replicas@.len() == old(self).replicas@.len() + (if old(
                self,
            ).spec_has_peer(*p) {
                0int
            } else {
                1int
            }),
            final(self).local == old(self).local,
            final(self).shard_id == old(self).shard_id,
            final(self).this_peer_id == old(self).this_peer_id,
    {
        match self.find_index(p) {
            Some(i) => {
                proof {
                    assert forall|q: PeerId|
                        find_peer(
                            self.replicas@.update(
                                i as int,
                                (self.replicas@[i as int].0, state),
                            ),
                            q,
                        ) == if q == self.replicas@[i as int].0 {
                        Some(state)
                    } else {
                        find_peer(self.replicas@, q)
                    } by {
                        lemma_find_peer_update(self.replicas@, i as int, state, q);
                    }
                }
                let peer = self.replicas[i].0;
                let ghost pre = self.replicas@;
                self.replicas.set(i, (peer, state));
                assert forall|a: int, b: int|
                    0 <= a < b < self.replicas@.len() implies self.replicas@[a].0
                    != self.replicas@[b].0 by {
                    assert(pre[a].0 != pre[b].0);
                }
            },
            None => {
                proof {
                    assert forall|q: PeerId|
                        find_peer(self.replicas@.push((*p, state)), q) == if q == *p {
                        Some(state)
                    } else {
                        find_peer(self.replicas@, q)
                    } by {
                        lemma_find_peer_push(self.replicas@, *p, state, q);
                    }
                }
                let ghost pre = self.replicas@;
                self.replicas.push((*p, state));
                assert forall|a: int, b: int|
                    0 <= a < b < self.replicas@.len() implies self.replicas@[a].0
                    != self.replicas@[b].0 by {
                    if b == self.replicas@.len() - 1 {
                        assert(self.replicas@[a] == pre[a]);
                        lemma_find_peer_at_index(pre, a);
                    }
                }
                let peer = *p;
                self.add_remote(peer);
            },
        }
    }

    /// Remove a peer from the replica set. Rejected if the peer is unknown
    /// or if removing it would leave the shard without any replica.
    pub fn remove_peer(&mut self, peer_id: PeerId) -> (r: Result<(), CollectionError>)
        requires
            old(self).wf(),
        ensures
            final(self).wf(),
            r is Ok <==> (old(self).spec_has_peer(peer_id) && old(self).replicas@.len() > 1),
            r is Err ==> *final(self) == *old(self),
            r is Err && !old(self).spec_has_peer(peer_id) ==> r->Err_0 is NotFound,
            r is Err && old(self).spec_has_peer(peer_id) ==> r->Err_0 is BadInput,
            r is Ok ==> {
                &&& final(self).spec_peer_state(peer_id) is None
                &&& final(self).replicas@.len() == old(self).replicas@.len() - 1
                &&& forall|q: PeerId|
                    q != peer_id ==> #[trigger] final(self).spec_peer_state(q) == old(
                        self,
                    ).spec_peer_state(q)
                &&& forall|q: PeerId|
                    #[trigger] final(self).remotes@.contains(q) <==> (old(
                        self,
                    ).remotes@.contains(q) && q != peer_id)
                &&& final(self).local == if peer_id == old(self).this_peer_id {
                    LocalReplica::Absent
                } else {
                    old(self).local
                }
                &&& final(self).shard_id == old(self).shard_id
                &&& final(self).this_peer_id == old(self).this_peer_id
            },
    {
        match self.find_index(&peer_id) {
            Some(i) => {
                if self.replicas.len() == 1 {
                    return Err(
                        CollectionError::bad_input(
                            String::from_str("a shard must keep at least one replica"),
                        ),
                    );
                }
                proof {
                    assert forall|q: PeerId|
                        find_peer(self.replicas@.remove(i as int), q) == if q
                            == self.replicas@[i as int].0 {
                        None::<ReplicaState>
                    } else {
                        find_peer(self.replicas@, q)
                    } by {
                        lemma_find_peer_remove(self.replicas@, i as int, q);
                    }
                }
                let ghost pre = self.replicas@;
                self.replicas.remove(i);
                assert forall|a: int, b: int|
                    0 <= a < b < self.replicas@.len() implies self.replicas@[a].0
                    != self.replicas@[b].0 by {
                    if a < i as int {
                        assert(self.replicas@[a] == pre[a]);
                    } else {
                        assert(self.replicas@[a] == pre[a + 1]);
                    }
                    if b < i as int {
                        assert(self.replicas@[b] == pre[b]);
                    } else {
                        assert(self.replicas@[b] == pre[b + 1]);
                    }
                }
                self.remove_remote(&peer_id);
                if peer_id == self.this_peer_id {
                    self.local = LocalReplica::Absent;
                }
                Ok(())
            },
            None => Err(
                CollectionError::not_found(String::from_str("replica of peer on this shard")),
            ),
        }
    }

    /// Drop the remote stub pointing at `peer_id`, if one exists.
    pub fn remove_remote(&mut self, peer_id: &PeerId)
        requires
            old(self).wf(),
        ensures
            final(self).wf(),
            forall|q: PeerId|
                #[trigger] final(self).remotes@.contains(q) <==> (old(self).remotes@.contains(q)
                    && q != *peer_id),
            final(self).replicas@ == old(self).replicas@,
            final(self).local == old(self).local,
            final(self).shard_id == old(self).shard_id,
            final(self).this_peer_id == old(self).this_peer_id,
    {
        let n = self.remotes.len();
        let mut i: usize = 0;
        while i < n && self.remotes[i] != *peer_id
            invariant
                0 <= i <= n,
                n == self.remotes@.len(),
                forall|j: int| 0 <= j < i ==> self.remotes@[j] != *peer_id,
            decreases n - i,
        {
            i = i + 1;
        }
        if i < n {
            let ghost pre = self.remotes@;
            self.remotes.remove(i);
            assert forall|q: PeerId| #[trigger]
                self.remotes@.contains(q) implies (pre.contains(q) && q != *peer_id) by {
                let j = choose|j: int| 0 <= j < self.remotes@.len() && self.remotes@[j] == q;
                if j < i as int {
                    assert(pre[j] == q);
                } else {
                    assert(pre[j + 1] == q);
                    assert(q != *peer_id);
                }
            }
            assert forall|q: PeerId| pre.contains(q) && q != *peer_id implies
                self.remotes@.contains(q) by {
                let j = choose|j: int| 0 <= j < pre.len() && pre[j] == q;
                if j < i as int {
                    assert(self.remotes@[j] == q);
                } else {
                    assert(j != i as int);
                    assert(self.remotes@[j - 1] == q);
                }
            }
            assert forall|a: int, b: int|
                0 <= a < b < self.remotes@.len() implies self.remotes@[a] != self.remotes@[
                b
            ] by {
                if a < i as int {
                    assert(self.remotes@[a] == pre[a]);
                } else {
                    assert(self.remotes@[a] == pre[a + 1]);
                }
                if b < i as int {
                    assert(self.remotes@[b] == pre[b]);
                } else {
                    assert(self.remotes@[b] == pre[b + 1]);
                }
            }
        } else {
            assert forall|q: PeerId| #[trigger]
                self.remotes@.contains(q) implies q != *peer_id by {
                let j = choose|j: int| 0 <= j < self.remotes@.len() && self.remotes@[j] == q;
            }
        }
    }

    /// Add a remote stub pointing at `peer_id`, if none exists yet. A stub
    /// at this peer itself is never kept.
    pub fn add_remote(&mut self, peer_id: PeerId)
        requires
            old(self).wf(),
        ensures
            final(self).wf(),
            forall|q: PeerId|
                #[trigger] final(self).remotes@.contains(q) <==> (old(self).remotes@.contains(q)
                    || (q == peer_id && peer_id != old(self).this_peer_id)),
            final(self).replicas@ == old(self).replicas@,
            final(self).local == old(self).local,
            final(self).shard_id == old(self).shard_id,
            final(self).this_peer_id == old(self).this_peer_id,
    {
        if peer_id == self.this_peer_id {
            return ;
        }
        let n = self.remotes.len();
        let mut i: usize = 0;
        while i < n && self.remotes[i] != peer_id
            invariant
                0 <= i <= n,
                n == self.remotes@.len(),
                forall|j: int| 0 <= j < i ==> self.remotes@[j] != peer_id,
            decreases n - i,
        {
            i = i + 1;
        }
        if i < n {
            assert(self.remotes@.contains(peer_id)) by {
                assert(self.remotes@[i as int] == peer_id);
            }
            return ;
        }
        let ghost pre = self.remotes@;
        self.remotes.push(peer_id);
        assert forall|q: PeerId| #[trigger]
            self.remotes@.contains(q) implies (pre.contains(q) || q == peer_id) by {
            let j = choose|j: int| 0 <= j < self.remotes@.len() && self.remotes@[j] == q;
            if j < pre.len() {
                assert(pre[j] == q);
            }
        }
        assert forall|a: int, b: int|
            0 <= a < b < self.remotes@.len() implies self.remotes@[a] != self.remotes@[b] by {
            if b == self.remotes@.len() - 1 {
                assert(pre.contains(pre[a]));
            }
        }
    }

    /// Attach a freshly built local replica, optionally setting this peer's
    /// replica state at the same time.
    pub fn set_local(&mut self, state: Option<ReplicaState>) -> (r: Result<(), CollectionError>)
        requires
            old(self).wf(),
        ensures
            final(self).wf(),
            r is Ok,
            final(self).local == LocalReplica::Local,
            match state {
                Some(s) => final(self).spec_peer_state(old(self).this_peer_id) == Some(s)
                    && forall|q: PeerId|
                    q != old(self).this_peer_id ==> #[trigger] final(self).spec_peer_state(q)
                        == old(self).spec_peer_state(q),
                None => final(self).replicas@ == old(self).replicas@,
            },
            forall|q: PeerId|
                #[trigger] final(self).remotes@.contains(q) <==> old(self).remotes@.contains(q),
            final(self).shard_id == old(self).shard_id,
            final(self).this_peer_id == old(self).this_peer_id,
    {
        self.local = LocalReplica::Local;
        match state {
            Some(s) => {
                let this_peer = self.this_peer_id;
                self.ensure_replica_with_state(&this_peer, s);
            },
            None => {},
        }
        Ok(())
    }

    /// Unwrap an outgoing-transfer proxy back to a plain local replica.
    pub fn un_proxify_local(&mut self) -> (r: Result<(), CollectionError>)
        requires
            old(self).wf(),
        ensures
            final(self).wf(),
            r is Ok <==> !(old(self).local is Absent),
            r is Err ==> *final(self) == *old(self) && r->Err_0 is ServiceError,
            r is Ok ==> *final(self) == (ReplicaSet {
                local: if old(self).local is ForwardProxy {
                    LocalReplica::Local
                } else {
                    old(self).local
                },
                ..*old(self)
            }),
    {
        match self.local {
            LocalReplica::Absent => Err(
                CollectionError::service_error(
                    String::from_str("no local replica to unwrap on this peer"),
                ),
            ),
            LocalReplica::ForwardProxy { .. } => {
                self.local = LocalReplica::Local;
                Ok(())
            },
            _ => Ok(()),
        }
    }

    /// Wrap the plain local replica in a forward proxy towards `to`.
    pub fn proxify_local(&mut self, to: PeerId) -> (r: Result<(), CollectionError>)
        requires
            old(self).wf(),
        ensures
            final(self).wf(),
            r is Ok <==> old(self).local is Local || old(self).local is ForwardProxy,
            r is Err ==> *final(self) == *old(self) && r->Err_0 is ServiceError,
            r is Ok ==> *final(self) == (ReplicaSet {
                local: LocalReplica::ForwardProxy { to },
                ..*old(self)
            }),
    {
        match self.local {
            LocalReplica::Local | LocalReplica::ForwardProxy { .. } => {
                self.local = LocalReplica::ForwardProxy { to };
                Ok(())
            },
            _ => Err(
                CollectionError::service_error(
                    String::from_str("no plain local replica to wrap on this peer"),
                ),
            ),
        }
    }

    /// Unwrap the forward proxy if one is in place; anything else is left
    /// alone. Reports whether the slot changed.
    pub fn revert_proxy_to_local(&mut self) -> (r: bool)
        requires
            old(self).wf(),
        ensures
            final(self).wf(),
            r == old(self).local is ForwardProxy,
            *final(self) == (ReplicaSet {
                local: if old(self).local is ForwardProxy {
                    LocalReplica::Local
                } else {
                    old(self).local
                },
                ..*old(self)
            }),
    {
        match self.local {
            LocalReplica::ForwardProxy { .. } => {
                self.local = LocalReplica::Local;
                true
            },
            _ => false,
        }
    }

    /// Create an empty local replica, ready to receive an incoming transfer.
    pub fn init_empty_local_shard(&mut self) -> (r: Result<(), CollectionError>)
        requires
            old(self).wf(),
        ensures
            final(self).wf(),
            r is Ok,
            *final(self) == (ReplicaSet { local: LocalReplica::Local, ..*old(self) }),
    {
        self.local = LocalReplica::Local;
        Ok(())
    }

    /// Sender-side completion of a transfer towards `to`: unwrap the
    /// forward proxy back to a plain local replica, or — for a sync
    /// transfer — drop the local replica and route through a remote stub at
    /// `to` instead. Without a proxy in place nothing changes.
    pub fn handle_transferred_proxy(&mut self, to: PeerId, sync: bool) -> (r: bool)
        requires
            old(self).wf(),
        ensures
            final(self).wf(),
            r == old(self).local is ForwardProxy,
            final(self).local == (if old(self).local is ForwardProxy {
                if sync {
                    LocalReplica::Absent
                } else {
                    LocalReplica::Local
                }
            } else {
                old(self).local
            }),
            final(self).replicas@ == old(self).replicas@,
            forall|q: PeerId|
                #[trigger] final(self).remotes@.contains(q) <==> (old(self).remotes@.contains(q)
                    || (old(self).local is ForwardProxy && sync && q == to && to != old(
                    self,
                ).this_peer_id)),
            final(self).shard_id == old(self).shard_id,
            final(self).this_peer_id == old(self).this_peer_id,
    {
        match self.local {
            LocalReplica::ForwardProxy { .. } => {
                if sync {
                    self.local = LocalReplica::Absent;
                    self.add_remote(to);
                } else {
                    self.local = LocalReplica::Local;
                }
                true
            },
            _ => false,
        }
    }

    /// Receiver-side completion of a transfer: promote this peer's replica
    /// from Partial to Active. Anything else is left alone.
    pub fn finalize_partial(&mut self) -> (r: bool)
        requires
            old(self).wf(),
        ensures
            final(self).wf(),
            r == (old(self).spec_peer_state(old(self).this_peer_id) == Some(
                ReplicaState::Partial,
            )),
            r ==> final(self).spec_peer_state(old(self).this_peer_id) == Some(
                ReplicaState::Active,
            ) && forall|q: PeerId|
                q != old(self).this_peer_id ==> #[trigger] final(self).spec_peer_state(q) == old(
                    self,
                ).spec_peer_state(q),
            !r ==> final(self).replicas@ == old(self).replicas@,
            final(self).local == old(self).local,
            final(self).remotes@ == old(self).remotes@,
            final(self).shard_id == old(self).shard_id,
            final(self).this_peer_id == old(self).this_peer_id,
    {
        let this_peer = self.this_peer_id;
        let partial = match self.peer_state(&this_peer) {
            Some(ReplicaState::Partial) => true,
            _ => false,
        };
        if partial {
            let res = self.set_replica_state(&this_peer, ReplicaState::Active);
            proof {
                assert(res is Ok);
            }
            true
        } else {
            false
        }
    }

    /// Third-party completion of a sync transfer: the sender stops serving,
    /// so retarget the remote stub from `from` to `to`. A non-sync transfer
    /// leaves both copies serving and changes nothing, and a peer never
    /// keeps a stub pointing at itself.
    pub fn change_remote_route(&mut self, from: PeerId, to: PeerId, sync: bool) -> (r: bool)
        requires
            old(self).wf(),
        ensures
            final(self).wf(),
            r == (sync && to != old(self).this_peer_id),
            forall|q: PeerId|
                #[trigger] final(self).remotes@.contains(q) <==> (if sync && to != old(
                    self,
                ).this_peer_id {
                    (old(self).remotes@.contains(q) && q != from) || q == to
                } else {
                    old(self).remotes@.contains(q)
                }),
            final(self).replicas@ == old(self).replicas@,
            final(self).local == old(self).local,
            final(self).shard_id == old(self).shard_id,
            final(self).this_peer_id == old(self).this_peer_id,
    {
        if sync && to != self.this_peer_id {
            self.remove_remote(&from);
            self.add_remote(to);
            true
        } else {
            false
        }
    }

    /// True when the local slot holds a usable replica (possibly a dummy),
    /// not a proxy and not nothing.
    pub fn is_local(&self) -> (r: bool)
        ensures
            r == self.spec_is_local(),
    {
        match self.local {
            LocalReplica::Local | LocalReplica::Dummy => true,
            _ => false,
        }
    }

    /// True when any local replica slot is occupied.
    pub fn has_local_shard(&self) -> (r: bool)
        ensures
            r == self.spec_has_local_shard(),
    {
        !(matches!(self.local, LocalReplica::Absent))
    }

    /// True when the local replica is a placeholder awaiting data.
    pub fn is_dummy(&self) -> (r: bool)
        ensures
            r == self.spec_is_dummy(),
    {
        matches!(self.local, LocalReplica::Dummy)
    }

    /// Remote peers whose replica is Active, in replica-list order.
    pub fn active_remote_shards(&self) -> (r: Vec<PeerId>)
        ensures
            r@ == spec_active_remotes(self.replicas@, self.this_peer_id),
    {
        let mut r: Vec<PeerId> = Vec::new();
        let n = self.replicas.len();
        let mut i: usize = 0;
        while i < n
            invariant
                0 <= i <= n,
                n == self.replicas@.len(),
                r@ == spec_active_remotes(self.replicas@.take(i as int), self.this_peer_id),
            decreases n - i,
        {
            let (p, st) = self.replicas[i];
            assert(self.replicas@.take(i as int + 1).drop_last() =~= self.replicas@.take(
                i as int,
            ));
            assert(self.replicas@.take(i as int + 1).last() == self.replicas@[i as int]);
            if matches!(st, ReplicaState::Active) && p != self.this_peer_id {
                r.push(p);
            }
            i = i + 1;
        }
        assert(self.replicas@.take(n as int) =~= self.replicas@);
        r
    }

    /// First peer whose replica is Active, if any.
    pub fn first_active(&self) -> (r: Option<PeerId>)
        ensures
            r == spec_first_active(self.replicas@),
    {
        let n = self.replicas.len();
        let mut i: usize = 0;
        while i < n && !(matches!(self.replicas[i].1, ReplicaState::Active))
            invariant
                0 <= i <= n,
                n == self.replicas@.len(),
                forall|j: int| 0 <= j < i ==> self.replicas@[j].1 != ReplicaState::Active,
            decreases n - i,
        {
            i = i + 1;
        }
        proof {
            lemma_first_active_at(self.replicas@, i as int);
        }
        if i < n {
            Some(self.replicas[i].0)
        } else {
            None
        }
    }

    /// The replicas a read may be served from, in preference order: the
    /// local replica first when it is usable and Active — it avoids the
    /// network — then every Active remote peer, to fall back to on error.
    pub fn read_candidates(&self) -> (r: Vec<PeerId>)
        ensures
            r@ == (if self.spec_is_local() && self.spec_peer_state(self.this_peer_id) == Some(
                ReplicaState::Active,
            ) {
                seq![self.this_peer_id] + spec_active_remotes(self.replicas@, self.this_peer_id)
            } else {
                spec_active_remotes(self.replicas@, self.this_peer_id)
            }),
    {
        let this_peer = self.this_peer_id;
        let local_active = self.is_local() && (matches!(
            self.peer_state(&this_peer),
            Some(ReplicaState::Active),
        ));
        let remotes = self.active_remote_shards();
        if local_active {
            let mut r: Vec<PeerId> = Vec::new();
            r.push(this_peer);
            let n = remotes.len();
            let mut i: usize = 0;
            while i < n
                invariant
                    0 <= i <= n,
                    n == remotes@.len(),
                    r@ == seq![this_peer] + remotes@.take(i as int),
                decreases n - i,
            {
                r.push(remotes[i]);
                assert(r@ =~= seq![this_peer] + remotes@.take(i as int + 1));
                i = i + 1;
            }
            assert(remotes@.take(n as int) =~= remotes@);
            r
        } else {
            remotes
        }
    }

    /// Is `p` Active while no other peer is?
    pub fn is_last_active(&self, p: &PeerId) -> (r: bool)
        requires
            self.wf(),
        ensures
            r == self.spec_is_last_active(*p),
    {
        let own = self.peer_state(p);
        if !(matches!(own, Some(ReplicaState::Active))) {
            return false;
        }
        let n = self.replicas.len();
        let mut i: usize = 0;
        while i < n && !(self.replicas[i].0 != *p && matches!(
            self.replicas[i].1,
            ReplicaState::Active,
        ))
            invariant
                0 <= i <= n,
                n == self.replicas@.len(),
                forall|j: int|
                    0 <= j < i ==> (self.replicas@[j].0 == *p || self.replicas@[j].1
                        != ReplicaState::Active),
            decreases n - i,
        {
            i = i + 1;
        }
        if i < n {
            proof {
                lemma_find_peer_at_index(self.replicas@, i as int);
            }
            assert(self.spec_peer_state(self.replicas@[i as int].0) == Some(
                ReplicaState::Active,
            ));
            false
        } else {
            assert forall|q: PeerId|
                q != *p implies #[trigger] self.spec_peer_state(q) != Some(
                ReplicaState::Active,
            ) by {
                if self.spec_peer_state(q) == Some(ReplicaState::Active) {
                    lemma_find_peer_exists(self.replicas@, q);
                }
            }
            true
        }
    }

    /// Are all replicas of this shard Active?
    pub fn all_active(&self) -> (r: bool)
        requires
            self.wf(),
        ensures
            r == forall|i: int|
                0 <= i < self.replicas@.len() ==> self.replicas@[i].1 == ReplicaState::Active,
    {
        let n = self.replicas.len();
        let mut i: usize = 0;
        while i < n && matches!(self.replicas[i].1, ReplicaState::Active)
            invariant
                0 <= i <= n,
                n == self.replicas@.len(),
                forall|j: int| 0 <= j < i ==> self.replicas@[j].1 == ReplicaState::Active,
            decreases n - i,
        {
            i = i + 1;
        }
        i == n
    }
}

} // verus!
