//! The shard holder: every replica set of the collection, the hash ring that
//! routes points to them, and the registry of pending shard transfers.

use vstd::prelude::*;

use crate::collection::shard_not_found_error;
use crate::hash_ring::HashRing;
use crate::replica_set::ReplicaSet;
use crate::transfer::{ShardTransfer, ShardTransferKey};
use crate::types::{CollectionError, PeerId, PointId, ShardId};
use crate::update::UpdateOperation;

verus! {

broadcast use vstd::seq_lib::group_seq_properties;

/// `pts` holds exactly the points of `points` that the ring maps to `sid`.
pub open spec fn spec_is_group_of(
    ring: HashRing,
    points: Seq<PointId>,
    sid: ShardId,
    pts: Seq<PointId>,
) -> bool {
    forall|q: PointId|
        #[trigger] pts.contains(q) <==> (points.contains(q) && ring.spec_shard_of(q) == sid)
}

/// No two registered transfers share a key.
pub open spec fn unique_transfer_keys(s: Seq<ShardTransfer>) -> bool {
    forall|a: int, b: int| 0 <= a < b < s.len() ==> s[a].spec_key() != s[b].spec_key()
}

/// Is a transfer with this key registered?
pub open spec fn spec_has_transfer_key(s: Seq<ShardTransfer>, k: ShardTransferKey) -> bool {
    exists|i: int| 0 <= i < s.len() && s[i].spec_key() == k
}

/// Is a sync transfer with this key registered? With unique keys this is
/// the `sync` flag of the one registered transfer of the key.
pub open spec fn spec_registered_sync(s: Seq<ShardTransfer>, k: ShardTransferKey) -> bool {
    exists|i: int| 0 <= i < s.len() && s[i].spec_key() == k && s[i].sync
}

/// Index of the replica set of shard `id`; meaningful when the holder
/// contains the shard, as shard ids are unique.
pub open spec fn spec_shard_index(s: Seq<ReplicaSet>, id: ShardId) -> int {
    choose|i: int| 0 <= i < s.len() && s[i].shard_id == id
}

/// Registered transfers leaving `peer`, in registry order.
pub open spec fn spec_outgoing_transfers(s: Seq<ShardTransfer>, peer: PeerId) -> Seq<
    ShardTransfer,
>
    decreases s.len(),
{
    if s.len() == 0 {
        Seq::empty()
    } else {
        let pre = spec_outgoing_transfers(s.drop_last(), peer);
        if s.last().from == peer {
            pre.push(s.last())
        } else {
            pre
        }
    }
}

/// Registered transfers of `shard` that have `peer` on either end, in
/// registry order.
pub open spec fn spec_related_transfers(
    s: Seq<ShardTransfer>,
    shard: ShardId,
    peer: PeerId,
) -> Seq<ShardTransfer>
    decreases s.len(),
{
    if s.len() == 0 {
        Seq::empty()
    } else {
        let pre = spec_related_transfers(s.drop_last(), shard, peer);
        if s.last().shard_id == shard && (s.last().from == peer || s.last().to == peer) {
            pre.push(s.last())
        } else {
            pre
        }
    }
}

/// What the related-transfer filter keeps: membership in the filtered list
/// is membership in the registry plus the relation itself.
pub proof fn lemma_related_contains(s: Seq<ShardTransfer>, shard: ShardId, peer: PeerId)
    ensures
        forall|u: ShardTransfer|
            #[trigger] spec_related_transfers(s, shard, peer).contains(u) <==> (s.contains(u)
                && u.shard_id == shard && (u.from == peer || u.to == peer)),
    decreases s.len(),
{
    if s.len() == 0 {
    } else {
        lemma_related_contains(s.drop_last(), shard, peer);
        assert forall|u: ShardTransfer|
            #[trigger] spec_related_transfers(s, shard, peer).contains(u) <==> (s.contains(u)
                && u.shard_id == shard && (u.from == peer || u.to == peer)) by {
            let pre = spec_related_transfers(s.drop_last(), shard, peer);
            if s.last().shard_id == shard && (s.last().from == peer || s.last().to == peer) {
                assert(spec_related_transfers(s, shard, peer) == pre.push(s.last()));
                if spec_related_transfers(s, shard, peer).contains(u) {
                    if u != s.last() && !pre.contains(u) {
                        let j = choose|j: int|
                            0 <= j < pre.push(s.last()).len() && pre.push(s.last())[j] == u;
                        if j < pre.len() {
                            assert(pre[j] == u);
                        }
                    }
                    if pre.contains(u) {
                        assert(s.drop_last().contains(u));
                        let j = choose|j: int|
                            0 <= j < s.drop_last().len() && s.drop_last()[j] == u;
                        assert(s[j] == u);
                    } else {
                        assert(u == s.last());
                        assert(s.contains(u)) by {
                            assert(s[s.len() - 1] == u);
                        }
                    }
                }
                if s.contains(u) && u.shard_id == shard && (u.from == peer || u.to == peer) {
                    let j = choose|j: int| 0 <= j < s.len() && s[j] == u;
                    if j < s.len() - 1 {
                        assert(s.drop_last()[j] == u);
                        assert(pre.contains(u));
                        let j2 = choose|j2: int| 0 <= j2 < pre.len() && pre[j2] == u;
                        assert(pre.push(s.last())[j2] == u);
                    } else {
                        assert(u == s.last());
                        assert(pre.push(s.last())[pre.len() as int] == u);
                    }
                }
            } else {
                assert(spec_related_transfers(s, shard, peer) == pre);
                if pre.contains(u) {
                    assert(s.drop_last().contains(u));
                    let j = choose|j: int|
                        0 <= j < s.drop_last().len() && s.drop_last()[j] == u;
                    assert(s[j] == u);
                }
                if s.contains(u) && u.shard_id == shard && (u.from == peer || u.to == peer) {
                    let j = choose|j: int| 0 <= j < s.len() && s[j] == u;
                    if j == s.len() - 1 {
                        assert(u == s.last());
                        assert(false);
                    } else {
                        assert(s.drop_last()[j] == u);
                    }
                }
            }
        }
    }
}

/// With unique keys in the registry, the related-transfer list has
/// pairwise distinct keys too.
pub proof fn lemma_related_unique_keys(s: Seq<ShardTransfer>, shard: ShardId, peer: PeerId)
    requires
        unique_transfer_keys(s),
    ensures
        forall|a: int, b: int|
            0 <= a < b < spec_related_transfers(s, shard, peer).len()
                ==> spec_related_transfers(s, shard, peer)[a].spec_key()
                != spec_related_transfers(s, shard, peer)[b].spec_key(),
    decreases s.len(),
{
    if s.len() == 0 {
    } else {
        assert forall|a: int, b: int|
            0 <= a < b < s.drop_last().len() implies s.drop_last()[a].spec_key()
            != s.drop_last()[b].spec_key() by {
            assert(s.drop_last()[a] == s[a]);
            assert(s.drop_last()[b] == s[b]);
        }
        lemma_related_unique_keys(s.drop_last(), shard, peer);
        lemma_related_contains(s.drop_last(), shard, peer);
        let pre = spec_related_transfers(s.drop_last(), shard, peer);
        if s.last().shard_id == shard && (s.last().from == peer || s.last().to == peer) {
            assert forall|a: int, b: int|
                0 <= a < b < pre.push(s.last()).len() implies pre.push(s.last())[
                a
            ].spec_key() != pre.push(s.last())[b].spec_key() by {
                if b == pre.len() {
                    assert(pre.push(s.last())[a] == pre[a]);
                    assert(pre.contains(pre[a]));
                    assert(s.drop_last().contains(pre[a]));
                    let i = choose|i: int|
                        0 <= i < s.drop_last().len() && s.drop_last()[i] == pre[a];
                    assert(s[i] == pre[a]);
                    assert(s[i].spec_key() != s[s.len() - 1].spec_key());
                }
            }
        }
    }
}

/// Owns all replica sets of the collection and the pending-transfer
/// registry.
pub struct ShardHolder {
    pub shards: Vec<ReplicaSet>,
    pub shard_transfers: Vec<ShardTransfer>,
    pub ring: HashRing,
}

impl ShardHolder {
    pub open spec fn wf(self) -> bool {
        &&& forall|i: int| 0 <= i < self.shards@.len() ==> (#[trigger] self.shards@[i]).wf()
        &&& forall|i: int, j: int|
            0 <= i < j < self.shards@.len() ==> self.shards@[i].shard_id != self.shards@[
                j
            ].shard_id
        &&& forall|i: int, j: int|
            0 <= i < self.shards@.len() && 0 <= j < self.shards@.len()
                ==> self.shards@[i].this_peer_id == self.shards@[j].this_peer_id
        &&& self.ring.wf()
        &&& forall|i: int|
            0 <= i < self.shards@.len() ==> self.ring.contains_shard(
                (#[trigger] self.shards@[i]).shard_id,
            )
        &&& forall|s: ShardId|
            #[trigger] self.ring.contains_shard(s) ==> exists|i: int|
                0 <= i < self.shards@.len() && self.shards@[i].shard_id == s
        &&& unique_transfer_keys(self.shard_transfers@)
    }

    pub open spec fn spec_contains_shard(self, id: ShardId) -> bool {
        exists|i: int| 0 <= i < self.shards@.len() && self.shards@[i].shard_id == id
    }

    /// An empty holder with an empty fair hash ring.
    pub fn new() -> (r: ShardHolder)
        ensures
            r.wf(),
            r.shards@.len() == 0,
            r.shard_transfers@.len() == 0,
    {
        ShardHolder { shards: Vec::new(), shard_transfers: Vec::new(), ring: HashRing::fair() }
    }

    /// How many shards the collection has.
    pub fn len(&self) -> (r: usize)
        ensures
            r == self.shards@.len(),
    {
        self.shards.len()
    }

    /// Index of the replica set of shard `id`.
    pub fn find_shard_index(&self, id: ShardId) -> (r: Option<usize>)
        ensures
            match r {
                Some(i) => 0 <= i < self.shards@.len() && self.shards@[i as int].shard_id
                    == id,
                None => !self.spec_contains_shard(id),
            },
    {
        let n = self.shards.len();
        let mut i: usize = 0;
        while i < n && self.shards[i].shard_id != id
            invariant
                0 <= i <= n,
                n == self.shards@.len(),
                forall|j: int| 0 <= j < i ==> self.shards@[j].shard_id != id,
            decreases n - i,
        {
            i = i + 1;
        }
        if i < n {
            Some(i)
        } else {
            assert forall|j: int|
                0 <= j < self.shards@.len() implies self.shards@[j].shard_id != id by {}
            None
        }
    }

    pub fn contains_shard(&self, id: ShardId) -> (r: bool)
        ensures
            r == self.spec_contains_shard(id),
    {
        match self.find_shard_index(id) {
            Some(_) => true,
            None => false,
        }
    }

    /// Add the replica set of a new shard; its virtual nodes join the ring.
    pub fn add_shard(&mut self, replica_set: ReplicaSet) -> (r: Result<(), CollectionError>)
        requires
            old(self).wf(),
            replica_set.wf(),
            forall|i: int|
                0 <= i < old(self).shards@.len() ==> (#[trigger] old(
                    self,
                ).shards@[i]).this_peer_id == replica_set.this_peer_id,
        ensures
            final(self).wf(),
            r is Ok <==> !old(self).spec_contains_shard(replica_set.shard_id),
            r is Err ==> *final(self) == *old(self) && r->Err_0 is ServiceError,
            r is Ok ==> final(self).shards@ == old(self).shards@.push(replica_set),
            r is Ok ==> final(self).shard_transfers@ == old(self).shard_transfers@,
    {
        if self.contains_shard(replica_set.shard_id) {
            return Err(
                CollectionError::service_error(
                    String::from_str("shard is already part of this collection"),
                ),
            );
        }
        let id = replica_set.shard_id;
        assert(!self.ring.contains_shard(id)) by {
            if self.ring.contains_shard(id) {
            }
        }
        self.ring.add(id);
        let ghost pre = self.shards@;
        self.shards.push(replica_set);
        assert forall|i: int, j: int|
            0 <= i < j < self.shards@.len() implies self.shards@[i].shard_id != self.shards@[
            j
        ].shard_id by {
            if j == self.shards@.len() - 1 {
                assert(self.shards@[i] == pre[i]);
            }
        }
        assert forall|s: ShardId| #[trigger]
            self.ring.contains_shard(s) implies exists|i: int|
            0 <= i < self.shards@.len() && self.shards@[i].shard_id == s by {
            if s == id {
                assert(self.shards@[self.shards@.len() - 1].shard_id == s);
            } else {
                let i = choose|i: int| 0 <= i < pre.len() && pre[i].shard_id == s;
                assert(self.shards@[i].shard_id == s);
            }
        }
        Ok(())
    }

    /// The shards a request addresses: the one selected shard, or all of
    /// them when no selection is given.
    pub fn target_shard(&self, shard_selection: Option<ShardId>) -> (r: Result<
        Vec<ShardId>,
        CollectionError,
    >)
        ensures
            match shard_selection {
                Some(id) => if self.spec_contains_shard(id) {
                    r is Ok && r->Ok_0@ =~= seq![id]
                } else {
                    r is Err && r->Err_0 is NotFound
                },
                None => r is Ok && r->Ok_0@.len() == self.shards@.len() && forall|j: int|
                    0 <= j < self.shards@.len() ==> r->Ok_0@[j] == self.shards@[j].shard_id,
            },
    {
        match shard_selection {
            Some(id) => {
                if self.contains_shard(id) {
                    let mut v: Vec<ShardId> = Vec::new();
                    v.push(id);
                    Ok(v)
                } else {
                    Err(shard_not_found_error(id))
                }
            },
            None => {
                let mut v: Vec<ShardId> = Vec::new();
                let n = self.shards.len();
                let mut i: usize = 0;
                while i < n
                    invariant
                        0 <= i <= n,
                        n == self.shards@.len(),
                        v@.len() == i,
                        forall|j: int| 0 <= j < i ==> v@[j] == self.shards@[j].shard_id,
                    decreases n - i,
                {
                    v.push(self.shards[i].shard_id);
                    i = i + 1;
                }
                Ok(v)
            },
        }
    }

    /// Register a starting transfer. A transfer whose key is already
    /// registered changes nothing and reports `false`.
    pub fn register_start_shard_transfer(&mut self, transfer: ShardTransfer) -> (r: Result<
        bool,
        CollectionError,
    >)
        requires
            old(self).wf(),
        ensures
            final(self).wf(),
            r is Ok,
            r->Ok_0 == !spec_has_transfer_key(
                old(self).shard_transfers@,
                transfer.spec_key(),
            ),
            r->Ok_0 ==> final(self).shard_transfers@ == old(self).shard_transfers@.push(
                transfer,
            ),
            !r->Ok_0 ==> *final(self) == *old(self),
            final(self).shards@ == old(self).shards@,
    {
        let key = transfer.key();
        let n = self.shard_transfers.len();
        let mut i: usize = 0;
        while i < n && !(self.shard_transfers[i].shard_id == key.shard_id
            && self.shard_transfers[i].from == key.from && self.shard_transfers[i].to
            == key.to)
            invariant
                0 <= i <= n,
                n == self.shard_transfers@.len(),
                forall|j: int| 0 <= j < i ==> self.shard_transfers@[j].spec_key() != key,
            decreases n - i,
        {
            i = i + 1;
        }
        if i < n {
            assert(self.shard_transfers@[i as int].spec_key() == key);
            return Ok(false);
        }
        let ghost pre = self.shard_transfers@;
        self.shard_transfers.push(transfer);
        assert forall|a: int, b: int|
            0 <= a < b < self.shard_transfers@.len() implies self.shard_transfers@[
            a
        ].spec_key() != self.shard_transfers@[b].spec_key() by {
            if b == self.shard_transfers@.len() - 1 {
                assert(self.shard_transfers@[a] == pre[a]);
            }
        }
        Ok(true)
    }

    /// Deregister a transfer by key. Reports whether the registry changed;
    /// deregistering an unknown key changes nothing.
    pub fn register_finish_transfer(&mut self, key: &ShardTransferKey) -> (r: Result<
        bool,
        CollectionError,
    >)
        requires
            old(self).wf(),
        ensures
            final(self).wf(),
            r is Ok,
            r->Ok_0 == spec_has_transfer_key(old(self).shard_transfers@, *key),
            !spec_has_transfer_key(final(self).shard_transfers@, *key),
            forall|u: ShardTransfer|
                #[trigger] final(self).shard_transfers@.contains(u) <==> (old(
                    self,
                ).shard_transfers@.contains(u) && u.spec_key() != *key),
            final(self).shards@ == old(self).shards@,
    {
        let n = self.shard_transfers.len();
        let mut i: usize = 0;
        while i < n && !(self.shard_transfers[i].shard_id == key.shard_id
            && self.shard_transfers[i].from == key.from && self.shard_transfers[i].to
            == key.to)
            invariant
                0 <= i <= n,
                n == self.shard_transfers@.len(),
                forall|j: int| 0 <= j < i ==> self.shard_transfers@[j].spec_key() != *key,
            decreases n - i,
        {
            i = i + 1;
        }
        if i == n {
            assert(!spec_has_transfer_key(self.shard_transfers@, *key));
            assert forall|u: ShardTransfer| #[trigger]
                self.shard_transfers@.contains(u) implies (self.shard_transfers@.contains(u)
                && u.spec_key() != *key) by {
                let j = choose|j: int|
                    0 <= j < self.shard_transfers@.len() && self.shard_transfers@[j] == u;
            }
            return Ok(false);
        }
        assert(self.shard_transfers@[i as int].spec_key() == *key);
        let ghost pre = self.shard_transfers@;
        self.shard_transfers.remove(i);
        assert forall|u: ShardTransfer| #[trigger]
            self.shard_transfers@.contains(u) implies (pre.contains(u) && u.spec_key()
            != *key) by {
            let j = choose|j: int|
                0 <= j < self.shard_transfers@.len() && self.shard_transfers@[j] == u;
            if j < i as int {
                assert(pre[j] == u);
                if u.spec_key() == *key {
                    assert(pre[j].spec_key() != pre[i as int].spec_key());
                }
            } else {
                assert(pre[j + 1] == u);
                if u.spec_key() == *key {
                    assert(pre[i as int].spec_key() != pre[j + 1].spec_key());
                }
            }
        }
        assert forall|u: ShardTransfer| pre.contains(u) && u.spec_key() != *key implies
            self.shard_transfers@.contains(u) by {
            let j = choose|j: int| 0 <= j < pre.len() && pre[j] == u;
            if j < i as int {
                assert(self.shard_transfers@[j] == u);
            } else {
                assert(j != i as int);
                assert(self.shard_transfers@[j - 1] == u);
            }
        }
        assert forall|a: int, b: int|
            0 <= a < b < self.shard_transfers@.len() implies self.shard_transfers@[
            a
        ].spec_key() != self.shard_transfers@[b].spec_key() by {
            if a < i as int {
                assert(self.shard_transfers@[a] == pre[a]);
            } else {
                assert(self.shard_transfers@[a] == pre[a + 1]);
            }
            if b < i as int {
                assert(self.shard_transfers@[b] == pre[b]);
            } else {
                assert(self.shard_transfers@[b] == pre[b + 1]);
            }
        }
        assert(!spec_has_transfer_key(self.shard_transfers@, *key)) by {
            if spec_has_transfer_key(self.shard_transfers@, *key) {
                let j = choose|j: int|
                    0 <= j < self.shard_transfers@.len() && self.shard_transfers@[
                        j
                    ].spec_key() == *key;
                assert(self.shard_transfers@.contains(self.shard_transfers@[j]));
            }
        }
        Ok(true)
    }

    /// The registered transfer with this key, if any.
    pub fn get_transfer(&self, key: &ShardTransferKey) -> (r: Option<ShardTransfer>)
        ensures
            match r {
                Some(t) => self.shard_transfers@.contains(t) && t.spec_key() == *key,
                None => !spec_has_transfer_key(self.shard_transfers@, *key),
            },
    {
        let n = self.shard_transfers.len();
        let mut i: usize = 0;
        while i < n && !(self.shard_transfers[i].shard_id == key.shard_id
            && self.shard_transfers[i].from == key.from && self.shard_transfers[i].to
            == key.to)
            invariant
                0 <= i <= n,
                n == self.shard_transfers@.len(),
                forall|j: int| 0 <= j < i ==> self.shard_transfers@[j].spec_key() != *key,
            decreases n - i,
        {
            i = i + 1;
        }
        if i < n {
            assert(self.shard_transfers@.contains(self.shard_transfers@[i as int]));
            Some(self.shard_transfers[i])
        } else {
            None
        }
    }

    /// All registered transfers leaving `peer`, in registry order.
    pub fn get_outgoing_transfers(&self, peer: &PeerId) -> (r: Vec<ShardTransfer>)
        ensures
            r@ == spec_outgoing_transfers(self.shard_transfers@, *peer),
    {
        let mut r: Vec<ShardTransfer> = Vec::new();
        let n = self.shard_transfers.len();
        let mut i: usize = 0;
        while i < n
            invariant
                0 <= i <= n,
                n == self.shard_transfers@.len(),
                r@ == spec_outgoing_transfers(self.shard_transfers@.take(i as int), *peer),
            decreases n - i,
        {
            assert(self.shard_transfers@.take(i as int + 1).drop_last()
                =~= self.shard_transfers@.take(i as int));
            assert(self.shard_transfers@.take(i as int + 1).last() == self.shard_transfers@[
                i as int
            ]);
            if self.shard_transfers[i].from == *peer {
                r.push(self.shard_transfers[i]);
            }
            i = i + 1;
        }
        assert(self.shard_transfers@.take(n as int) =~= self.shard_transfers@);
        r
    }

    /// Registered transfers of `shard` with `peer` on either end.
    pub fn get_related_transfers(&self, shard_id: ShardId, peer: &PeerId) -> (r: Vec<
        ShardTransfer,
    >)
        ensures
            r@ == spec_related_transfers(self.shard_transfers@, shard_id, *peer),
    {
        let mut r: Vec<ShardTransfer> = Vec::new();
        let n = self.shard_transfers.len();
        let mut i: usize = 0;
        while i < n
            invariant
                0 <= i <= n,
                n == self.shard_transfers@.len(),
                r@ == spec_related_transfers(
                    self.shard_transfers@.take(i as int),
                    shard_id,
                    *peer,
                ),
            decreases n - i,
        {
            assert(self.shard_transfers@.take(i as int + 1).drop_last()
                =~= self.shard_transfers@.take(i as int));
            assert(self.shard_transfers@.take(i as int + 1).last() == self.shard_transfers@[
                i as int
            ]);
            let t = self.shard_transfers[i];
            if t.shard_id == shard_id && (t.from == *peer || t.to == *peer) {
                r.push(t);
            }
            i = i + 1;
        }
        assert(self.shard_transfers@.take(n as int) =~= self.shard_transfers@);
        r
    }

    /// Is a transfer of `shard_id` towards `to` registered? This is the
    /// predicate the receiving peer waits on after preparing an empty local
    /// replica.
    pub fn has_transfer_to(&self, shard_id: ShardId, to: PeerId) -> (r: bool)
        ensures
            r == exists|i: int|
                0 <= i < self.shard_transfers@.len() && (#[trigger] self.shard_transfers@[
                    i
                ]).shard_id == shard_id && self.shard_transfers@[i].to == to,
    {
        let n = self.shard_transfers.len();
        let mut i: usize = 0;
        while i < n && !(self.shard_transfers[i].shard_id == shard_id
            && self.shard_transfers[i].to == to)
            invariant
                0 <= i <= n,
                n == self.shard_transfers@.len(),
                forall|j: int|
                    0 <= j < i ==> !((#[trigger] self.shard_transfers@[j]).shard_id == shard_id
                        && self.shard_transfers@[j].to == to),
            decreases n - i,
        {
            i = i + 1;
        }
        i < n
    }

    /// Distinct shards the points route to, in order of first appearance.
    fn collect_touched_shards(&self, points: &Vec<PointId>) -> (r: Vec<ShardId>)
        requires
            self.wf(),
            points@.len() > 0 ==> self.ring.nodes_view().len() > 0,
        ensures
            forall|a: int, b: int| 0 <= a < b < r@.len() ==> r@[a] != r@[b],
            forall|s: ShardId|
                #[trigger] r@.contains(s) <==> exists|k: int|
                    0 <= k < points@.len() && self.ring.spec_shard_of(points@[k]) == s,
            forall|s: ShardId| #[trigger] r@.contains(s) ==> self.ring.contains_shard(s),
    {
        let n = points.len();
        let mut shard_list: Vec<ShardId> = Vec::new();
        let mut i: usize = 0;
        while i < n
            invariant
                0 <= i <= n,
                n == points@.len(),
                self.wf(),
                n > 0 ==> self.ring.nodes_view().len() > 0,
                forall|a: int, b: int|
                    0 <= a < b < shard_list@.len() ==> shard_list@[a] != shard_list@[b],
                forall|s: ShardId|
                    #[trigger] shard_list@.contains(s) <==> exists|k: int|
                        0 <= k < i && self.ring.spec_shard_of(points@[k]) == s,
                forall|s: ShardId|
                    #[trigger] shard_list@.contains(s) ==> self.ring.contains_shard(s),
            decreases n - i,
        {
            let sid = self.ring.shard_of(&points[i]);
            let m = shard_list.len();
            let mut j: usize = 0;
            while j < m && shard_list[j] != sid
                invariant
                    0 <= j <= m,
                    m == shard_list@.len(),
                    forall|t: int| 0 <= t < j ==> shard_list@[t] != sid,
                decreases m - j,
            {
                j = j + 1;
            }
            if j == m {
                assert(!shard_list@.contains(sid)) by {
                    if shard_list@.contains(sid) {
                        let t = choose|t: int|
                            0 <= t < shard_list@.len() && shard_list@[t] == sid;
                    }
                }
                let ghost pre = shard_list@;
                shard_list.push(sid);
                assert forall|a: int, b: int|
                    0 <= a < b < shard_list@.len() implies shard_list@[a] != shard_list@[
                    b
                ] by {
                    if b == shard_list@.len() - 1 {
                        assert(pre.contains(pre[a]));
                    }
                }
            } else {
                assert(shard_list@.contains(sid)) by {
                    assert(shard_list@[j as int] == sid);
                }
            }
            assert forall|s: ShardId| #[trigger]
                shard_list@.contains(s) implies exists|k: int|
                0 <= k < i + 1 && self.ring.spec_shard_of(points@[k]) == s by {
                if s == sid {
                    assert(self.ring.spec_shard_of(points@[i as int]) == s);
                }
            }
            i = i + 1;
        }
        shard_list
    }

    /// The points of the operation that route to shard `sid`.
    fn collect_group(&self, points: &Vec<PointId>, sid: ShardId) -> (r: Vec<PointId>)
        requires
            self.wf(),
            points@.len() > 0 ==> self.ring.nodes_view().len() > 0,
        ensures
            spec_is_group_of(self.ring, points@, sid, r@),
    {
        let n = points.len();
        let mut pts: Vec<PointId> = Vec::new();
        let mut k: usize = 0;
        while k < n
            invariant
                0 <= k <= n,
                n == points@.len(),
                self.wf(),
                n > 0 ==> self.ring.nodes_view().len() > 0,
                forall|q: PointId|
                    #[trigger] pts@.contains(q) <==> (points@.take(k as int).contains(q)
                        && self.ring.spec_shard_of(q) == sid),
            decreases n - k,
        {
            assert(points@.take(k as int + 1) =~= points@.take(k as int).push(
                points@[k as int],
            ));
            let p = points[k];
            if self.ring.shard_of(&p) == sid {
                let ghost ppre = pts@;
                pts.push(p);
                assert forall|q: PointId| #[trigger]
                    pts@.contains(q) implies (points@.take(k as int + 1).contains(q)
                    && self.ring.spec_shard_of(q) == sid) by {
                    let t = choose|t: int| 0 <= t < pts@.len() && pts@[t] == q;
                    if t < ppre.len() {
                        assert(ppre[t] == q);
                    }
                }
            }
            k = k + 1;
        }
        assert(points@.take(n as int) =~= points@);
        pts
    }

    /// Partition a client update by routing each point through the hash
    /// ring: one sub-operation per shard touched, each non-empty, each point
    /// in the group of exactly the shard the ring maps it to.
    #[verifier::rlimit(100)]
    #[verifier::loop_isolation(false)]
    pub fn split_by_shard(&self, operation: &UpdateOperation) -> (r: Vec<(
        ShardId,
        UpdateOperation,
    )>)
        requires
            self.wf(),
            operation.points@.len() > 0 ==> self.shards@.len() > 0,
        ensures
            forall|a: int, b: int| 0 <= a < b < r@.len() ==> r@[a].0 != r@[b].0,
            forall|g: int|
                0 <= g < r@.len() ==> (#[trigger] r@[g].1).kind == operation.kind && r@[
                    g
                ].1.points@.len() > 0,
            forall|g: int|
                0 <= g < r@.len() ==> spec_is_group_of(
                    self.ring,
                    operation.points@,
                    (#[trigger] r@[g]).0,
                    r@[g].1.points@,
                ),
            forall|q: PointId|
                #[trigger] operation.points@.contains(q) ==> exists|g: int|
                    0 <= g < r@.len() && r@[g].0 == self.ring.spec_shard_of(q),
            forall|g: int| 0 <= g < r@.len() ==> self.ring.contains_shard(#[trigger] r@[g].0),
            r@.len() == 0 <==> operation.points@.len() == 0,
    {
        let points = &operation.points;
        let n = points.len();
        if n > 0 {
            proof {
                assert(self.shards@[0].wf());
                assert(self.ring.contains_shard(self.shards@[0].shard_id));
                let w = choose|w: int|
                    0 <= w < self.ring.nodes@.len() && self.ring.nodes@[w].shard
                        == self.shards@[0].shard_id;
            }
            assert(self.ring.nodes_view().len() > 0);
        }
        let shard_list = self.collect_touched_shards(points);
        let g = shard_list.len();
        let mut r: Vec<(ShardId, UpdateOperation)> = Vec::new();
        let mut gi: usize = 0;
        while gi < g
            invariant
                0 <= gi <= g,
                r@.len() == gi,
                forall|t: int| 0 <= t < gi ==> (#[trigger] r@[t]).0 == shard_list@[t],
                forall|t: int| 0 <= t < gi ==> (#[trigger] r@[t]).1.kind == operation.kind,
                forall|t: int| 0 <= t < gi ==> (#[trigger] r@[t]).1.points@.len() > 0,
                forall|t: int|
                    0 <= t < gi ==> spec_is_group_of(
                        self.ring,
                        operation.points@,
                        (#[trigger] r@[t]).0,
                        r@[t].1.points@,
                    ),
            decreases g - gi,
        {
            let sid = shard_list[gi];
            let pts = self.collect_group(points, sid);
            proof {
                assert(shard_list@.contains(sid)) by {
                    assert(shard_list@[gi as int] == sid);
                }
                let w = choose|w: int|
                    0 <= w < n && self.ring.spec_shard_of(points@[w]) == sid;
                assert(points@.contains(points@[w]));
                assert(pts@.contains(points@[w]));
                assert(pts@.len() > 0);
            }
            r.push((sid, UpdateOperation { kind: operation.kind, points: pts }));
            gi = gi + 1;
        }

        proof {
            assert forall|g2: int|
                0 <= g2 < r@.len() implies self.ring.contains_shard(
                #[trigger] r@[g2].0,
            ) by {
                assert(shard_list@.contains(shard_list@[g2]));
            }
            assert forall|q: PointId| #[trigger]
                operation.points@.contains(q) implies exists|t: int|
                0 <= t < r@.len() && r@[t].0 == self.ring.spec_shard_of(q) by {
                let sid = self.ring.spec_shard_of(q);
                let w = choose|w: int| 0 <= w < points@.len() && points@[w] == q;
                assert(self.ring.spec_shard_of(points@[w]) == sid);
                assert(shard_list@.contains(sid));
                let t = choose|t: int| 0 <= t < shard_list@.len() && shard_list@[t] == sid;
                assert(r@[t].0 == sid);
            }
            if operation.points@.len() > 0 {
                assert(points@.contains(points@[0]));
                assert(shard_list@.contains(self.ring.spec_shard_of(points@[0])));
                assert(shard_list@.len() > 0);
            }
            if operation.points@.len() == 0 {
                if shard_list@.len() > 0 {
                    assert(shard_list@.contains(shard_list@[0]));
                }
            }
        }
        r
    }
}

/// Transfer-key uniqueness: a well-formed holder never carries two active
/// transfers with the same key; registering and deregistering keep the
/// holder well formed, so no interleaving of the two can break this.
pub proof fn lemma_transfer_key_unique(h: ShardHolder, a: int, b: int)
    requires
        h.wf(),
        0 <= a < b < h.shard_transfers@.len(),
    ensures
        h.shard_transfers@[a].spec_key() != h.shard_transfers@[b].spec_key(),
{
}

/// Routing totality: under the guarantees of a split, every point of the
/// operation lies in exactly one group, the one of the shard the ring maps
/// it to; so the groups partition the operation's points.
pub proof fn lemma_split_by_shard_partition(
    groups: Seq<(ShardId, UpdateOperation)>,
    ring: HashRing,
    points: Seq<PointId>,
)
    requires
        forall|a: int, b: int| 0 <= a < b < groups.len() ==> groups[a].0 != groups[b].0,
        forall|g: int|
            0 <= g < groups.len() ==> spec_is_group_of(
                ring,
                points,
                (#[trigger] groups[g]).0,
                groups[g].1.points@,
            ),
        forall|q: PointId|
            #[trigger] points.contains(q) ==> exists|g: int|
                0 <= g < groups.len() && groups[g].0 == ring.spec_shard_of(q),
    ensures
        forall|q: PointId, g1: int, g2: int|
            0 <= g1 < groups.len() && 0 <= g2 < groups.len() && #[trigger] groups[
                g1
            ].1.points@.contains(q) && #[trigger] groups[g2].1.points@.contains(q) ==> g1
                == g2,
        forall|q: PointId|
            #[trigger] points.contains(q) ==> exists|g: int|
                0 <= g < groups.len() && groups[g].1.points@.contains(q),
{
    assert forall|q: PointId, g1: int, g2: int|
        0 <= g1 < groups.len() && 0 <= g2 < groups.len() && #[trigger] groups[
            g1
        ].1.points@.contains(q) && #[trigger] groups[g2].1.points@.contains(q) implies g1
        == g2 by {
        assert(groups[g1].0 == ring.spec_shard_of(q));
        assert(groups[g2].0 == ring.spec_shard_of(q));
        if g1 < g2 {
            assert(groups[g1].0 != groups[g2].0);
        }
        if g2 < g1 {
            assert(groups[g2].0 != groups[g1].0);
        }
    }
    assert forall|q: PointId| #[trigger]
        points.contains(q) implies exists|g: int|
        0 <= g < groups.len() && groups[g].1.points@.contains(q) by {
        let g = choose|g: int|
            0 <= g < groups.len() && groups[g].0 == ring.spec_shard_of(q);
        assert(spec_is_group_of(ring, points, groups[g].0, groups[g].1.points@));
        assert(groups[g].1.points@.contains(q));
    }
}

} // verus!
