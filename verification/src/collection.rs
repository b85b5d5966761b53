//! The collection coordinator: owns the shard holder and the transfer task
//! pool of one collection on one peer, and carries out the consensus-driven
//! state changes, the transfer protocol steps and the periodic reconciler.
//!
//! Everything here is a state machine over plain values. The surrounding
//! runtime performs storage, networking and clock work and reports the
//! outcomes back; decisions the consensus layer must carry out are returned
//! as [`CoordinatorAction`] values instead of being fired through callbacks.

use vstd::prelude::*;
use vstd::string::StringSliceAdditionalSpecFns;

use crate::config::{
    CollectionConfig, CollectionParamsDiff, Distance, HnswConfigDiff, OptimizersConfig,
    OptimizersConfigDiff, QuantizationConfig, QuantizationConfigDiff,
};
use crate::replica_set::{spec_first_active, LocalReplica, ReplicaSet};
use crate::shard_holder::{
    lemma_related_contains, lemma_related_unique_keys, spec_has_transfer_key, spec_is_group_of,
    spec_outgoing_transfers, spec_registered_sync, spec_related_transfers, spec_shard_index,
    ShardHolder,
};
use crate::snapshot::{spec_dec, u64_to_dec_string};
use crate::transfer::{ShardTransfer, ShardTransferKey, TransferTasksPool};
use crate::types::{CollectionError, NodeType, PeerId, PointId, ReplicaState, ShardId};
use crate::update::UpdateOperation;
use crate::version::{can_upgrade_storage, spec_can_upgrade_storage, Version};

verus! {

broadcast use vstd::seq_lib::group_seq_properties;

/// The error every operation returns when it addresses a shard this
/// collection does not have.
pub fn shard_not_found_error(shard_id: ShardId) -> (r: CollectionError)
    ensures
        (r matches CollectionError::NotFound { what } && what@ == seq![
            's',
            'h',
            'a',
            'r',
            'd',
            ' ',
        ] + spec_dec(shard_id as nat)),
{
    proof {
        reveal_strlit("shard ");
        assert("shard "@ =~= seq!['s', 'h', 'a', 'r', 'd', ' ']);
    }
    let mut what = String::from_str("shard ");
    let id_s = u64_to_dec_string(shard_id as u64);
    what.append(id_s.as_str());
    CollectionError::NotFound { what }
}

/// A consensus-driven replica change.
#[derive(Clone, Copy, PartialEq, Eq, Structural, Debug)]
pub enum Change {
    Remove(ShardId, PeerId),
}

/// Work the coordinator asks the consensus layer to carry out. Instead of
/// firing injected callbacks, the coordinator returns these as values, so
/// every decision stays checkable.
#[derive(Clone, Copy, PartialEq, Eq, Structural, Debug)]
pub enum CoordinatorAction {
    RequestShardTransfer { transfer: ShardTransfer },
    ReportTransferFailure { transfer: ShardTransfer },
    ReportTransferSuccess { transfer: ShardTransfer },
    FinishInit { peer_id: PeerId, shard_id: ShardId },
    ConvertToListener { peer_id: PeerId, shard_id: ShardId },
    ConvertFromListener { peer_id: PeerId, shard_id: ShardId },
}

/// Replica states of one shard, as the cluster sees them.
pub struct ShardInfo {
    pub replicas: Vec<(PeerId, ReplicaState)>,
}

/// Cluster-visible snapshot of this collection on this peer.
pub struct State {
    pub config: CollectionConfig,
    pub shards: Vec<(ShardId, ShardInfo)>,
    pub transfers: Vec<ShardTransfer>,
}

/// Shard ids of the replica sets that hold a local replica, in shard order.
pub open spec fn spec_local_shards(s: Seq<ReplicaSet>) -> Seq<ShardId>
    decreases s.len(),
{
    if s.len() == 0 {
        Seq::empty()
    } else {
        let pre = spec_local_shards(s.drop_last());
        if s.last().spec_has_local_shard() {
            pre.push(s.last().shard_id)
        } else {
            pre
        }
    }
}

/// The per-collection coordinator state on one peer.
pub struct Collection {
    pub id: String,
    pub this_peer_id: PeerId,
    pub shards_holder: ShardHolder,
    pub transfer_tasks: TransferTasksPool,
    pub collection_config: CollectionConfig,
    pub node_type: NodeType,
    /// One-way flag: set the first time every replica of every shard is
    /// Active; never reset.
    pub is_initialized: bool,
}

impl Collection {
    pub open spec fn wf(self) -> bool {
        &&& self.shards_holder.wf()
        &&& self.transfer_tasks.wf()
        &&& forall|i: int|
            0 <= i < self.shards_holder.shards@.len() ==> (#[trigger] self.shards_holder.shards@[
                i
            ]).this_peer_id == self.this_peer_id
    }

    pub open spec fn spec_shards(self) -> Seq<ReplicaSet> {
        self.shards_holder.shards@
    }

    pub fn name(&self) -> (r: String)
        ensures
            r@ == self.id@,
    {
        String::from_str(self.id.as_str())
    }

    /// Check if the stored storage version can be opened, and then migrated,
    /// by this application version.
    pub fn can_upgrade_storage(stored: &Version, app: &Version) -> (r: bool)
        ensures
            r == spec_can_upgrade_storage(*stored, *app),
    {
        can_upgrade_storage(stored, app)
    }

    /// Build a fresh collection: one replica set per shard of the
    /// distribution, every listed peer starting in `Initializing`.
    pub fn new(
        name: String,
        this_peer_id: PeerId,
        collection_config: CollectionConfig,
        shard_distribution: &Vec<(ShardId, Vec<PeerId>)>,
        node_type: NodeType,
    ) -> (r: Result<Collection, CollectionError>)
        ensures
            r is Ok <==> (forall|a: int, b: int|
                0 <= a < b < shard_distribution@.len() ==> shard_distribution@[a].0
                    != shard_distribution@[b].0),
            r is Err ==> r->Err_0 is ServiceError,
            r is Ok ==> {
                &&& r->Ok_0.wf()
                &&& r->Ok_0.this_peer_id == this_peer_id
                &&& r->Ok_0.node_type == node_type
                &&& !r->Ok_0.is_initialized
                &&& r->Ok_0.spec_shards().len() == shard_distribution@.len()
                &&& forall|k: int|
                    0 <= k < shard_distribution@.len() ==> (#[trigger] r->Ok_0.spec_shards()[
                        k
                    ]).shard_id == shard_distribution@[k].0
                &&& forall|k: int, p: PeerId|
                    0 <= k < shard_distribution@.len() ==> (#[trigger] r->Ok_0.spec_shards()[
                        k
                    ].spec_peer_state(p)) == (if shard_distribution@[k].1@.contains(p) {
                        Some(ReplicaState::Initializing)
                    } else {
                        None::<ReplicaState>
                    })
                &&& r->Ok_0.shards_holder.shard_transfers@.len() == 0
                &&& r->Ok_0.transfer_tasks.tasks@.len() == 0
            },
    {
        let mut holder = ShardHolder::new();
        let n = shard_distribution.len();
        let mut i: usize = 0;
        while i < n
            invariant
                0 <= i <= n,
                n == shard_distribution@.len(),
                holder.wf(),
                holder.shards@.len() == i,
                holder.shard_transfers@.len() == 0,
                forall|k: int|
                    0 <= k < i ==> (#[trigger] holder.shards@[k]).shard_id
                        == shard_distribution@[k].0,
                forall|k: int|
                    0 <= k < i ==> (#[trigger] holder.shards@[k]).this_peer_id == this_peer_id,
                forall|k: int, p: PeerId|
                    0 <= k < i ==> (#[trigger] holder.shards@[k].spec_peer_state(p)) == (
                    if shard_distribution@[k].1@.contains(p) {
                        Some(ReplicaState::Initializing)
                    } else {
                        None::<ReplicaState>
                    }),
                forall|a: int, b: int|
                    0 <= a < b < i ==> shard_distribution@[a].0 != shard_distribution@[b].0,
            decreases n - i,
        {
            let (sid, ref peers) = shard_distribution[i];
            let rs = ReplicaSet::build(sid, this_peer_id, peers);
            let ghost pre = holder.shards@;
            match holder.add_shard(rs) {
                Ok(()) => {},
                Err(e) => {
                    proof {
                        let a = choose|a: int| 0 <= a < pre.len() && pre[a].shard_id == sid;
                        assert(shard_distribution@[a].0 == sid);
                    }
                    return Err(e);
                },
            }
            assert forall|a: int, b: int|
                0 <= a < b < i + 1 implies shard_distribution@[a].0 != shard_distribution@[
                b
            ].0 by {
                if b == i as int {
                    assert(holder.shards@[a].shard_id == shard_distribution@[a].0);
                    assert(holder.shards@[b].shard_id == shard_distribution@[b].0);
                }
            }
            i = i + 1;
        }
        Ok(
            Collection {
                id: name,
                this_peer_id,
                shards_holder: holder,
                transfer_tasks: TransferTasksPool::new(),
                collection_config,
                node_type,
                is_initialized: false,
            },
        )
    }

    /// Shard ids of the replicas present on this peer.
    pub fn get_local_shards(&self) -> (r: Vec<ShardId>)
        ensures
            r@ == spec_local_shards(self.spec_shards()),
    {
        let mut r: Vec<ShardId> = Vec::new();
        let n = self.shards_holder.shards.len();
        let mut i: usize = 0;
        while i < n
            invariant
                0 <= i <= n,
                n == self.shards_holder.shards@.len(),
                r@ == spec_local_shards(self.shards_holder.shards@.take(i as int)),
            decreases n - i,
        {
            assert(self.shards_holder.shards@.take(i as int + 1).drop_last()
                =~= self.shards_holder.shards@.take(i as int));
            assert(self.shards_holder.shards@.take(i as int + 1).last()
                == self.shards_holder.shards@[i as int]);
            if self.shards_holder.shards[i].has_local_shard() {
                r.push(self.shards_holder.shards[i].shard_id);
            }
            i = i + 1;
        }
        assert(self.shards_holder.shards@.take(n as int) =~= self.shards_holder.shards@);
        r
    }

    /// Are all replicas of all shards Active?
    pub fn is_all_active(&self) -> (r: bool)
        requires
            self.wf(),
        ensures
            r == (forall|i: int, j: int|
                0 <= i < self.spec_shards().len() && 0 <= j < self.spec_shards()[
                    i
                ].replicas@.len() ==> (#[trigger] self.spec_shards()[i].replicas@[j]).1
                    == ReplicaState::Active),
    {
        let n = self.shards_holder.shards.len();
        let mut i: usize = 0;
        while i < n
            invariant
                0 <= i <= n,
                self.wf(),
                n == self.shards_holder.shards@.len(),
                forall|k: int, j: int|
                    0 <= k < i && 0 <= j < self.shards_holder.shards@[k].replicas@.len() ==> (
                    #[trigger] self.shards_holder.shards@[k].replicas@[j]).1
                        == ReplicaState::Active,
            decreases n - i,
        {
            if !self.shards_holder.shards[i].all_active() {
                return false;
            }
            i = i + 1;
        }
        true
    }

    pub fn contains_shard(&self, shard_id: ShardId) -> (r: bool)
        ensures
            r == self.shards_holder.spec_contains_shard(shard_id),
    {
        self.shards_holder.contains_shard(shard_id)
    }

    /// Whether the shard's replica on this peer is a usable local one;
    /// nothing when the shard does not exist.
    pub fn is_shard_local(&self, shard_id: &ShardId) -> (r: Option<bool>)
        ensures
            match r {
                Some(b) => exists|i: int|
                    0 <= i < self.spec_shards().len() && (#[trigger] self.spec_shards()[
                        i
                    ]).shard_id == *shard_id && b == self.spec_shards()[i].spec_is_local(),
                None => !self.shards_holder.spec_contains_shard(*shard_id),
            },
    {
        match self.shards_holder.find_shard_index(*shard_id) {
            Some(i) => {
                let b = self.shards_holder.shards[i].is_local();
                assert((#[trigger] self.spec_shards()[i as int]).shard_id == *shard_id && b
                    == self.spec_shards()[i as int].spec_is_local());
                Some(b)
            },
            None => None,
        }
    }

    /// Is a transfer with this key registered?
    pub fn check_transfer_exists(&self, transfer_key: &ShardTransferKey) -> (r: bool)
        ensures
            r == spec_has_transfer_key(self.shards_holder.shard_transfers@, *transfer_key),
    {
        match self.shards_holder.get_transfer(transfer_key) {
            Some(t) => {
                proof {
                    let i = choose|i: int|
                        0 <= i < self.shards_holder.shard_transfers@.len()
                            && self.shards_holder.shard_transfers@[i] == t;
                }
                true
            },
            None => false,
        }
    }

    /// The registered transfer with this key, if any.
    pub fn get_transfer(&self, transfer_key: &ShardTransferKey) -> (r: Option<ShardTransfer>)
        ensures
            match r {
                Some(t) => self.shards_holder.shard_transfers@.contains(t) && t.spec_key()
                    == *transfer_key,
                None => !spec_has_transfer_key(
                    self.shards_holder.shard_transfers@,
                    *transfer_key,
                ),
            },
    {
        self.shards_holder.get_transfer(transfer_key)
    }

    /// All registered transfers leaving `current_peer_id`.
    pub fn get_outgoing_transfers(&self, current_peer_id: &PeerId) -> (r: Vec<ShardTransfer>)
        ensures
            r@ == spec_outgoing_transfers(self.shards_holder.shard_transfers@, *current_peer_id),
    {
        self.shards_holder.get_outgoing_transfers(current_peer_id)
    }

    /// A copy of the whole transfer registry, for callers that filter it
    /// themselves.
    pub fn get_transfers(&self) -> (r: Vec<ShardTransfer>)
        ensures
            r@ == self.shards_holder.shard_transfers@,
    {
        let mut r: Vec<ShardTransfer> = Vec::new();
        let n = self.shards_holder.shard_transfers.len();
        let mut i: usize = 0;
        while i < n
            invariant
                0 <= i <= n,
                n == self.shards_holder.shard_transfers@.len(),
                r@ == self.shards_holder.shard_transfers@.take(i as int),
            decreases n - i,
        {
            r.push(self.shards_holder.shard_transfers[i]);
            assert(r@ =~= self.shards_holder.shard_transfers@.take(i as int + 1));
            i = i + 1;
        }
        assert(self.shards_holder.shard_transfers@.take(n as int)
            =~= self.shards_holder.shard_transfers@);
        r
    }

    /// Apply consensus-driven replica removals, left to right: each named
    /// peer must hold a replica of the named shard, and may not be its only
    /// one; the first offending change rejects the request, changes before
    /// it staying applied.
    #[verifier::rlimit(100)]
    pub fn handle_replica_changes(&mut self, replica_changes: Vec<Change>) -> (r: Result<
        (),
        CollectionError,
    >)
        requires
            old(self).wf(),
        ensures
            final(self).wf(),
            r is Err ==> r->Err_0 is BadRequest,
            r is Ok <==> spec_changes_valid(old(self).spec_shards(), replica_changes@),
            final(self).shards_holder.shard_transfers@ == old(self).shards_holder.shard_transfers@,
            final(self).transfer_tasks == old(self).transfer_tasks,
            same_core(old(self), final(self)),
            final(self).spec_shards().len() == old(self).spec_shards().len(),
            forall|k: int|
                0 <= k < final(self).spec_shards().len() ==> (#[trigger] final(self).spec_shards()[
                    k
                ]).shard_id == old(self).spec_shards()[k].shard_id,
            r is Ok ==> (forall|i: int, q: PeerId|
                0 <= i < old(self).spec_shards().len() ==> (#[trigger] final(self).spec_shards()[
                    i
                ].spec_peer_state(q)) == (if (exists|j: int|
                    0 <= j < replica_changes@.len() && replica_changes@[j] == Change::Remove(
                        old(self).spec_shards()[i].shard_id,
                        q,
                    )) {
                    None
                } else {
                    old(self).spec_shards()[i].spec_peer_state(q)
                })),
    {
        let ghost pre_shards = self.shards_holder.shards@;
        let n = replica_changes.len();
        let mut c: usize = 0;
        while c < n
            invariant
                0 <= c <= n,
                n == replica_changes@.len(),
                pre_shards == old(self).spec_shards(),
                self.wf(),
                old(self).wf(),
                same_core(old(self), self),
                self.this_peer_id == old(self).this_peer_id,
                self.shards_holder.shard_transfers@ == old(self).shards_holder.shard_transfers@,
                self.transfer_tasks == old(self).transfer_tasks,
                self.spec_shards().len() == pre_shards.len(),
                forall|k: int|
                    0 <= k < self.spec_shards().len() ==> (#[trigger] self.spec_shards()[
                        k
                    ]).shard_id == pre_shards[k].shard_id,
                forall|i: int, q: PeerId|
                    0 <= i < pre_shards.len() ==> (#[trigger] self.spec_shards()[
                        i
                    ].spec_peer_state(q)) == (if (exists|j: int|
                        0 <= j < c && replica_changes@[j] == Change::Remove(
                            pre_shards[i].shard_id,
                            q,
                        )) {
                        None
                    } else {
                        pre_shards[i].spec_peer_state(q)
                    }),
                forall|i: int|
                    0 <= i < pre_shards.len() ==> (#[trigger] self.spec_shards()[
                        i
                    ].replicas@.len()) == pre_shards[i].replicas@.len() - spec_count_removes(
                        replica_changes@,
                        c as int,
                        pre_shards[i].shard_id,
                    ),
                forall|j: int|
                    0 <= j < c ==> spec_change_valid_at(pre_shards, replica_changes@, j),
            decreases n - c,
        {
            let Change::Remove(shard_id, peer_id) = replica_changes[c];
            let idx = match self.shards_holder.find_shard_index(shard_id) {
                Some(idx) => idx,
                None => {
                    proof {
                        if exists|i: int|
                            0 <= i < pre_shards.len() && pre_shards[i].shard_id == shard_id {
                            let i = choose|i: int|
                                0 <= i < pre_shards.len() && pre_shards[i].shard_id
                                    == shard_id;
                            assert(self.spec_shards()[i].shard_id == shard_id);
                        }
                        assert(!spec_change_valid_at(
                            pre_shards,
                            replica_changes@,
                            c as int,
                        ));
                    }
                    return Err(
                        CollectionError::bad_request(String::from_str("shard not found")),
                    );
                },
            };
            proof {
                assert(idx as int == spec_shard_index(pre_shards, shard_id)) by {
                    let j = spec_shard_index(pre_shards, shard_id);
                    assert(0 <= j < pre_shards.len() && pre_shards[j].shard_id
                        == shard_id) by {
                        assert(exists|i: int|
                            0 <= i < pre_shards.len() && pre_shards[i].shard_id
                                == shard_id) by {
                            assert(pre_shards[idx as int].shard_id == shard_id);
                        }
                    }
                    if j != idx as int {
                        assert(pre_shards[j].shard_id != pre_shards[idx as int].shard_id);
                    }
                }
            }
            let present = match self.shards_holder.shards[idx].peer_state(&peer_id) {
                Some(_) => true,
                None => false,
            };
            if !present {
                proof {
                    assert(!spec_change_valid_at(pre_shards, replica_changes@, c as int));
                }
                return Err(
                    CollectionError::bad_request(
                        String::from_str("peer has no replica of this shard"),
                    ),
                );
            }
            if self.shards_holder.shards[idx].replicas.len() == 1 {
                proof {
                    assert(!spec_change_valid_at(pre_shards, replica_changes@, c as int));
                }
                return Err(
                    CollectionError::bad_request(
                        String::from_str("a shard must keep at least one replica"),
                    ),
                );
            }
            proof {
                assert(spec_change_valid_at(pre_shards, replica_changes@, c as int)) by {
                    assert(pre_shards[idx as int].shard_id == shard_id);
                }
            }
            let ghost pre = self.shards_holder.shards@;
            let rs = &mut self.shards_holder.shards[idx];
            let res = rs.remove_peer(peer_id);
            proof {
                assert(res is Ok);
                assert(self.shards_holder.shards@ == pre.update(
                    idx as int,
                    self.shards_holder.shards@[idx as int],
                ));
            }
            assert forall|i: int, j: int|
                0 <= i < j < self.shards_holder.shards@.len() implies self.shards_holder.shards@[
                i
            ].shard_id != self.shards_holder.shards@[j].shard_id by {
                assert(pre[i].shard_id != pre[j].shard_id);
            }
            assert forall|s2: ShardId| #[trigger]
                self.shards_holder.ring.contains_shard(s2) implies exists|i: int|
                0 <= i < self.shards_holder.shards@.len() && self.shards_holder.shards@[
                    i
                ].shard_id == s2 by {
                let i = choose|i: int| 0 <= i < pre.len() && pre[i].shard_id == s2;
                assert(self.shards_holder.shards@[i].shard_id == s2);
            }
            proof {
                assert forall|i: int, q: PeerId|
                    0 <= i < pre_shards.len() implies (#[trigger] self.spec_shards()[
                    i
                ].spec_peer_state(q)) == (if (exists|j: int|
                    0 <= j < c + 1 && replica_changes@[j] == Change::Remove(
                        pre_shards[i].shard_id,
                        q,
                    )) {
                    None
                } else {
                    pre_shards[i].spec_peer_state(q)
                }) by {
                    if i != idx as int {
                        assert(pre_shards[i].shard_id != shard_id);
                    }
                    if exists|j: int|
                        0 <= j < c + 1 && replica_changes@[j] == Change::Remove(
                            pre_shards[i].shard_id,
                            q,
                        ) {
                        let j = choose|j: int|
                            0 <= j < c + 1 && replica_changes@[j] == Change::Remove(
                                pre_shards[i].shard_id,
                                q,
                            );
                        if j < c {
                            assert(exists|j2: int|
                                0 <= j2 < c && replica_changes@[j2] == Change::Remove(
                                    pre_shards[i].shard_id,
                                    q,
                                ));
                        }
                    }
                }
                assert forall|i: int|
                    0 <= i < pre_shards.len() implies (#[trigger] self.spec_shards()[
                    i
                ].replicas@.len()) == pre_shards[i].replicas@.len() - spec_count_removes(
                    replica_changes@,
                    c as int + 1,
                    pre_shards[i].shard_id,
                ) by {
                    if i != idx as int {
                        assert(pre_shards[i].shard_id != shard_id);
                    }
                }
            }
            c = c + 1;
        }
        proof {
            assert forall|j: int|
                0 <= j < replica_changes@.len() implies spec_change_valid_at(
                old(self).spec_shards(),
                replica_changes@,
                j,
            ) by {}
        }
        Ok(())
    }

    /// Route a replicated update that upstream already assigned to a shard:
    /// it must exist here and hold a local replica; the caller then applies
    /// the operation to that replica.
    pub fn update_from_peer(&self, shard_selection: ShardId) -> (r: Result<
        (),
        CollectionError,
    >)
        requires
            self.wf(),
        ensures
            r is Ok <==> exists|i: int|
                0 <= i < self.spec_shards().len() && (#[trigger] self.spec_shards()[
                    i
                ]).shard_id == shard_selection && self.spec_shards()[i].spec_has_local_shard(),
            r is Err ==> r->Err_0 is ServiceError,
    {
        proof {
            reveal_strlit("No target shard ");
            reveal_strlit(" found for update");
        }
        match self.shards_holder.find_shard_index(shard_selection) {
            Some(i) => {
                if self.shards_holder.shards[i].has_local_shard() {
                    assert((#[trigger] self.spec_shards()[i as int]).shard_id
                        == shard_selection && self.spec_shards()[
                        i as int
                    ].spec_has_local_shard());
                    Ok(())
                } else {
                    proof {
                        if exists|k: int|
                            0 <= k < self.spec_shards().len() && (#[trigger] self.spec_shards()[
                                k
                            ]).shard_id == shard_selection && self.spec_shards()[
                                k
                            ].spec_has_local_shard() {
                            let k = choose|k: int|
                                0 <= k < self.spec_shards().len() && (
                                #[trigger] self.spec_shards()[k]).shard_id == shard_selection
                                    && self.spec_shards()[k].spec_has_local_shard();
                            if k != i as int {
                                assert(self.spec_shards()[k].shard_id != self.spec_shards()[
                                    i as int
                                ].shard_id);
                            }
                        }
                    }
                    let mut msg = String::from_str("No target shard ");
                    let id_s = u64_to_dec_string(shard_selection as u64);
                    msg.append(id_s.as_str());
                    msg.append(" found for update");
                    Err(CollectionError::ServiceError { error: msg })
                }
            },
            None => {
                let mut msg = String::from_str("No target shard ");
                let id_s = u64_to_dec_string(shard_selection as u64);
                msg.append(id_s.as_str());
                msg.append(" found for update");
                Err(CollectionError::ServiceError { error: msg })
            },
        }
    }

    /// Partition a client update into its per-shard sub-operations. The
    /// caller dispatches each with the requested write ordering and folds
    /// the outcomes with [`crate::update::aggregate_update_results`].
    pub fn update_from_client(&self, operation: &UpdateOperation) -> (r: Result<
        Vec<(ShardId, UpdateOperation)>,
        CollectionError,
    >)
        requires
            self.wf(),
            operation.points@.len() > 0 ==> self.spec_shards().len() > 0,
        ensures
            r is Ok <==> operation.points@.len() > 0,
            r is Err ==> r->Err_0 is BadRequest,
            r is Ok ==> {
                &&& r->Ok_0@.len() > 0
                &&& forall|a: int, b: int|
                    0 <= a < b < r->Ok_0@.len() ==> r->Ok_0@[a].0 != r->Ok_0@[b].0
                &&& forall|g: int|
                    0 <= g < r->Ok_0@.len() ==> (#[trigger] r->Ok_0@[g].1).kind
                        == operation.kind && r->Ok_0@[g].1.points@.len() > 0
                &&& forall|g: int|
                    0 <= g < r->Ok_0@.len() ==> spec_is_group_of(
                        self.shards_holder.ring,
                        operation.points@,
                        (#[trigger] r->Ok_0@[g]).0,
                        r->Ok_0@[g].1.points@,
                    )
                &&& forall|q: PointId|
                    #[trigger] operation.points@.contains(q) ==> exists|g: int|
                        0 <= g < r->Ok_0@.len() && r->Ok_0@[g].0
                            == self.shards_holder.ring.spec_shard_of(q)
            },
    {
        let groups = self.shards_holder.split_by_shard(operation);
        if groups.len() == 0 {
            proof {
                if operation.points@.len() > 0 {
                }
            }
            return Err(CollectionError::bad_request(String::from_str("Empty update request")));
        }
        Ok(groups)
    }

    /// Update the core collection parameters from a diff. The caller
    /// persists the changed configuration afterwards.
    pub fn update_params_from_diff(&mut self, params_diff: CollectionParamsDiff) -> (r: Result<
        (),
        CollectionError,
    >)
        ensures
            r is Ok,
            final(self).collection_config.params.shard_number == old(self).collection_config.params.shard_number,
            final(self).collection_config.params.replication_factor == (match params_diff
                .replication_factor {
                Some(v) => v,
                None => old(self).collection_config.params.replication_factor,
            }),
            final(self).collection_config.params.write_consistency_factor == (match params_diff
                .write_consistency_factor {
                Some(v) => v,
                None => old(self).collection_config.params.write_consistency_factor,
            }),
            final(self).collection_config.params.vectors@ == old(self).collection_config.params.vectors@,
            unchanged_but_config(old(self), final(self)),
            final(self).collection_config.hnsw_config == old(self).collection_config.hnsw_config,
            final(self).collection_config.optimizer_config == old(self).collection_config.optimizer_config,
            final(self).collection_config.quantization_config == old(self).collection_config.quantization_config,
    {
        match params_diff.update(&self.collection_config.params) {
            Ok(p) => {
                self.collection_config.params = p;
                Ok(())
            },
            Err(e) => Err(e),
        }
    }

    /// Update the index build parameters from a diff. The caller persists
    /// the changed configuration afterwards.
    pub fn update_hnsw_config_from_diff(&mut self, hnsw_config_diff: HnswConfigDiff) -> (r:
        Result<(), CollectionError>)
        ensures
            r is Ok,
            final(self).collection_config.hnsw_config.m == (match hnsw_config_diff.m {
                Some(v) => v,
                None => old(self).collection_config.hnsw_config.m,
            }),
            final(self).collection_config.hnsw_config.ef_construct == (match hnsw_config_diff
                .ef_construct {
                Some(v) => v,
                None => old(self).collection_config.hnsw_config.ef_construct,
            }),
            final(self).collection_config.hnsw_config.full_scan_threshold == (
            match hnsw_config_diff.full_scan_threshold {
                Some(v) => v,
                None => old(self).collection_config.hnsw_config.full_scan_threshold,
            }),
            unchanged_but_config(old(self), final(self)),
    {
        match hnsw_config_diff.update(&self.collection_config.hnsw_config) {
            Ok(h) => {
                self.collection_config.hnsw_config = h;
                Ok(())
            },
            Err(e) => Err(e),
        }
    }

    /// Update the optimizer parameters from a diff. The caller persists the
    /// changed configuration afterwards.
    pub fn update_optimizer_params_from_diff(
        &mut self,
        optimizer_config_diff: OptimizersConfigDiff,
    ) -> (r: Result<(), CollectionError>)
        ensures
            r is Ok,
            final(self).collection_config.optimizer_config.max_segment_size == (
            match optimizer_config_diff.max_segment_size {
                Some(v) => v,
                None => old(self).collection_config.optimizer_config.max_segment_size,
            }),
            final(self).collection_config.optimizer_config.flush_interval_sec == (
            match optimizer_config_diff.flush_interval_sec {
                Some(v) => v,
                None => old(self).collection_config.optimizer_config.flush_interval_sec,
            }),
            final(self).collection_config.optimizer_config.deleted_threshold_permille == (
            match optimizer_config_diff.deleted_threshold_permille {
                Some(v) => v,
                None => old(self).collection_config.optimizer_config.deleted_threshold_permille,
            }),
            final(self).collection_config.optimizer_config.default_segment_number == (
            match optimizer_config_diff.default_segment_number {
                Some(v) => v,
                None => old(self).collection_config.optimizer_config.default_segment_number,
            }),
            unchanged_but_config(old(self), final(self)),
    {
        match optimizer_config_diff.update(&self.collection_config.optimizer_config) {
            Ok(o) => {
                self.collection_config.optimizer_config = o;
                Ok(())
            },
            Err(e) => Err(e),
        }
    }

    /// Replace the optimizer parameters outright. The caller persists the
    /// changed configuration afterwards.
    pub fn update_optimizer_params(&mut self, optimizer_config: OptimizersConfig) -> (r: Result<
        (),
        CollectionError,
    >)
        ensures
            r is Ok,
            final(self).collection_config.optimizer_config == optimizer_config,
            unchanged_but_config(old(self), final(self)),
    {
        self.collection_config.optimizer_config = optimizer_config;
        Ok(())
    }

    /// Apply a tagged quantization update: set the named scheme, or clear
    /// the setting for `Disabled`. The caller persists the changed
    /// configuration afterwards.
    pub fn update_quantization_config_from_diff(
        &mut self,
        quantization_config_diff: QuantizationConfigDiff,
    ) -> (r: Result<(), CollectionError>)
        ensures
            r is Ok,
            final(self).collection_config.quantization_config == (match quantization_config_diff {
                QuantizationConfigDiff::Scalar { quantile_permille } => Some(
                    QuantizationConfig::Scalar { quantile_permille },
                ),
                QuantizationConfigDiff::Product { compression } => Some(
                    QuantizationConfig::Product { compression },
                ),
                QuantizationConfigDiff::Binary { always_ram } => Some(
                    QuantizationConfig::Binary { always_ram },
                ),
                QuantizationConfigDiff::Disabled => None::<QuantizationConfig>,
            }),
            unchanged_but_config(old(self), final(self)),
    {
        match quantization_config_diff {
            QuantizationConfigDiff::Scalar { quantile_permille } => {
                self.collection_config.quantization_config = Some(
                    QuantizationConfig::Scalar { quantile_permille },
                );
            },
            QuantizationConfigDiff::Product { compression } => {
                self.collection_config.quantization_config = Some(
                    QuantizationConfig::Product { compression },
                );
            },
            QuantizationConfigDiff::Binary { always_ram } => {
                self.collection_config.quantization_config = Some(
                    QuantizationConfig::Binary { always_ram },
                );
            },
            QuantizationConfigDiff::Disabled => {
                self.collection_config.quantization_config = None;
            },
        }
        Ok(())
    }

    /// Replace the distance of existing vector spaces; a diff naming an
    /// unknown vector space is rejected, and with duplicate diff entries
    /// the last one for a name wins. The caller persists the changed
    /// configuration afterwards.
    pub fn update_vectors_from_diff(&mut self, update_vectors_diff: &Vec<(u64, Distance)>) -> (r:
        Result<(), CollectionError>)
        ensures
            final(self).wf() == old(self).wf(),
            unchanged_but_config(old(self), final(self)),
            r is Err ==> r->Err_0 is BadInput,
            r is Err ==> *final(self) == *old(self),
            r is Ok <==> forall|k: int|
                0 <= k < update_vectors_diff@.len()
                    ==> crate::config::spec_find_vector_params(
                    old(self).collection_config.params.vectors@,
                    (#[trigger] update_vectors_diff@[k]).0,
                ) is Some,
            final(self).collection_config.params.vectors@.len() == old(self).collection_config.params.vectors@.len(),
            final(self).collection_config.hnsw_config == old(self).collection_config.hnsw_config,
            final(self).collection_config.optimizer_config == old(self).collection_config.optimizer_config,
            final(self).collection_config.wal_config == old(self).collection_config.wal_config,
            final(self).collection_config.quantization_config == old(self).collection_config.quantization_config,
            final(self).collection_config.params.shard_number == old(self).collection_config.params.shard_number,
            final(self).collection_config.params.replication_factor == old(self).collection_config.params.replication_factor,
            final(self).collection_config.params.write_consistency_factor == old(self).collection_config.params.write_consistency_factor,
            r is Ok ==> (forall|j: int|
                0 <= j < old(self).collection_config.params.vectors@.len() ==> (
                #[trigger] final(self).collection_config.params.vectors@[j]) == (
                crate::config::VectorParams {
                    name_id: old(self).collection_config.params.vectors@[j].name_id,
                    distance: (match spec_last_diff_distance(
                        update_vectors_diff@,
                        update_vectors_diff@.len() as int,
                        old(self).collection_config.params.vectors@[j].name_id,
                    ) {
                        Some(d) => d,
                        None => old(self).collection_config.params.vectors@[j].distance,
                    }),
                })),
    {
        let n = update_vectors_diff.len();
        let mut k: usize = 0;
        while k < n
            invariant
                0 <= k <= n,
                n == update_vectors_diff@.len(),
                *self == *old(self),
                forall|t: int|
                    0 <= t < k ==> crate::config::spec_find_vector_params(
                        self.collection_config.params.vectors@,
                        (#[trigger] update_vectors_diff@[t]).0,
                    ) is Some,
            decreases n - k,
        {
            let (name_id, _) = update_vectors_diff[k];
            match self.collection_config.params.get_vector_params(name_id) {
                Some(_) => {},
                None => {
                    return Err(
                        CollectionError::bad_input(
                            String::from_str("unknown vector name in update"),
                        ),
                    );
                },
            }
            k = k + 1;
        }
        let ghost vectors0 = self.collection_config.params.vectors@;
        let mut k2: usize = 0;
        while k2 < n
            invariant
                0 <= k2 <= n,
                n == update_vectors_diff@.len(),
                unchanged_but_config(old(self), self),
                vectors0 == old(self).collection_config.params.vectors@,
                self.collection_config.hnsw_config == old(self).collection_config.hnsw_config,
                self.collection_config.optimizer_config == old(self).collection_config.optimizer_config,
                self.collection_config.wal_config == old(self).collection_config.wal_config,
                self.collection_config.quantization_config == old(self).collection_config.quantization_config,
                self.collection_config.params.shard_number == old(self).collection_config.params.shard_number,
                self.collection_config.params.replication_factor == old(self).collection_config.params.replication_factor,
                self.collection_config.params.write_consistency_factor == old(self).collection_config.params.write_consistency_factor,
                self.collection_config.params.vectors@.len() == vectors0.len(),
                forall|j: int|
                    0 <= j < vectors0.len() ==> (
                    #[trigger] self.collection_config.params.vectors@[j]) == (
                    crate::config::VectorParams {
                        name_id: vectors0[j].name_id,
                        distance: (match spec_last_diff_distance(
                            update_vectors_diff@,
                            k2 as int,
                            vectors0[j].name_id,
                        ) {
                            Some(d) => d,
                            None => vectors0[j].distance,
                        }),
                    }),
            decreases n - k2,
        {
            let (name_id, distance) = update_vectors_diff[k2];
            let ghost mid = self.collection_config.params.vectors@;
            let m = self.collection_config.params.vectors.len();
            let mut j: usize = 0;
            while j < m
                invariant
                    0 <= j <= m,
                    m == mid.len(),
                    self.collection_config.params.vectors@.len() == mid.len(),
                    unchanged_but_config(old(self), self),
                    self.collection_config.hnsw_config == old(self).collection_config.hnsw_config,
                    self.collection_config.optimizer_config == old(self).collection_config.optimizer_config,
                    self.collection_config.wal_config == old(self).collection_config.wal_config,
                    self.collection_config.quantization_config == old(self).collection_config.quantization_config,
                    self.collection_config.params.shard_number == old(self).collection_config.params.shard_number,
                    self.collection_config.params.replication_factor == old(self).collection_config.params.replication_factor,
                    self.collection_config.params.write_consistency_factor == old(self).collection_config.params.write_consistency_factor,
                    forall|jj: int|
                        0 <= jj < mid.len() ==> (
                        #[trigger] self.collection_config.params.vectors@[jj]) == (if jj < j
                            && mid[jj].name_id == name_id {
                            (crate::config::VectorParams { name_id, distance })
                        } else {
                            mid[jj]
                        }),
                decreases m - j,
            {
                if self.collection_config.params.vectors[j].name_id == name_id {
                    let v = &mut self.collection_config.params.vectors[j];
                    v.distance = distance;
                }
                j = j + 1;
            }
            proof {
                assert forall|jj: int|
                    0 <= jj < vectors0.len() implies (
                #[trigger] self.collection_config.params.vectors@[jj]) == (
                crate::config::VectorParams {
                    name_id: vectors0[jj].name_id,
                    distance: (match spec_last_diff_distance(
                        update_vectors_diff@,
                        k2 as int + 1,
                        vectors0[jj].name_id,
                    ) {
                        Some(d) => d,
                        None => vectors0[jj].distance,
                    }),
                }) by {
                    assert(mid[jj].name_id == vectors0[jj].name_id);
                }
            }
            k2 = k2 + 1;
        }
        Ok(())
    }

    /// Index of the shard's replica set, tied to [`spec_shard_index`].
    fn shard_index_checked(&self, id: ShardId) -> (r: Option<usize>)
        requires
            self.wf(),
        ensures
            match r {
                Some(i) => 0 <= i < self.spec_shards().len() && self.spec_shards()[
                    i as int
                ].shard_id == id && i as int == spec_shard_index(self.spec_shards(), id),
                None => !self.shards_holder.spec_contains_shard(id),
            },
    {
        match self.shards_holder.find_shard_index(id) {
            Some(i) => {
                proof {
                    assert(self.spec_shards()[i as int].shard_id == id);
                    let j = spec_shard_index(self.spec_shards(), id);
                    assert(0 <= j < self.spec_shards().len() && self.spec_shards()[j].shard_id
                        == id) by {
                        assert(exists|k: int|
                            0 <= k < self.spec_shards().len() && self.spec_shards()[k].shard_id
                                == id) by {
                            assert(self.spec_shards()[i as int].shard_id == id);
                        }
                    }
                    if j != i as int {
                        assert(self.spec_shards()[j].shard_id != self.spec_shards()[
                            i as int
                        ].shard_id);
                    }
                }
                Some(i)
            },
            None => None,
        }
    }

    /// Record the outcome of a transfer task that finished on its own; the
    /// runtime that polled the task reports it here.
    pub fn on_transfer_task_finished(&mut self, key: &ShardTransferKey, success: bool)
        requires
            old(self).wf(),
        ensures
            final(self).wf(),
            same_core(old(self), final(self)),
            final(self).shards_holder == old(self).shards_holder,
            forall|k: ShardTransferKey|
                #[trigger] final(self).transfer_tasks.spec_task(k) == (if k == *key && old(self).transfer_tasks.spec_still_running(k) {
                    Some(
                        crate::transfer::TransferTaskEntry {
                            key: *key,
                            running: false,
                            outcome_success: success,
                            has_outcome: true,
                        },
                    )
                } else {
                    old(self).transfer_tasks.spec_task(k)
                }),
    {
        self.transfer_tasks.complete_task(key, success);
    }

    /// Abort a transfer while the shard-holder state is already in hand:
    /// stop the task, revert the destination replica of a still-registered
    /// transfer (Dead for a sync transfer, removed otherwise), unwrap the
    /// sender's proxy, and deregister the key. Aborting a transfer that is
    /// no longer registered changes nothing, so repeated aborts succeed.
    #[verifier::rlimit(100)]
    pub fn _abort_shard_transfer(&mut self, transfer_key: ShardTransferKey) -> (r: Result<
        (),
        CollectionError,
    >)
        requires
            old(self).wf(),
        ensures
            final(self).wf(),
            same_core(old(self), final(self)),
            !final(self).transfer_tasks.spec_still_running(transfer_key),
            forall|k: ShardTransferKey|
                k != transfer_key ==> #[trigger] final(self).transfer_tasks.spec_task(k) == old(self).transfer_tasks.spec_task(k),
            final(self).transfer_tasks.spec_task_result(transfer_key) == old(self).transfer_tasks.spec_task_result(transfer_key),
            final(self).spec_shards().len() == old(self).spec_shards().len(),
            forall|j: int|
                0 <= j < old(self).spec_shards().len() ==> (#[trigger] final(self).spec_shards()[
                    j
                ]).shard_id == old(self).spec_shards()[j].shard_id,
            forall|j: int|
                0 <= j < old(self).spec_shards().len() && old(self).spec_shards()[j].shard_id
                    != transfer_key.shard_id ==> (#[trigger] final(self).spec_shards()[j]) == old(self).spec_shards()[j],
            ({
                let i0 = spec_shard_index(old(self).spec_shards(), transfer_key.shard_id);
                let rs0 = old(self).spec_shards()[i0];
                let reg = spec_has_transfer_key(
                    old(self).shards_holder.shard_transfers@,
                    transfer_key,
                );
                let sync = spec_registered_sync(
                    old(self).shards_holder.shard_transfers@,
                    transfer_key,
                );
                let has_to = rs0.spec_has_peer(transfer_key.to);
                &&& (r is Ok <==> (old(self).shards_holder.spec_contains_shard(
                    transfer_key.shard_id,
                ) && !(reg && !sync && has_to && rs0.replicas@.len() <= 1)))
                &&& (r is Err ==> final(self).spec_shards() == old(self).spec_shards()
                    && final(self).shards_holder.shard_transfers@ == old(self).shards_holder.shard_transfers@)
                &&& (r is Err && !old(self).shards_holder.spec_contains_shard(
                    transfer_key.shard_id,
                ) ==> r->Err_0 is BadRequest)
                &&& (r is Err && old(self).shards_holder.spec_contains_shard(
                    transfer_key.shard_id,
                ) ==> r->Err_0 is BadInput)
                &&& (r is Ok ==> (forall|u: ShardTransfer|
                    #[trigger] final(self).shards_holder.shard_transfers@.contains(u) <==> (old(self).shards_holder.shard_transfers@.contains(u) && u.spec_key()
                        != transfer_key)))
                &&& (r is Ok && !reg ==> final(self).spec_shards() == old(self).spec_shards())
                &&& (r is Ok && reg ==> (forall|q: PeerId|
                    q != transfer_key.to ==> #[trigger] final(self).spec_shards()[
                        i0
                    ].spec_peer_state(q) == rs0.spec_peer_state(q)))
                &&& (r is Ok && reg && sync ==> final(self).spec_shards()[i0].spec_peer_state(
                    transfer_key.to,
                ) == (if has_to {
                    Some(ReplicaState::Dead)
                } else {
                    None
                }))
                &&& (r is Ok && reg && !sync ==> final(self).spec_shards()[
                    i0
                ].spec_peer_state(transfer_key.to) is None)
                &&& (r is Ok && reg ==> final(self).spec_shards()[i0].local == spec_abort_local(
                    rs0,
                    transfer_key,
                    old(self).this_peer_id,
                    sync,
                ))
                &&& (r is Ok && reg ==> final(self).spec_shards()[i0].replicas@.len()
                    == rs0.replicas@.len() - (if !sync && has_to {
                    1int
                } else {
                    0int
                }))
            }),
    {
        let _stopped = self.transfer_tasks.stop_if_exists(&transfer_key);

        let idx = match self.shard_index_checked(transfer_key.shard_id) {
            Some(idx) => idx,
            None => {
                return Err(
                    CollectionError::bad_request(
                        String::from_str("shard of the transfer does not exist"),
                    ),
                );
            },
        };

        let transfer = self.shards_holder.get_transfer(&transfer_key);
        proof {
            let reg0 = self.shards_holder.shard_transfers@;
            match transfer {
                Some(t) => {
                    let j = choose|j: int| 0 <= j < reg0.len() && reg0[j] == t;
                    assert(spec_has_transfer_key(reg0, transfer_key)) by {
                        assert(reg0[j].spec_key() == transfer_key);
                    }
                    if t.sync {
                        assert(spec_registered_sync(reg0, transfer_key)) by {
                            assert(reg0[j].spec_key() == transfer_key && reg0[j].sync);
                        }
                    } else {
                        if spec_registered_sync(reg0, transfer_key) {
                            let k = choose|k: int|
                                0 <= k < reg0.len() && reg0[k].spec_key() == transfer_key
                                    && reg0[k].sync;
                            if k != j {
                                assert(reg0[k].spec_key() != reg0[j].spec_key());
                            }
                        }
                    }
                },
                None => {
                    if spec_registered_sync(reg0, transfer_key) {
                        let k = choose|k: int|
                            0 <= k < reg0.len() && reg0[k].spec_key() == transfer_key
                                && reg0[k].sync;
                        assert(spec_has_transfer_key(reg0, transfer_key));
                    }
                },
            }
        }

        let t = match transfer {
            None => {
                // already finished or aborted: nothing is left to revert
                let fin = self.shards_holder.register_finish_transfer(&transfer_key);
                proof {
                    assert(fin is Ok);
                }
                return Ok(());
            },
            Some(t) => t,
        };
        let sync = t.sync;

        let ghost pre_shards = self.shards_holder.shards@;
        let this_peer = self.this_peer_id;
        let has_to = match self.shards_holder.shards[idx].peer_state(&transfer_key.to) {
            Some(_) => true,
            None => false,
        };
        if has_to {
            if sync {
                let rs = &mut self.shards_holder.shards[idx];
                let res = rs.set_replica_state(&transfer_key.to, ReplicaState::Dead);
                proof {
                    assert(res is Ok);
                }
            } else {
                if self.shards_holder.shards[idx].replicas.len() == 1 {
                    return Err(
                        CollectionError::bad_input(
                            String::from_str(
                                "cannot abort: the destination is the shard's only replica",
                            ),
                        ),
                    );
                }
                let rs = &mut self.shards_holder.shards[idx];
                let res = rs.remove_peer(transfer_key.to);
                proof {
                    assert(res is Ok);
                }
            }
        }
        let ghost mid_shards = self.shards_holder.shards@;
        if this_peer == transfer_key.from {
            let rs2 = &mut self.shards_holder.shards[idx];
            rs2.revert_proxy_to_local();
        }
        proof {
            let cur = self.shards_holder.shards@;
            assert(cur[idx as int].replicas@ == mid_shards[idx as int].replicas@);
            assert forall|q: PeerId|
                q != transfer_key.to implies cur[idx as int].spec_peer_state(q) == pre_shards[
                idx as int
            ].spec_peer_state(q) by {
                assert(mid_shards[idx as int].spec_peer_state(q) == pre_shards[
                    idx as int
                ].spec_peer_state(q));
            }
            assert(cur[idx as int].spec_peer_state(transfer_key.to) == mid_shards[
                idx as int
            ].spec_peer_state(transfer_key.to));
            assert forall|i: int, j: int|
                0 <= i < j < self.shards_holder.shards@.len()
                    implies self.shards_holder.shards@[i].shard_id
                != self.shards_holder.shards@[j].shard_id by {
                assert(pre_shards[i].shard_id != pre_shards[j].shard_id);
            }
            assert forall|s2: ShardId| #[trigger]
                self.shards_holder.ring.contains_shard(s2) implies exists|i: int|
                0 <= i < self.shards_holder.shards@.len() && self.shards_holder.shards@[
                    i
                ].shard_id == s2 by {
                let i = choose|i: int|
                    0 <= i < pre_shards.len() && pre_shards[i].shard_id == s2;
                assert(self.shards_holder.shards@[i].shard_id == s2);
            }
        }

        let fin = self.shards_holder.register_finish_transfer(&transfer_key);
        proof {
            assert(fin is Ok);
        }
        Ok(())
    }

    /// Abort a transfer: stop its task, revert the destination replica of a
    /// still-registered transfer per its `sync` flag, unwrap the sender's
    /// proxy, and deregister the key. Aborting a transfer that is no longer
    /// registered changes nothing, so repeated aborts succeed.
    pub fn abort_shard_transfer(&mut self, transfer_key: ShardTransferKey) -> (r: Result<
        (),
        CollectionError,
    >)
        requires
            old(self).wf(),
        ensures
            final(self).wf(),
            same_core(old(self), final(self)),
            !final(self).transfer_tasks.spec_still_running(transfer_key),
            forall|k: ShardTransferKey|
                k != transfer_key ==> #[trigger] final(self).transfer_tasks.spec_task(k) == old(self).transfer_tasks.spec_task(k),
            final(self).transfer_tasks.spec_task_result(transfer_key) == old(self).transfer_tasks.spec_task_result(transfer_key),
            final(self).spec_shards().len() == old(self).spec_shards().len(),
            forall|j: int|
                0 <= j < old(self).spec_shards().len() ==> (#[trigger] final(self).spec_shards()[
                    j
                ]).shard_id == old(self).spec_shards()[j].shard_id,
            forall|j: int|
                0 <= j < old(self).spec_shards().len() && old(self).spec_shards()[j].shard_id
                    != transfer_key.shard_id ==> (#[trigger] final(self).spec_shards()[j]) == old(self).spec_shards()[j],
            r is Ok ==> !spec_has_transfer_key(
                final(self).shards_holder.shard_transfers@,
                transfer_key,
            ),
            ({
                let i0 = spec_shard_index(old(self).spec_shards(), transfer_key.shard_id);
                let rs0 = old(self).spec_shards()[i0];
                let reg = spec_has_transfer_key(
                    old(self).shards_holder.shard_transfers@,
                    transfer_key,
                );
                let sync = spec_registered_sync(
                    old(self).shards_holder.shard_transfers@,
                    transfer_key,
                );
                let has_to = rs0.spec_has_peer(transfer_key.to);
                &&& (r is Ok <==> (old(self).shards_holder.spec_contains_shard(
                    transfer_key.shard_id,
                ) && !(reg && !sync && has_to && rs0.replicas@.len() <= 1)))
                &&& (r is Err ==> final(self).spec_shards() == old(self).spec_shards()
                    && final(self).shards_holder.shard_transfers@ == old(self).shards_holder.shard_transfers@)
                &&& (r is Ok ==> (forall|u: ShardTransfer|
                    #[trigger] final(self).shards_holder.shard_transfers@.contains(u) <==> (old(self).shards_holder.shard_transfers@.contains(u) && u.spec_key()
                        != transfer_key)))
                &&& (r is Ok && !reg ==> final(self).spec_shards() == old(self).spec_shards())
                &&& (r is Ok && reg ==> (forall|q: PeerId|
                    q != transfer_key.to ==> #[trigger] final(self).spec_shards()[
                        i0
                    ].spec_peer_state(q) == rs0.spec_peer_state(q)))
                &&& (r is Ok && reg && sync ==> final(self).spec_shards()[i0].spec_peer_state(
                    transfer_key.to,
                ) == (if has_to {
                    Some(ReplicaState::Dead)
                } else {
                    None
                }))
                &&& (r is Ok && reg && !sync ==> final(self).spec_shards()[
                    i0
                ].spec_peer_state(transfer_key.to) is None)
                &&& (r is Ok && reg ==> final(self).spec_shards()[i0].local == spec_abort_local(
                    rs0,
                    transfer_key,
                    old(self).this_peer_id,
                    sync,
                ))
            }),
    {
        let r = self._abort_shard_transfer(transfer_key);
        proof {
            if r is Ok {
                if spec_has_transfer_key(
                    self.shards_holder.shard_transfers@,
                    transfer_key,
                ) {
                    let k = choose|k: int|
                        0 <= k < self.shards_holder.shard_transfers@.len()
                            && self.shards_holder.shard_transfers@[k].spec_key()
                            == transfer_key;
                    assert(self.shards_holder.shard_transfers@.contains(
                        self.shards_holder.shard_transfers@[k],
                    ));
                }
            }
        }
        r
    }

    /// Consensus-driven change of one replica's state. Validates the
    /// expected current state, refuses to deactivate the last Active
    /// replica, terminates transfers related to a peer that went Dead, and
    /// — when this peer's own replica just died — asks for a sync transfer
    /// from the first Active peer.
    #[verifier::rlimit(100)]
    pub fn set_shard_replica_state(
        &mut self,
        shard_id: ShardId,
        peer_id: PeerId,
        state: ReplicaState,
        from_state: Option<ReplicaState>,
    ) -> (r: Result<Vec<CoordinatorAction>, CollectionError>)
        requires
            old(self).wf(),
        ensures
            final(self).wf(),
            final(self).id == old(self).id,
            final(self).this_peer_id == old(self).this_peer_id,
            final(self).collection_config == old(self).collection_config,
            final(self).node_type == old(self).node_type,
            r is Err ==> final(self).is_initialized == old(self).is_initialized,
            r is Ok ==> final(self).is_initialized == (old(self).is_initialized
                || spec_all_replicas_active(final(self).spec_shards())),
            final(self).spec_shards().len() == old(self).spec_shards().len(),
            forall|j: int|
                0 <= j < old(self).spec_shards().len() ==> (#[trigger] final(self).spec_shards()[
                    j
                ]).shard_id == old(self).spec_shards()[j].shard_id,
            forall|j: int|
                0 <= j < old(self).spec_shards().len() && old(self).spec_shards()[j].shard_id
                    != shard_id ==> (#[trigger] final(self).spec_shards()[j]) == old(self).spec_shards()[j],
            ({
                let i0 = spec_shard_index(old(self).spec_shards(), shard_id);
                let rs0 = old(self).spec_shards()[i0];
                let related0 = spec_related_transfers(
                    old(self).shards_holder.shard_transfers@,
                    shard_id,
                    peer_id,
                );
                &&& (!old(self).shards_holder.spec_contains_shard(shard_id) ==> r is Err
                    && r->Err_0 is NotFound && *final(self) == *old(self))
                &&& (old(self).shards_holder.spec_contains_shard(shard_id) && from_state is Some
                    && rs0.spec_peer_state(peer_id) != from_state ==> r is Err
                    && r->Err_0 is BadInput && *final(self) == *old(self))
                &&& (old(self).shards_holder.spec_contains_shard(shard_id) && (
                from_state is Some ==> rs0.spec_peer_state(peer_id) == from_state) && state
                    != ReplicaState::Active && rs0.spec_is_last_active(peer_id) ==> r is Err
                    && r->Err_0 is BadInput && *final(self) == *old(self))
                &&& (r is Ok ==> old(self).shards_holder.spec_contains_shard(shard_id) && (
                from_state is Some ==> rs0.spec_peer_state(peer_id) == from_state) && (state
                    != ReplicaState::Active ==> !rs0.spec_is_last_active(peer_id)))
                &&& (r is Ok && state != ReplicaState::Dead ==> final(self).shards_holder.shard_transfers@ == old(self).shards_holder.shard_transfers@
                    && final(self).transfer_tasks == old(self).transfer_tasks)
                &&& (r is Ok && state != ReplicaState::Dead ==> final(self).spec_shards()[
                    i0
                ].spec_peer_state(peer_id) == Some(state) && final(self).spec_shards()[i0].local
                    == rs0.local)
                &&& (r is Ok && state != ReplicaState::Dead ==> (forall|q: PeerId|
                    q != peer_id ==> #[trigger] final(self).spec_shards()[i0].spec_peer_state(
                        q,
                    ) == rs0.spec_peer_state(q)))
                &&& (r is Ok ==> (forall|q: PeerId|
                    q != peer_id && (forall|t: int|
                        0 <= t < related0.len() ==> (#[trigger] related0[t]).to != q)
                        ==> #[trigger] final(self).spec_shards()[i0].spec_peer_state(q)
                        == rs0.spec_peer_state(q)))
                &&& (r is Ok && state == ReplicaState::Dead ==> (forall|u: ShardTransfer|
                    #[trigger] final(self).shards_holder.shard_transfers@.contains(u) <==> (old(self).shards_holder.shard_transfers@.contains(u) && !(u.shard_id == shard_id && (
                    u.from == peer_id || u.to == peer_id)))))
                &&& (r is Ok ==> r->Ok_0@ == spec_recovery_actions(
                    state,
                    peer_id,
                    old(self).this_peer_id,
                    shard_id,
                    final(self).spec_shards()[i0],
                ))
                &&& (r is Ok && (exists|a: PeerId|
                    #[trigger] rs0.spec_peer_state(a) == Some(ReplicaState::Active)) && (
                forall|t: int|
                    0 <= t < related0.len() ==> (rs0.spec_peer_state((#[trigger] related0[t]).to)
                        != Some(ReplicaState::Active) || related0[t].to == peer_id)) ==> exists|
                    a: PeerId,
                |
                    #[trigger] final(self).spec_shards()[i0].spec_peer_state(a) == Some(
                        ReplicaState::Active,
                    ))
                &&& (old(self).shards_holder.spec_contains_shard(shard_id) && (
                from_state is Some ==> rs0.spec_peer_state(peer_id) == from_state) && (state
                    != ReplicaState::Active ==> !rs0.spec_is_last_active(peer_id)) && (state
                    == ReplicaState::Dead ==> spec_dead_chain_ok(
                    rs0,
                    peer_id,
                    state,
                    related0,
                )) ==> r is Ok)
                &&& (r is Ok && state == ReplicaState::Dead ==> (forall|q: PeerId|
                    #[trigger] final(self).spec_shards()[i0].spec_peer_state(q)
                        == spec_dead_chain_state(rs0, peer_id, state, related0, q)))
                &&& (r is Ok && state == ReplicaState::Dead ==> (forall|t: int|
                    0 <= t < related0.len() ==> !final(self).transfer_tasks.spec_still_running(
                        (#[trigger] related0[t]).spec_key(),
                    ) && final(self).transfer_tasks.spec_task_result(related0[t].spec_key())
                        == old(self).transfer_tasks.spec_task_result(
                        related0[t].spec_key(),
                    )))
                &&& (r is Ok ==> (forall|kk: ShardTransferKey|
                    (forall|t: int|
                        0 <= t < related0.len() ==> (#[trigger] related0[t]).spec_key() != kk)
                        ==> #[trigger] final(self).transfer_tasks.spec_task(kk) == old(self).transfer_tasks.spec_task(kk)))
            }),
    {
        let idx = match self.shard_index_checked(shard_id) {
            Some(i) => i,
            None => {
                return Err(shard_not_found_error(shard_id));
            },
        };
        let current = self.shards_holder.shards[idx].peer_state(&peer_id);
        match from_state {
            Some(f) => {
                let matches_from = match current {
                    Some(c) => c == f,
                    None => false,
                };
                if !matches_from {
                    return Err(
                        CollectionError::bad_input(
                            String::from_str("replica is not in the state the request expects"),
                        ),
                    );
                }
            },
            None => {},
        }
        if !(matches!(state, ReplicaState::Active)) {
            if self.shards_holder.shards[idx].is_last_active(&peer_id) {
                proof {
                    reveal_strlit("Cannot deactivate the last active replica ");
                    reveal_strlit(" of shard ");
                }
                let mut msg = String::from_str("Cannot deactivate the last active replica ");
                let peer_s = u64_to_dec_string(peer_id);
                msg.append(peer_s.as_str());
                msg.append(" of shard ");
                let shard_s = u64_to_dec_string(shard_id as u64);
                msg.append(shard_s.as_str());
                return Err(CollectionError::bad_input(msg));
            }
        }
        let ghost pre_shards = self.shards_holder.shards@;
        let ghost pre_registry = self.shards_holder.shard_transfers@;
        {
            let rs = &mut self.shards_holder.shards[idx];
            rs.ensure_replica_with_state(&peer_id, state);
        }
        proof {
            assert forall|i: int, j: int|
                0 <= i < j < self.shards_holder.shards@.len()
                    implies self.shards_holder.shards@[i].shard_id
                != self.shards_holder.shards@[j].shard_id by {
                assert(pre_shards[i].shard_id != pre_shards[j].shard_id);
            }
            assert forall|s2: ShardId| #[trigger]
                self.shards_holder.ring.contains_shard(s2) implies exists|i: int|
                0 <= i < self.shards_holder.shards@.len() && self.shards_holder.shards@[
                    i
                ].shard_id == s2 by {
                let i = choose|i: int|
                    0 <= i < pre_shards.len() && pre_shards[i].shard_id == s2;
                assert(self.shards_holder.shards@[i].shard_id == s2);
            }
        }
        let ghost mid_shards = self.shards_holder.shards@;
        let mut actions: Vec<CoordinatorAction> = Vec::new();
        if matches!(state, ReplicaState::Dead) {
            let related = self.shards_holder.get_related_transfers(shard_id, &peer_id);
            proof {
                lemma_related_contains(pre_registry, shard_id, peer_id);
                lemma_related_unique_keys(pre_registry, shard_id, peer_id);
                assert forall|t: int|
                    0 <= t < related@.len() implies (#[trigger] related@[t]).shard_id
                    == shard_id && (related@[t].from == peer_id || related@[t].to
                    == peer_id) by {
                    assert(related@.contains(related@[t]));
                }
                assert(related@.take(0) =~= Seq::<ShardTransfer>::empty());
                assert forall|q: PeerId|
                    #[trigger] self.spec_shards()[idx as int].spec_peer_state(q)
                        == spec_dead_chain_state(
                        pre_shards[idx as int],
                        peer_id,
                        state,
                        related@.take(0),
                        q,
                    ) by {}
                assert(self.spec_shards()[idx as int].replicas@.len() == spec_dead_chain_len(
                    pre_shards[idx as int],
                    peer_id,
                    state,
                    related@.take(0),
                ));
            }
            let m = related.len();
            let mut k: usize = 0;
            while k < m
                invariant
                    0 <= k <= m,
                    m == related@.len(),
                    related@ == spec_related_transfers(pre_registry, shard_id, peer_id),
                    pre_shards == old(self).spec_shards(),
                    pre_registry == old(self).shards_holder.shard_transfers@,
                    old(self).shards_holder.spec_contains_shard(shard_id),
                    idx as int == spec_shard_index(old(self).spec_shards(), shard_id),
                    from_state is Some ==> pre_shards[idx as int].spec_peer_state(peer_id)
                        == from_state,
                    state == ReplicaState::Dead,
                    !pre_shards[idx as int].spec_is_last_active(peer_id),
                    forall|t: int|
                        0 <= t < m ==> (#[trigger] related@[t]).shard_id == shard_id && (
                        related@[t].from == peer_id || related@[t].to == peer_id),
                    self.wf(),
                    self.id == old(self).id,
                    self.this_peer_id == old(self).this_peer_id,
                    self.collection_config == old(self).collection_config,
                    self.node_type == old(self).node_type,
                    self.is_initialized == old(self).is_initialized,
                    self.spec_shards().len() == pre_shards.len(),
                    0 <= idx < pre_shards.len(),
                    forall|j: int|
                        0 <= j < pre_shards.len() ==> (#[trigger] self.spec_shards()[
                            j
                        ]).shard_id == pre_shards[j].shard_id,
                    pre_shards[idx as int].shard_id == shard_id,
                    forall|j: int|
                        0 <= j < pre_shards.len() && j != idx ==> (#[trigger] self.spec_shards()[
                            j
                        ]) == pre_shards[j],
                    forall|u: ShardTransfer|
                        #[trigger] self.shards_holder.shard_transfers@.contains(u) <==> (
                        pre_registry.contains(u) && !(exists|t: int|
                            0 <= t < k && (#[trigger] related@[t]).spec_key()
                                == u.spec_key())),
                    forall|q: PeerId|
                        (q != peer_id && (forall|t: int|
                            0 <= t < m ==> (#[trigger] related@[t]).to != q))
                            ==> #[trigger] self.spec_shards()[idx as int].spec_peer_state(q)
                            == mid_shards[idx as int].spec_peer_state(q),
                    forall|a: int, b: int|
                        0 <= a < b < m ==> related@[a].spec_key() != related@[b].spec_key(),
                    forall|q: PeerId|
                        #[trigger] self.spec_shards()[idx as int].spec_peer_state(q)
                            == spec_dead_chain_state(
                            pre_shards[idx as int],
                            peer_id,
                            state,
                            related@.take(k as int),
                            q,
                        ),
                    self.spec_shards()[idx as int].replicas@.len() == spec_dead_chain_len(
                        pre_shards[idx as int],
                        peer_id,
                        state,
                        related@.take(k as int),
                    ),
                    forall|t: int|
                        0 <= t < k ==> !self.transfer_tasks.spec_still_running(
                            (#[trigger] related@[t]).spec_key(),
                        ) && self.transfer_tasks.spec_task_result(related@[t].spec_key())
                            == old(self).transfer_tasks.spec_task_result(
                            related@[t].spec_key(),
                        ),
                    forall|kk: ShardTransferKey|
                        (forall|t: int|
                            0 <= t < k ==> (#[trigger] related@[t]).spec_key() != kk)
                            ==> #[trigger] self.transfer_tasks.spec_task(kk) == old(self).transfer_tasks.spec_task(kk),
                decreases m - k,
            {
                let key = related[k].key();
                let ghost loop_pre = *self;
                let step = self._abort_shard_transfer(key);
                proof {
                    lemma_related_contains(pre_registry, shard_id, peer_id);
                    assert(related@.contains(related@[k as int]));
                    assert(pre_registry.contains(related@[k as int]));
                    assert(loop_pre.shards_holder.shard_transfers@.contains(
                        related@[k as int],
                    )) by {
                        if exists|t: int|
                            0 <= t < k && (#[trigger] related@[t]).spec_key() == related@[
                                k as int
                            ].spec_key() {
                            let t = choose|t: int|
                                0 <= t < k && (#[trigger] related@[t]).spec_key() == related@[
                                    k as int
                                ].spec_key();
                            assert(related@[t].spec_key() != related@[k as int].spec_key());
                        }
                    }
                    assert(spec_has_transfer_key(
                        loop_pre.shards_holder.shard_transfers@,
                        key,
                    )) by {
                        let j = choose|j: int|
                            0 <= j < loop_pre.shards_holder.shard_transfers@.len()
                                && loop_pre.shards_holder.shard_transfers@[j] == related@[
                                k as int
                            ];
                        assert(loop_pre.shards_holder.shard_transfers@[j].spec_key() == key);
                    }
                    assert(spec_registered_sync(loop_pre.shards_holder.shard_transfers@, key)
                        == related@[k as int].sync) by {
                        let reg0 = loop_pre.shards_holder.shard_transfers@;
                        let j = choose|j: int|
                            0 <= j < reg0.len() && reg0[j] == related@[k as int];
                        if related@[k as int].sync {
                            assert(reg0[j].spec_key() == key && reg0[j].sync);
                        } else {
                            if spec_registered_sync(reg0, key) {
                                let i2 = choose|i2: int|
                                    0 <= i2 < reg0.len() && reg0[i2].spec_key() == key
                                        && reg0[i2].sync;
                                if i2 != j {
                                    assert(reg0[i2].spec_key() != reg0[j].spec_key());
                                }
                            }
                        }
                    }
                    assert(loop_pre.spec_shards()[idx as int].spec_peer_state(key.to)
                        == spec_dead_chain_state(
                        pre_shards[idx as int],
                        peer_id,
                        state,
                        related@.take(k as int),
                        key.to,
                    ));
                    assert(spec_shard_index(loop_pre.spec_shards(), key.shard_id)
                        == idx as int) by {
                        assert(loop_pre.spec_shards()[idx as int].shard_id == key.shard_id);
                        let j = spec_shard_index(loop_pre.spec_shards(), key.shard_id);
                        assert(0 <= j < loop_pre.spec_shards().len()
                            && loop_pre.spec_shards()[j].shard_id == key.shard_id) by {
                            assert(exists|i: int|
                                0 <= i < loop_pre.spec_shards().len()
                                    && loop_pre.spec_shards()[i].shard_id == key.shard_id) by {
                                assert(loop_pre.spec_shards()[idx as int].shard_id
                                    == key.shard_id);
                            }
                        }
                        if j != idx as int {
                            assert(loop_pre.spec_shards()[j].shard_id
                                != loop_pre.spec_shards()[idx as int].shard_id);
                        }
                    }
                }
                match step {
                    Ok(_) => {},
                    Err(e) => {
                        proof {
                            assert(self.spec_shards().len() == old(self).spec_shards().len());
                            assert forall|j: int|
                                0 <= j < old(self).spec_shards().len() implies (
                            #[trigger] self.spec_shards()[j]).shard_id == old(self).spec_shards()[j].shard_id by {
                                assert(loop_pre.spec_shards()[j].shard_id
                                    == pre_shards[j].shard_id);
                            }
                            let pre_rs = pre_shards[idx as int];
                            assert(loop_pre.shards_holder.spec_contains_shard(
                                key.shard_id,
                            )) by {
                                assert(loop_pre.spec_shards()[idx as int].shard_id
                                    == key.shard_id);
                            }
                            assert(!related@[k as int].sync);
                            assert(spec_dead_chain_state(
                                pre_rs,
                                peer_id,
                                state,
                                related@.take(k as int),
                                key.to,
                            ) is Some);
                            assert(spec_dead_chain_len(
                                pre_rs,
                                peer_id,
                                state,
                                related@.take(k as int),
                            ) <= 1);
                            assert(!spec_dead_chain_ok(
                                pre_rs,
                                peer_id,
                                state,
                                related@.take(k as int + 1),
                            )) by {
                                assert(related@.take(k as int + 1).drop_last()
                                    =~= related@.take(k as int));
                                assert(related@.take(k as int + 1).last() == related@[
                                    k as int
                                ]);
                            }
                            if spec_dead_chain_ok(pre_rs, peer_id, state, related@) {
                                lemma_dead_chain_ok_prefix(
                                    pre_rs,
                                    peer_id,
                                    state,
                                    related@,
                                    k as int + 1,
                                );
                            }
                        }
                        return Err(e);
                    },
                }
                proof {
                    assert forall|u: ShardTransfer|
                        #[trigger] self.shards_holder.shard_transfers@.contains(u) <==> (
                    pre_registry.contains(u) && !(exists|t: int|
                        0 <= t < k + 1 && (#[trigger] related@[t]).spec_key()
                            == u.spec_key())) by {
                        if self.shards_holder.shard_transfers@.contains(u) {
                            assert(loop_pre.shards_holder.shard_transfers@.contains(u)
                                && u.spec_key() != key);
                            assert(pre_registry.contains(u));
                            if exists|t: int|
                                0 <= t < k + 1 && (#[trigger] related@[t]).spec_key()
                                    == u.spec_key() {
                                let t = choose|t: int|
                                    0 <= t < k + 1 && (#[trigger] related@[t]).spec_key()
                                        == u.spec_key();
                                if t < k {
                                } else {
                                    assert(related@[k as int].spec_key() == key);
                                }
                            }
                        }
                        if pre_registry.contains(u) && !(exists|t: int|
                            0 <= t < k + 1 && (#[trigger] related@[t]).spec_key()
                                == u.spec_key()) {
                            assert(!(exists|t: int|
                                0 <= t < k && (#[trigger] related@[t]).spec_key()
                                    == u.spec_key()));
                            assert(loop_pre.shards_holder.shard_transfers@.contains(u));
                            assert(u.spec_key() != related@[k as int].spec_key());
                            assert(self.shards_holder.shard_transfers@.contains(u));
                        }
                    }
                    assert forall|q: PeerId|
                        (q != peer_id && (forall|t: int|
                            0 <= t < m ==> (#[trigger] related@[t]).to != q))
                            implies #[trigger] self.spec_shards()[idx as int].spec_peer_state(q)
                        == mid_shards[idx as int].spec_peer_state(q) by {
                        assert(related@[k as int].to != q);
                        assert(q != key.to);
                        assert(self.spec_shards()[idx as int].spec_peer_state(q)
                            == loop_pre.spec_shards()[idx as int].spec_peer_state(q));
                    }
                    let pre_rs = pre_shards[idx as int];
                    assert(related@.take(k as int + 1).drop_last() =~= related@.take(
                        k as int,
                    ));
                    assert(related@.take(k as int + 1).last() == related@[k as int]);
                    assert forall|q: PeerId|
                        #[trigger] self.spec_shards()[idx as int].spec_peer_state(q)
                            == spec_dead_chain_state(
                            pre_rs,
                            peer_id,
                            state,
                            related@.take(k as int + 1),
                            q,
                        ) by {
                        assert(loop_pre.spec_shards()[idx as int].spec_peer_state(q)
                            == spec_dead_chain_state(
                            pre_rs,
                            peer_id,
                            state,
                            related@.take(k as int),
                            q,
                        ));
                    }
                    assert(self.spec_shards()[idx as int].replicas@.len()
                        == spec_dead_chain_len(
                        pre_rs,
                        peer_id,
                        state,
                        related@.take(k as int + 1),
                    )) by {
                        assert(loop_pre.spec_shards()[idx as int].spec_peer_state(key.to)
                            == spec_dead_chain_state(
                            pre_rs,
                            peer_id,
                            state,
                            related@.take(k as int),
                            key.to,
                        ));
                    }
                    assert forall|t: int|
                        0 <= t < k + 1 implies !self.transfer_tasks.spec_still_running(
                        (#[trigger] related@[t]).spec_key(),
                    ) && self.transfer_tasks.spec_task_result(related@[t].spec_key())
                        == old(self).transfer_tasks.spec_task_result(
                        related@[t].spec_key(),
                    ) by {
                        if t < k {
                            assert(related@[t].spec_key() != key);
                        } else {
                            assert(loop_pre.transfer_tasks.spec_task(key)
                                == old(self).transfer_tasks.spec_task(key)) by {
                                assert forall|tt: int|
                                    0 <= tt < k implies (#[trigger] related@[tt]).spec_key()
                                    != key by {}
                            }
                        }
                    }
                    assert forall|kk: ShardTransferKey|
                        (forall|t: int|
                            0 <= t < k + 1 ==> (#[trigger] related@[t]).spec_key() != kk)
                            implies #[trigger] self.transfer_tasks.spec_task(kk) == old(self).transfer_tasks.spec_task(kk) by {
                        assert(related@[k as int].spec_key() != kk);
                        assert(kk != key);
                    }
                }
                k = k + 1;
            }
            proof {
                assert forall|u: ShardTransfer|
                    #[trigger] self.shards_holder.shard_transfers@.contains(u) <==> (
                pre_registry.contains(u) && !(u.shard_id == shard_id && (u.from == peer_id
                    || u.to == peer_id))) by {
                    if pre_registry.contains(u) && (u.shard_id == shard_id && (u.from
                        == peer_id || u.to == peer_id)) {
                        assert(related@.contains(u));
                        let t = choose|t: int| 0 <= t < related@.len() && related@[t] == u;
                        assert(related@[t].spec_key() == u.spec_key());
                    }
                    if pre_registry.contains(u) && !(u.shard_id == shard_id && (u.from
                        == peer_id || u.to == peer_id)) {
                        if exists|t: int|
                            0 <= t < m && (#[trigger] related@[t]).spec_key()
                                == u.spec_key() {
                            let t = choose|t: int|
                                0 <= t < m && (#[trigger] related@[t]).spec_key()
                                    == u.spec_key();
                            assert(related@.contains(related@[t]));
                            assert(pre_registry.contains(related@[t]));
                            let a = choose|a: int|
                                0 <= a < pre_registry.len() && pre_registry[a] == related@[t];
                            let b = choose|b: int|
                                0 <= b < pre_registry.len() && pre_registry[b] == u;
                            if a != b {
                                assert(pre_registry[a].spec_key()
                                    != pre_registry[b].spec_key());
                            }
                        }
                    }
                }
            }
        }
        if !self.is_initialized {
            if self.is_all_active() {
                self.is_initialized = true;
            }
        }
        if matches!(state, ReplicaState::Dead) && self.this_peer_id == peer_id {
            match self.shards_holder.shards[idx].first_active() {
                Some(f) => {
                    let transfer = ShardTransfer {
                        shard_id,
                        from: f,
                        to: self.this_peer_id,
                        sync: true,
                    };
                    actions.push(CoordinatorAction::RequestShardTransfer { transfer });
                    assert(actions@ =~= spec_recovery_actions(
                        state,
                        peer_id,
                        old(self).this_peer_id,
                        shard_id,
                        self.spec_shards()[idx as int],
                    ));
                },
                None => {},
            }
        }
        proof {
            let i0 = spec_shard_index(old(self).spec_shards(), shard_id);
            assert(i0 == idx as int);
            let rs0 = old(self).spec_shards()[i0];
            let related0 = spec_related_transfers(pre_registry, shard_id, peer_id);
            if (exists|a: PeerId|
                #[trigger] rs0.spec_peer_state(a) == Some(ReplicaState::Active)) && (forall|
                t: int,
            |
                0 <= t < related0.len() ==> (rs0.spec_peer_state((#[trigger] related0[t]).to)
                    != Some(ReplicaState::Active) || related0[t].to == peer_id)) {
                if state == ReplicaState::Active {
                    assert(self.spec_shards()[i0].spec_peer_state(peer_id) == Some(
                        ReplicaState::Active,
                    ));
                } else {
                    let a = choose|a: PeerId|
                        #[trigger] rs0.spec_peer_state(a) == Some(ReplicaState::Active);
                    if a == peer_id {
                        assert(!rs0.spec_is_last_active(peer_id));
                        let q = choose|q: PeerId|
                            q != peer_id && #[trigger] rs0.spec_peer_state(q) == Some(
                                ReplicaState::Active,
                            );
                        assert(self.spec_shards()[i0].spec_peer_state(q) == Some(
                            ReplicaState::Active,
                        ));
                    } else {
                        assert(self.spec_shards()[i0].spec_peer_state(a) == Some(
                            ReplicaState::Active,
                        ));
                    }
                }
            }
        }
        Ok(actions)
    }

    /// Start a shard transfer: register it, put the destination replica in
    /// Partial (building an empty local replica on the receiver), and — on
    /// the sender — wrap the local replica in a forward proxy and register
    /// the running task. Reports whether this peer is the one that sends.
    #[verifier::rlimit(100)]
    pub fn start_shard_transfer(&mut self, shard_transfer: ShardTransfer) -> (r: Result<
        bool,
        CollectionError,
    >)
        requires
            old(self).wf(),
            shard_transfer.from != shard_transfer.to,
        ensures
            final(self).wf(),
            same_core(old(self), final(self)),
            spec_has_transfer_key(
                old(self).shards_holder.shard_transfers@,
                shard_transfer.spec_key(),
            ) ==> r is Err && r->Err_0 is BadInput && *final(self) == *old(self),
            ({
                let dup = spec_has_transfer_key(
                    old(self).shards_holder.shard_transfers@,
                    shard_transfer.spec_key(),
                );
                let i0 = spec_shard_index(old(self).spec_shards(), shard_transfer.shard_id);
                let rs0 = old(self).spec_shards()[i0];
                let contains = old(self).shards_holder.spec_contains_shard(
                    shard_transfer.shard_id,
                );
                let receiver = old(self).this_peer_id == shard_transfer.to;
                let sender = old(self).this_peer_id == shard_transfer.from;
                let do_transfer = rs0.spec_is_local() && sender;
                &&& (!dup ==> final(self).shards_holder.shard_transfers@ == old(self).shards_holder.shard_transfers@.push(shard_transfer))
                &&& (!dup && !contains ==> r is Err && r->Err_0 is ServiceError && final(self).spec_shards() == old(self).spec_shards() && final(self).transfer_tasks == old(self).transfer_tasks)
                &&& (!dup && contains ==> (forall|j: int|
                    0 <= j < old(self).spec_shards().len() && j != i0 ==> (#[trigger] final(self).spec_shards()[j]) == old(self).spec_shards()[j]))
                &&& (!dup && contains ==> final(self).spec_shards()[i0].spec_peer_state(
                    shard_transfer.to,
                ) == Some(ReplicaState::Partial))
                &&& (!dup && contains ==> (forall|q: PeerId|
                    q != shard_transfer.to ==> #[trigger] final(self).spec_shards()[
                        i0
                    ].spec_peer_state(q) == rs0.spec_peer_state(q)))
                &&& (!dup && contains ==> final(self).spec_shards()[i0].local == (if !rs0.spec_is_local()
                    && receiver {
                    LocalReplica::Local
                } else if do_transfer && rs0.local is Local {
                    LocalReplica::ForwardProxy { to: shard_transfer.to }
                } else {
                    rs0.local
                }))
                &&& (!dup && contains && do_transfer && !(rs0.local is Local) ==> r is Err
                    && r->Err_0 is ServiceError)
                &&& (!dup && contains && (!do_transfer || rs0.local is Local) ==> r == Ok::<
                    bool,
                    CollectionError,
                >(do_transfer))
                &&& (!dup && contains && do_transfer && rs0.local is Local ==> (forall|
                    k: ShardTransferKey,
                |
                    #[trigger] final(self).transfer_tasks.spec_task(k) == (if k
                        == shard_transfer.spec_key() {
                        Some(
                            crate::transfer::TransferTaskEntry {
                                key: shard_transfer.spec_key(),
                                running: true,
                                outcome_success: false,
                                has_outcome: false,
                            },
                        )
                    } else {
                        old(self).transfer_tasks.spec_task(k)
                    })))
                &&& (!dup && contains && !(do_transfer && rs0.local is Local) ==> final(self).transfer_tasks == old(self).transfer_tasks)
            }),
    {
        let changed = match self.shards_holder.register_start_shard_transfer(shard_transfer) {
            Ok(b) => b,
            Err(e) => {
                return Err(e);
            },
        };
        if !changed {
            return Err(
                CollectionError::bad_input(
                    String::from_str("this shard transfer is already registered"),
                ),
            );
        }
        let idx = match self.shard_index_checked(shard_transfer.shard_id) {
            Some(i) => i,
            None => {
                return Err(
                    CollectionError::service_error(
                        String::from_str("shard of the transfer does not exist"),
                    ),
                );
            },
        };
        let is_local0 = self.shards_holder.shards[idx].is_local();
        let is_receiver = self.this_peer_id == shard_transfer.to;
        let is_sender = self.this_peer_id == shard_transfer.from;
        let ghost pre2 = self.shards_holder.shards@;
        if !is_local0 && is_receiver {
            let rs = &mut self.shards_holder.shards[idx];
            let res = rs.set_local(Some(ReplicaState::Partial));
            proof {
                assert(res is Ok);
            }
        } else {
            let rs = &mut self.shards_holder.shards[idx];
            rs.ensure_replica_with_state(&shard_transfer.to, ReplicaState::Partial);
        }
        proof {
            assert forall|i: int, j: int|
                0 <= i < j < self.shards_holder.shards@.len()
                    implies self.shards_holder.shards@[i].shard_id
                != self.shards_holder.shards@[j].shard_id by {
                assert(pre2[i].shard_id != pre2[j].shard_id);
            }
            assert forall|s2: ShardId| #[trigger]
                self.shards_holder.ring.contains_shard(s2) implies exists|i: int|
                0 <= i < self.shards_holder.shards@.len() && self.shards_holder.shards@[
                    i
                ].shard_id == s2 by {
                let i = choose|i: int| 0 <= i < pre2.len() && pre2[i].shard_id == s2;
                assert(self.shards_holder.shards@[i].shard_id == s2);
            }
        }
        let do_transfer = is_local0 && is_sender;
        if do_transfer {
            let ghost pre3 = self.shards_holder.shards@;
            let step = {
                let rs = &mut self.shards_holder.shards[idx];
                rs.proxify_local(shard_transfer.to)
            };
            proof {
                assert(self.shards_holder.shards@[idx as int].replicas@ == pre3[
                    idx as int
                ].replicas@);
                assert forall|q: PeerId|
                    #[trigger] self.shards_holder.shards@[idx as int].spec_peer_state(q)
                        == pre3[idx as int].spec_peer_state(q) by {}
                assert forall|i: int, j: int|
                    0 <= i < j < self.shards_holder.shards@.len()
                        implies self.shards_holder.shards@[i].shard_id
                    != self.shards_holder.shards@[j].shard_id by {
                    assert(pre3[i].shard_id != pre3[j].shard_id);
                }
                assert forall|s2: ShardId| #[trigger]
                    self.shards_holder.ring.contains_shard(s2) implies exists|i: int|
                    0 <= i < self.shards_holder.shards@.len() && self.shards_holder.shards@[
                        i
                    ].shard_id == s2 by {
                    let i = choose|i: int| 0 <= i < pre3.len() && pre3[i].shard_id == s2;
                    assert(self.shards_holder.shards@[i].shard_id == s2);
                }
            }
            match step {
                Ok(_) => {},
                Err(e) => {
                    assert(self.shards_holder.shards@ =~= pre3);
                    return Err(e);
                },
            }
            self.transfer_tasks.add_task(&shard_transfer);
        }
        Ok(do_transfer)
    }

    /// Complete a shard transfer on this peer, whatever its role: unwrap or
    /// retire the sender's proxy, promote the receiver's Partial replica to
    /// Active, retarget remote stubs after a sync transfer, and deregister
    /// the key. Completing the same transfer a second time changes nothing
    /// ([`lemma_finish_idempotent`]).
    #[verifier::rlimit(100)]
    pub fn finish_shard_transfer(&mut self, transfer: ShardTransfer) -> (r: Result<
        (),
        CollectionError,
    >)
        requires
            old(self).wf(),
            transfer.from != transfer.to,
        ensures
            final(self).wf(),
            same_core(old(self), final(self)),
            !final(self).transfer_tasks.spec_still_running(transfer.spec_key()),
            final(self).transfer_tasks.spec_task_result(transfer.spec_key()) == old(self).transfer_tasks.spec_task_result(transfer.spec_key()),
            forall|k: ShardTransferKey|
                k != transfer.spec_key() ==> #[trigger] final(self).transfer_tasks.spec_task(k)
                    == old(self).transfer_tasks.spec_task(k),
            final(self).spec_shards().len() == old(self).spec_shards().len(),
            forall|j: int|
                0 <= j < old(self).spec_shards().len() ==> (#[trigger] final(self).spec_shards()[
                    j
                ]).shard_id == old(self).spec_shards()[j].shard_id,
            !old(self).shards_holder.spec_contains_shard(transfer.shard_id) ==> r is Err
                && r->Err_0 is NotFound && final(self).spec_shards() == old(self).spec_shards()
                && final(self).shards_holder.shard_transfers@ == old(self).shards_holder.shard_transfers@,
            old(self).shards_holder.spec_contains_shard(transfer.shard_id) ==> r is Ok,
            old(self).shards_holder.spec_contains_shard(transfer.shard_id)
                ==> spec_finish_effect(*old(self), *final(self), transfer),
            ({
                let i0 = spec_shard_index(old(self).spec_shards(), transfer.shard_id);
                let rs0 = old(self).spec_shards()[i0];
                let this = old(self).this_peer_id;
                let contains = old(self).shards_holder.spec_contains_shard(transfer.shard_id);
                &&& (contains ==> (forall|u: ShardTransfer|
                    #[trigger] final(self).shards_holder.shard_transfers@.contains(u) <==> (old(self).shards_holder.shard_transfers@.contains(u) && u.spec_key()
                        != transfer.spec_key())))
                &&& (contains ==> (forall|j: int|
                    0 <= j < old(self).spec_shards().len() && j != i0 ==> (#[trigger] final(self).spec_shards()[j]) == old(self).spec_shards()[j]))
                &&& (contains ==> final(self).spec_shards()[i0].local == (if this
                    == transfer.from && rs0.local is ForwardProxy {
                    if transfer.sync {
                        LocalReplica::Absent
                    } else {
                        LocalReplica::Local
                    }
                } else {
                    rs0.local
                }))
                &&& (contains && this == transfer.to && rs0.spec_peer_state(this) == Some(
                    ReplicaState::Partial,
                ) ==> final(self).spec_shards()[i0].spec_peer_state(this) == Some(
                    ReplicaState::Active,
                ) && (forall|q: PeerId|
                    q != this ==> #[trigger] final(self).spec_shards()[i0].spec_peer_state(q)
                        == rs0.spec_peer_state(q)))
                &&& (contains && !(this == transfer.to && rs0.spec_peer_state(this) == Some(
                    ReplicaState::Partial,
                )) ==> final(self).spec_shards()[i0].replicas@ == rs0.replicas@)
                &&& (contains ==> (forall|q: PeerId|
                    #[trigger] final(self).spec_shards()[i0].remotes@.contains(q) <==> ({
                        let r1 = rs0.remotes@.contains(q) || (this == transfer.from
                            && rs0.local is ForwardProxy && transfer.sync && q == transfer.to);
                        if this != transfer.from && transfer.sync && transfer.to != this {
                            (r1 && q != transfer.from) || q == transfer.to
                        } else {
                            r1
                        }
                    })))
            }),
    {
        let key = transfer.key();
        let _stopped = self.transfer_tasks.stop_if_exists(&key);
        let idx = match self.shard_index_checked(transfer.shard_id) {
            Some(i) => i,
            None => {
                return Err(shard_not_found_error(transfer.shard_id));
            },
        };
        let ghost pre1 = self.shards_holder.shards@;
        if self.this_peer_id == transfer.from {
            let rs = &mut self.shards_holder.shards[idx];
            rs.handle_transferred_proxy(transfer.to, transfer.sync);
        }
        let ghost pre2 = self.shards_holder.shards@;
        if self.this_peer_id == transfer.to {
            let rs = &mut self.shards_holder.shards[idx];
            rs.finalize_partial();
        }
        let ghost pre3 = self.shards_holder.shards@;
        if self.this_peer_id != transfer.from {
            let rs = &mut self.shards_holder.shards[idx];
            rs.change_remote_route(transfer.from, transfer.to, transfer.sync);
        }
        proof {
            let cur = self.shards_holder.shards@;
            assert forall|q: PeerId|
                #[trigger] cur[idx as int].spec_peer_state(q) == pre3[
                idx as int
            ].spec_peer_state(q) by {
                assert(cur[idx as int].replicas@ == pre3[idx as int].replicas@);
            }
            assert forall|q: PeerId|
                #[trigger] pre3[idx as int].spec_peer_state(q) == pre2[
                idx as int
            ].spec_peer_state(q) || pre3[idx as int].spec_peer_state(q) != pre2[
                idx as int
            ].spec_peer_state(q) by {}
            assert forall|i: int, j: int|
                0 <= i < j < self.shards_holder.shards@.len()
                    implies self.shards_holder.shards@[i].shard_id
                != self.shards_holder.shards@[j].shard_id by {
                assert(pre1[i].shard_id != pre1[j].shard_id);
            }
            assert forall|s2: ShardId| #[trigger]
                self.shards_holder.ring.contains_shard(s2) implies exists|i: int|
                0 <= i < self.shards_holder.shards@.len() && self.shards_holder.shards@[
                    i
                ].shard_id == s2 by {
                let i = choose|i: int| 0 <= i < pre1.len() && pre1[i].shard_id == s2;
                assert(self.shards_holder.shards@[i].shard_id == s2);
            }
        }
        let fin = self.shards_holder.register_finish_transfer(&key);
        proof {
            assert(fin is Ok);
        }
        Ok(())
    }

    /// Prepare this peer for an incoming transfer of `shard_id`: unwrap a
    /// leftover proxy and materialize an empty local replica in place of a
    /// dummy. The caller then waits, bounded, for the consensus-broadcast
    /// transfer registry to name this peer as a destination.
    pub fn initiate_shard_transfer(&mut self, shard_id: ShardId) -> (r: Result<
        (),
        CollectionError,
    >)
        requires
            old(self).wf(),
        ensures
            final(self).wf(),
            same_core(old(self), final(self)),
            final(self).transfer_tasks == old(self).transfer_tasks,
            final(self).shards_holder.shard_transfers@ == old(self).shards_holder.shard_transfers@,
            !old(self).shards_holder.spec_contains_shard(shard_id) ==> r is Err
                && r->Err_0 is ServiceError && *final(self) == *old(self),
            old(self).shards_holder.spec_contains_shard(shard_id) ==> r is Ok,
            final(self).spec_shards().len() == old(self).spec_shards().len(),
            ({
                let i0 = spec_shard_index(old(self).spec_shards(), shard_id);
                let rs0 = old(self).spec_shards()[i0];
                let contains = old(self).shards_holder.spec_contains_shard(shard_id);
                &&& (contains ==> (forall|j: int|
                    0 <= j < old(self).spec_shards().len() && j != i0 ==> (#[trigger] final(self).spec_shards()[j]) == old(self).spec_shards()[j]))
                &&& (contains ==> final(self).spec_shards()[i0].replicas@ == rs0.replicas@)
                &&& (contains ==> final(self).spec_shards()[i0].remotes@ == rs0.remotes@)
                &&& (contains ==> final(self).spec_shards()[i0].local == (
                if rs0.local is ForwardProxy || rs0.local is Dummy {
                    LocalReplica::Local
                } else {
                    rs0.local
                }))
            }),
    {
        let idx = match self.shard_index_checked(shard_id) {
            Some(i) => i,
            None => {
                return Err(
                    CollectionError::service_error(
                        String::from_str("shard does not exist; repartition is not supported"),
                    ),
                );
            },
        };
        let ghost pre1 = self.shards_holder.shards@;
        if !self.shards_holder.shards[idx].is_local() {
            let rs = &mut self.shards_holder.shards[idx];
            rs.revert_proxy_to_local();
        }
        if self.shards_holder.shards[idx].is_dummy() {
            let rs = &mut self.shards_holder.shards[idx];
            let res = rs.init_empty_local_shard();
            proof {
                assert(res is Ok);
            }
        }
        proof {
            assert forall|i: int, j: int|
                0 <= i < j < self.shards_holder.shards@.len()
                    implies self.shards_holder.shards@[i].shard_id
                != self.shards_holder.shards@[j].shard_id by {
                assert(pre1[i].shard_id != pre1[j].shard_id);
            }
            assert forall|s2: ShardId| #[trigger]
                self.shards_holder.ring.contains_shard(s2) implies exists|i: int|
                0 <= i < self.shards_holder.shards@.len() && self.shards_holder.shards@[
                    i
                ].shard_id == s2 by {
                let i = choose|i: int| 0 <= i < pre1.len() && pre1[i].shard_id == s2;
                assert(self.shards_holder.shards@[i].shard_id == s2);
            }
        }
        Ok(())
    }

    /// The periodic quiescent-state reconciler: report finished or vanished
    /// outgoing transfers, activate replicas stuck in Initializing, align
    /// replicas with the node mode, and ask for recovery transfers for
    /// dead local replicas. Pure: the returned actions are handed to the
    /// consensus layer.
    #[verifier::rlimit(100)]
    pub fn sync_local_state(&self) -> (r: Vec<CoordinatorAction>)
        requires
            self.wf(),
        ensures
            r@ == spec_transfer_report_actions(
                spec_outgoing_transfers(self.shards_holder.shard_transfers@, self.this_peer_id),
                self.transfer_tasks,
            ) + spec_shard_maintenance_actions(
                self.spec_shards(),
                self.node_type,
                self.shards_holder.shard_transfers@,
            ),
    {
        let mut actions: Vec<CoordinatorAction> = Vec::new();
        let this_peer = self.this_peer_id;
        let outgoing = self.get_outgoing_transfers(&this_peer);
        let n = outgoing.len();
        let mut i: usize = 0;
        while i < n
            invariant
                0 <= i <= n,
                n == outgoing@.len(),
                actions@ == spec_transfer_report_actions(
                    outgoing@.take(i as int),
                    self.transfer_tasks,
                ),
            decreases n - i,
        {
            assert(outgoing@.take(i as int + 1).drop_last() =~= outgoing@.take(i as int));
            assert(outgoing@.take(i as int + 1).last() == outgoing@[i as int]);
            let t = outgoing[i];
            let key = t.key();
            match self.transfer_tasks.get_task_result(&key) {
                None => {
                    if !self.transfer_tasks.check_if_still_running(&key) {
                        actions.push(CoordinatorAction::ReportTransferFailure { transfer: t });
                    }
                },
                Some(ok) => {
                    if ok {
                        actions.push(
                            CoordinatorAction::ReportTransferSuccess { transfer: t },
                        );
                    } else {
                        actions.push(
                            CoordinatorAction::ReportTransferFailure { transfer: t },
                        );
                    }
                },
            }
            i = i + 1;
        }
        assert(outgoing@.take(n as int) =~= outgoing@);
        let ghost report_actions = actions@;

        let all_transfers = self.get_transfers();
        let m = self.shards_holder.shards.len();
        let mut s: usize = 0;
        while s < m
            invariant
                0 <= s <= m,
                self.wf(),
                m == self.spec_shards().len(),
                this_peer == self.this_peer_id,
                all_transfers@ == self.shards_holder.shard_transfers@,
                actions@ == report_actions + spec_shard_maintenance_actions(
                    self.spec_shards().take(s as int),
                    self.node_type,
                    self.shards_holder.shard_transfers@,
                ),
            decreases m - s,
        {
            assert(self.spec_shards().take(s as int + 1).drop_last() =~= self.spec_shards().take(
                s as int,
            ));
            assert(self.spec_shards().take(s as int + 1).last() == self.spec_shards()[
                s as int
            ]);
            let rs = &self.shards_holder.shards[s];
            assert(rs.this_peer_id == this_peer);
            let st = rs.peer_state(&this_peer);
            let is_init = matches!(st, Some(ReplicaState::Initializing));
            let is_active = matches!(st, Some(ReplicaState::Active));
            let is_listener_state = matches!(st, Some(ReplicaState::Listener));
            let is_dead = matches!(st, Some(ReplicaState::Dead));
            let node_listener = matches!(self.node_type, NodeType::Listener);
            if is_init {
                actions.push(
                    CoordinatorAction::FinishInit { peer_id: this_peer, shard_id: rs.shard_id },
                );
            } else if node_listener && is_active && !rs.is_last_active(&this_peer) {
                actions.push(
                    CoordinatorAction::ConvertToListener {
                        peer_id: this_peer,
                        shard_id: rs.shard_id,
                    },
                );
            } else if !node_listener && is_listener_state {
                actions.push(
                    CoordinatorAction::ConvertFromListener {
                        peer_id: this_peer,
                        shard_id: rs.shard_id,
                    },
                );
            } else if is_dead && !rs.is_dummy() {
                let actives = rs.active_remote_shards();
                match find_recovery_transfer(&actives, &all_transfers, rs.shard_id, this_peer) {
                    Some(transfer) => {
                        actions.push(CoordinatorAction::RequestShardTransfer { transfer });
                    },
                    None => {},
                }
            }
            s = s + 1;
        }
        assert(self.spec_shards().take(m as int) =~= self.spec_shards());
        actions
    }

    /// The clustering of this collection on this peer: the local replicas
    /// with their reported point counts, every remote replica, and the
    /// pending transfers, each list ordered by shard id. The counts come
    /// from the storage layer; a shard without a reported count shows zero.
    pub fn cluster_info(&self, peer_id: PeerId, local_counts: &Vec<(ShardId, u64)>) -> (r:
        CollectionClusterInfo)
        requires
            self.wf(),
        ensures
            r.peer_id == peer_id,
            r.shard_count == self.spec_shards().len(),
            r.shard_transfers@ == self.shards_holder.shard_transfers@,
            r.local_shards@ == spec_sort_locals(
                spec_local_infos(self.spec_shards(), local_counts@),
            ),
            r.remote_shards@ == spec_sort_remotes(spec_remote_infos(self.spec_shards())),
    {
        let shard_count = self.shards_holder.len();
        let shard_transfers = self.get_transfers();
        let mut locals: Vec<LocalShardInfo> = Vec::new();
        let mut remotes: Vec<RemoteShardInfo> = Vec::new();
        let n = self.shards_holder.shards.len();
        let mut i: usize = 0;
        while i < n
            invariant
                0 <= i <= n,
                self.wf(),
                n == self.spec_shards().len(),
                locals@ == spec_local_infos(self.spec_shards().take(i as int), local_counts@),
                remotes@ == spec_remote_infos(self.spec_shards().take(i as int)),
            decreases n - i,
        {
            assert(self.spec_shards().take(i as int + 1).drop_last() =~= self.spec_shards().take(
                i as int,
            ));
            assert(self.spec_shards().take(i as int + 1).last() == self.spec_shards()[
                i as int
            ]);
            let rs = &self.shards_holder.shards[i];
            if rs.has_local_shard() {
                let this_peer = rs.this_peer_id;
                let state = match rs.peer_state(&this_peer) {
                    Some(st) => st,
                    None => ReplicaState::Dead,
                };
                let points_count = count_for(local_counts, rs.shard_id);
                locals.push(LocalShardInfo { shard_id: rs.shard_id, points_count, state });
            }
            let ghost rpre = remotes@;
            let m = rs.replicas.len();
            let mut k: usize = 0;
            while k < m
                invariant
                    0 <= k <= m,
                    0 <= i < n,
                    n == self.spec_shards().len(),
                    m == self.spec_shards()[i as int].replicas@.len(),
                    rs == &self.shards_holder.shards[i as int],
                    remotes@ == rpre + spec_remote_infos_of(
                        self.spec_shards()[i as int].replicas@.take(k as int),
                        rs.shard_id,
                        rs.this_peer_id,
                    ),
                decreases m - k,
            {
                assert(rs.replicas@.take(k as int + 1).drop_last() =~= rs.replicas@.take(
                    k as int,
                ));
                assert(rs.replicas@.take(k as int + 1).last() == rs.replicas@[k as int]);
                let (p, st) = rs.replicas[k];
                if p != rs.this_peer_id {
                    remotes.push(
                        RemoteShardInfo { shard_id: rs.shard_id, peer_id: p, state: st },
                    );
                }
                k = k + 1;
            }
            assert(rs.replicas@.take(m as int) =~= rs.replicas@);
            i = i + 1;
        }
        assert(self.spec_shards().take(n as int) =~= self.spec_shards());

        let ln = locals.len();
        let mut sorted_locals: Vec<LocalShardInfo> = Vec::new();
        let mut li: usize = 0;
        while li < ln
            invariant
                0 <= li <= ln,
                ln == locals@.len(),
                sorted_locals@ == spec_sort_locals(locals@.take(li as int)),
            decreases ln - li,
        {
            assert(locals@.take(li as int + 1).drop_last() =~= locals@.take(li as int));
            assert(locals@.take(li as int + 1).last() == locals@[li as int]);
            sorted_locals = insert_local(sorted_locals, locals[li]);
            li = li + 1;
        }
        assert(locals@.take(ln as int) =~= locals@);

        let rn = remotes.len();
        let mut sorted_remotes: Vec<RemoteShardInfo> = Vec::new();
        let mut ri: usize = 0;
        while ri < rn
            invariant
                0 <= ri <= rn,
                rn == remotes@.len(),
                sorted_remotes@ == spec_sort_remotes(remotes@.take(ri as int)),
            decreases rn - ri,
        {
            assert(remotes@.take(ri as int + 1).drop_last() =~= remotes@.take(ri as int));
            assert(remotes@.take(ri as int + 1).last() == remotes@[ri as int]);
            sorted_remotes = insert_remote(sorted_remotes, remotes[ri]);
            ri = ri + 1;
        }
        assert(remotes@.take(rn as int) =~= remotes@);

        CollectionClusterInfo {
            peer_id,
            shard_count,
            local_shards: sorted_locals,
            remote_shards: sorted_remotes,
            shard_transfers,
        }
    }

    /// Telemetry of the coordinator; the startup duration is supplied by
    /// the runtime that measured it.
    pub fn get_telemetry_data(&self, init_time_ms: u64) -> (r: CollectionTelemetry)
        ensures
            r.id@ == self.id@,
            r.init_time_ms == init_time_ms,
            r.shard_count == self.spec_shards().len(),
            r.transfers@ == self.shards_holder.shard_transfers@,
    {
        CollectionTelemetry {
            id: self.name(),
            init_time_ms,
            shard_count: self.shards_holder.len(),
            transfers: self.get_transfers(),
        }
    }

    /// Fail with the shard-not-found error unless the shard exists.
    pub fn assert_shard_exists(&self, shard_id: ShardId) -> (r: Result<(), CollectionError>)
        ensures
            r is Ok <==> self.shards_holder.spec_contains_shard(shard_id),
            r is Err ==> r->Err_0 is NotFound,
    {
        if self.shards_holder.contains_shard(shard_id) {
            Ok(())
        } else {
            Err(shard_not_found_error(shard_id))
        }
    }

    /// Fail unless the shard exists and its replica on this peer is a
    /// usable local one.
    pub fn assert_shard_is_local(&self, shard_id: ShardId) -> (r: Result<(), CollectionError>)
        requires
            self.wf(),
        ensures
            r is Ok <==> exists|i: int|
                0 <= i < self.spec_shards().len() && (#[trigger] self.spec_shards()[
                    i
                ]).shard_id == shard_id && self.spec_shards()[i].spec_is_local(),
            r is Err && !self.shards_holder.spec_contains_shard(shard_id)
                ==> r->Err_0 is NotFound,
            r is Err && self.shards_holder.spec_contains_shard(shard_id)
                ==> r->Err_0 is BadInput,
    {
        match self.shard_index_checked(shard_id) {
            Some(i) => {
                if self.shards_holder.shards[i].is_local() {
                    assert((#[trigger] self.spec_shards()[i as int]).shard_id == shard_id
                        && self.spec_shards()[i as int].spec_is_local());
                    Ok(())
                } else {
                    proof {
                        if exists|k: int|
                            0 <= k < self.spec_shards().len() && (#[trigger] self.spec_shards()[
                                k
                            ]).shard_id == shard_id && self.spec_shards()[k].spec_is_local() {
                            let k = choose|k: int|
                                0 <= k < self.spec_shards().len() && (
                                #[trigger] self.spec_shards()[k]).shard_id == shard_id
                                    && self.spec_shards()[k].spec_is_local();
                            if k != i as int {
                                assert(self.spec_shards()[k].shard_id != self.spec_shards()[
                                    i as int
                                ].shard_id);
                            }
                        }
                    }
                    Err(
                        CollectionError::bad_input(
                            String::from_str("the shard is not a local shard on this peer"),
                        ),
                    )
                }
            },
            None => Err(shard_not_found_error(shard_id)),
        }
    }

    /// The directory of one shard's snapshots, after checking the shard is
    /// local here.
    pub fn get_snapshots_path_for_shard(&self, snapshots_path: &str, shard_id: ShardId) -> (r:
        Result<String, CollectionError>)
        requires
            self.wf(),
        ensures
            r is Ok <==> exists|i: int|
                0 <= i < self.spec_shards().len() && (#[trigger] self.spec_shards()[
                    i
                ]).shard_id == shard_id && self.spec_shards()[i].spec_is_local(),
            r is Err && !self.shards_holder.spec_contains_shard(shard_id)
                ==> r->Err_0 is NotFound,
            r is Err && self.shards_holder.spec_contains_shard(shard_id)
                ==> r->Err_0 is BadInput,
            r is Ok ==> r->Ok_0@ == crate::snapshot::spec_shard_snapshots_dir(
                snapshots_path@,
                shard_id,
            ),
    {
        match self.assert_shard_is_local(shard_id) {
            Ok(()) => Ok(
                crate::snapshot::snapshots_path_for_shard_unchecked(snapshots_path, shard_id),
            ),
            Err(e) => Err(e),
        }
    }

    /// The path a shard snapshot file would have, after checking the shard
    /// is local here and the file name is a single path component.
    pub fn get_shard_snapshot_path(
        &self,
        snapshots_path: &str,
        shard_id: ShardId,
        snapshot_file_name: &str,
    ) -> (r: Result<String, CollectionError>)
        requires
            self.wf(),
        ensures
            r is Ok <==> ((exists|i: int|
                0 <= i < self.spec_shards().len() && (#[trigger] self.spec_shards()[
                    i
                ]).shard_id == shard_id && self.spec_shards()[i].spec_is_local())
                && crate::snapshot::spec_valid_snapshot_file_name(
                snapshot_file_name.spec_bytes(),
            )),
            r is Err && !self.shards_holder.spec_contains_shard(shard_id)
                ==> r->Err_0 is NotFound,
            r is Err && self.shards_holder.spec_contains_shard(shard_id)
                ==> r->Err_0 is BadInput,
            r is Ok ==> r->Ok_0@ == crate::snapshot::spec_shard_snapshots_dir(
                snapshots_path@,
                shard_id,
            ) + seq!['/'] + snapshot_file_name@,
    {
        match self.assert_shard_is_local(shard_id) {
            Ok(()) => crate::snapshot::shard_snapshot_path_unchecked(
                snapshots_path,
                shard_id,
                snapshot_file_name,
            ),
            Err(e) => Err(e),
        }
    }

    /// Remove every replica this peer knows of at `peer_id`, shard by
    /// shard; a shard that does not hold the peer is left alone, and a
    /// shard whose only replica it is rejects the removal.
    pub fn remove_shards_at_peer(&mut self, peer_id: PeerId) -> (r: Result<
        (),
        CollectionError,
    >)
        requires
            old(self).wf(),
        ensures
            final(self).wf(),
            same_core(old(self), final(self)),
            final(self).shards_holder.shard_transfers@ == old(self).shards_holder.shard_transfers@,
            final(self).transfer_tasks == old(self).transfer_tasks,
            final(self).spec_shards().len() == old(self).spec_shards().len(),
            r is Err ==> r->Err_0 is BadInput,
            r is Ok <==> (forall|i: int|
                0 <= i < old(self).spec_shards().len() ==> !((#[trigger] old(self).spec_shards()[
                    i
                ]).spec_peer_state(peer_id) is Some && old(self).spec_shards()[
                    i
                ].replicas@.len() == 1)),
            r is Ok ==> (forall|i: int, q: PeerId|
                0 <= i < final(self).spec_shards().len() ==> (#[trigger] final(self).spec_shards()[
                    i
                ].spec_peer_state(q)) == (if q == peer_id {
                    None
                } else {
                    old(self).spec_shards()[i].spec_peer_state(q)
                })),
            r is Ok ==> (forall|i: int|
                0 <= i < final(self).spec_shards().len() ==> (#[trigger] final(self).spec_shards()[i]).spec_peer_state(peer_id) is None),
    {
        let ghost pre_shards = self.shards_holder.shards@;
        let n = self.shards_holder.shards.len();
        let mut i: usize = 0;
        while i < n
            invariant
                0 <= i <= n,
                pre_shards == old(self).spec_shards(),
                self.wf(),
                same_core(old(self), self),
                n == self.spec_shards().len(),
                n == old(self).spec_shards().len(),
                self.shards_holder.shard_transfers@ == old(self).shards_holder.shard_transfers@,
                self.transfer_tasks == old(self).transfer_tasks,
                forall|j: int|
                    0 <= j < i ==> (#[trigger] self.spec_shards()[j]).spec_peer_state(
                        peer_id,
                    ) is None,
                forall|j: int|
                    i <= j < n ==> (#[trigger] self.spec_shards()[j]) == pre_shards[j],
                forall|j: int, q: PeerId|
                    0 <= j < i ==> (#[trigger] self.spec_shards()[j].spec_peer_state(q)) == (
                    if q == peer_id {
                        None
                    } else {
                        pre_shards[j].spec_peer_state(q)
                    }),
                forall|j: int|
                    0 <= j < i ==> !((#[trigger] pre_shards[j]).spec_peer_state(
                        peer_id,
                    ) is Some && pre_shards[j].replicas@.len() == 1),
            decreases n - i,
        {
            let present = match self.shards_holder.shards[i].peer_state(&peer_id) {
                Some(_) => true,
                None => false,
            };
            if present {
                if self.shards_holder.shards[i].replicas.len() == 1 {
                    proof {
                        assert(pre_shards[i as int].spec_peer_state(peer_id) is Some
                            && pre_shards[i as int].replicas@.len() == 1);
                    }
                    return Err(
                        CollectionError::bad_input(
                            String::from_str("a shard must keep at least one replica"),
                        ),
                    );
                }
                let ghost pre = self.shards_holder.shards@;
                let res = {
                    let rs = &mut self.shards_holder.shards[i];
                    rs.remove_peer(peer_id)
                };
                proof {
                    assert(res is Ok);
                    assert forall|a: int, b: int|
                        0 <= a < b < self.shards_holder.shards@.len()
                            implies self.shards_holder.shards@[a].shard_id
                        != self.shards_holder.shards@[b].shard_id by {
                        assert(pre[a].shard_id != pre[b].shard_id);
                    }
                    assert forall|s2: ShardId| #[trigger]
                        self.shards_holder.ring.contains_shard(s2) implies exists|a: int|
                        0 <= a < self.shards_holder.shards@.len()
                            && self.shards_holder.shards@[a].shard_id == s2 by {
                        let a = choose|a: int|
                            0 <= a < pre.len() && pre[a].shard_id == s2;
                        assert(self.shards_holder.shards@[a].shard_id == s2);
                    }
                }
            }
            i = i + 1;
        }
        Ok(())
    }

    /// Aggregate the per-shard infos into the collection's info: the worst
    /// statuses win, counters are summed and the payload schemas merged
    /// field by field. With no target shard at all the request fails.
    pub fn info(&self, shard_infos: Vec<CollectionInfo>) -> (r: Result<
        CollectionInfo,
        CollectionError,
    >)
        ensures
            r is Ok <==> shard_infos@.len() > 0,
            r is Err ==> r->Err_0 is ServiceError,
            r is Ok ==> {
                let scalars = spec_aggregate_scalars(shard_infos@);
                &&& r->Ok_0.status == scalars.0
                &&& r->Ok_0.optimizer_status == scalars.1
                &&& r->Ok_0.vectors_count == scalars.2
                &&& r->Ok_0.indexed_vectors_count == scalars.3
                &&& r->Ok_0.points_count == scalars.4
                &&& r->Ok_0.segments_count == scalars.5
                &&& r->Ok_0.payload_schema@ == spec_aggregate_schema(shard_infos@)
            },
    {
        let mut shard_infos = shard_infos;
        let ghost infos0 = shard_infos@;
        if shard_infos.len() == 0 {
            return Err(
                CollectionError::service_error(
                    String::from_str("there are no shards for the selected collection"),
                ),
            );
        }
        let n = shard_infos.len();
        let mut first = shard_infos.remove(0);
        let ghost head = infos0[0];
        let mut i: usize = 1;
        while i < n
            invariant
                1 <= i <= n,
                n == infos0.len(),
                shard_infos@ == infos0.skip(1),
                ({
                    let scalars = spec_aggregate_scalars(infos0.take(i as int));
                    &&& first.status == scalars.0
                    &&& first.optimizer_status == scalars.1
                    &&& first.vectors_count == scalars.2
                    &&& first.indexed_vectors_count == scalars.3
                    &&& first.points_count == scalars.4
                    &&& first.segments_count == scalars.5
                    &&& first.payload_schema@ == spec_aggregate_schema(infos0.take(i as int))
                }),
            decreases n - i,
        {
            assert(infos0.take(i as int + 1).drop_last() =~= infos0.take(i as int));
            assert(infos0.take(i as int + 1).last() == infos0[i as int]);
            assert(infos0.take(1)[0] == infos0[0]);
            let inc = &shard_infos[i - 1];
            assert(*inc == infos0[i as int]);
            let status = match (first.status, inc.status) {
                (CollectionStatus::Red, _) => CollectionStatus::Red,
                (_, CollectionStatus::Red) => CollectionStatus::Red,
                (CollectionStatus::Yellow, _) => CollectionStatus::Yellow,
                (_, CollectionStatus::Yellow) => CollectionStatus::Yellow,
                _ => CollectionStatus::Green,
            };
            let optimizer_status = match (first.optimizer_status, inc.optimizer_status) {
                (OptimizersStatus::Working, OptimizersStatus::Working) => {
                    OptimizersStatus::Working
                },
                _ => OptimizersStatus::Error,
            };
            first.status = status;
            first.optimizer_status = optimizer_status;
            first.vectors_count = first.vectors_count.wrapping_add(inc.vectors_count);
            first.indexed_vectors_count = first.indexed_vectors_count.wrapping_add(
                inc.indexed_vectors_count,
            );
            first.points_count = first.points_count.wrapping_add(inc.points_count);
            first.segments_count = first.segments_count.wrapping_add(inc.segments_count);
            let mut schema = Vec::new();
            std::mem::swap(&mut schema, &mut first.payload_schema);
            let inc_schema = &shard_infos[i - 1].payload_schema;
            let m = inc_schema.len();
            let mut k: usize = 0;
            while k < m
                invariant
                    0 <= k <= m,
                    1 <= i < n,
                    n == infos0.len(),
                    shard_infos@ == infos0.skip(1),
                    inc_schema == &shard_infos@[i - 1].payload_schema,
                    m == inc_schema@.len(),
                    schema@ == spec_merge_schema(
                        spec_aggregate_schema(infos0.take(i as int)),
                        inc_schema@.take(k as int),
                    ),
                decreases m - k,
            {
                assert(inc_schema@.take(k as int + 1).drop_last() =~= inc_schema@.take(
                    k as int,
                ));
                assert(inc_schema@.take(k as int + 1).last() == inc_schema@[k as int]);
                schema = add_schema_entry(schema, inc_schema[k]);
                k = k + 1;
            }
            assert(inc_schema@.take(m as int) =~= inc_schema@);
            first.payload_schema = schema;
            i = i + 1;
        }
        assert(infos0.take(n as int) =~= infos0);
        Ok(first)
    }

    /// Reconcile this peer to a consensus-broadcast state: stop and
    /// deregister the transfers whose key the state no longer carries,
    /// register the ones it newly carries, adopt the broadcast replica
    /// states, and adopt the broadcast configuration. The replica map of
    /// the broadcast is authoritative, so a deregistered transfer's
    /// replicas are not separately reverted here. The keys of the dropped
    /// transfers are returned so the runtime can cancel their tasks.
    #[verifier::rlimit(100)]
    pub fn apply_state(&mut self, state: State) -> (r: Result<
        Vec<ShardTransferKey>,
        CollectionError,
    >)
        requires
            old(self).wf(),
        ensures
            final(self).wf(),
            final(self).id == old(self).id,
            final(self).this_peer_id == old(self).this_peer_id,
            final(self).node_type == old(self).node_type,
            final(self).spec_shards().len() == old(self).spec_shards().len(),
            r is Ok <==> (forall|k: int|
                0 <= k < state.shards@.len() ==> old(self).shards_holder.spec_contains_shard(
                    (#[trigger] state.shards@[k]).0,
                )),
            r is Err ==> r->Err_0 is BadRequest,
            r is Ok ==> spec_config_eq(final(self).collection_config, state.config),
            r is Ok ==> (forall|kk: ShardTransferKey|
                #[trigger] spec_has_transfer_key(final(self).shards_holder.shard_transfers@, kk)
                    <==> spec_has_transfer_key(state.transfers@, kk)),
            r is Ok ==> r->Ok_0@ == spec_stale_keys(
                old(self).shards_holder.shard_transfers@,
                state.transfers@,
            ),
            r is Ok ==> (forall|t: int|
                0 <= t < r->Ok_0@.len() ==> !final(self).transfer_tasks.spec_still_running(
                    #[trigger] r->Ok_0@[t],
                )),
            r is Ok ==> (forall|k: int, p: PeerId|
                0 <= k < state.shards@.len() && (forall|k2: int|
                    k < k2 < state.shards@.len() ==> (#[trigger] state.shards@[k2]).0
                        != state.shards@[k].0) && (#[trigger] spec_last_peer_entry(
                    state.shards@[k].1.replicas@,
                    p,
                )) is Some ==> exists|i: int|
                    0 <= i < final(self).spec_shards().len() && (#[trigger] final(self).spec_shards()[i]).shard_id == state.shards@[k].0 && final(self).spec_shards()[i].spec_peer_state(p) == spec_last_peer_entry(state.shards@[k].1.replicas@, p)),
    {
        let current = self.get_transfers();
        let mut aborted: Vec<ShardTransferKey> = Vec::new();
        let n = current.len();
        let mut i: usize = 0;
        while i < n
            invariant
                0 <= i <= n,
                self.wf(),
                self.id == old(self).id,
                self.this_peer_id == old(self).this_peer_id,
                self.node_type == old(self).node_type,
                self.collection_config == old(self).collection_config,
                self.spec_shards().len() == old(self).spec_shards().len(),
                forall|j: int|
                    0 <= j < old(self).spec_shards().len() ==> (#[trigger] self.spec_shards()[
                        j
                    ]).shard_id == old(self).spec_shards()[j].shard_id,
                n == current@.len(),
                current@ == old(self).shards_holder.shard_transfers@,
                aborted@ == spec_stale_keys(current@.take(i as int), state.transfers@),
                forall|u: ShardTransfer|
                    #[trigger] self.shards_holder.shard_transfers@.contains(u) <==> (
                    current@.contains(u) && (spec_has_transfer_key(
                        state.transfers@,
                        u.spec_key(),
                    ) || !(exists|j: int|
                        0 <= j < i && (#[trigger] current@[j]).spec_key()
                            == u.spec_key()))),
                forall|t: int|
                    0 <= t < aborted@.len() ==> !self.transfer_tasks.spec_still_running(
                        #[trigger] aborted@[t],
                    ),
            decreases n - i,
        {
            assert(current@.take(i as int + 1).drop_last() =~= current@.take(i as int));
            assert(current@.take(i as int + 1).last() == current@[i as int]);
            let key = current[i].key();
            let keep = {
                let m = state.transfers.len();
                let mut j: usize = 0;
                while j < m && !(state.transfers[j].shard_id == key.shard_id
                    && state.transfers[j].from == key.from && state.transfers[j].to
                    == key.to)
                    invariant
                        0 <= j <= m,
                        m == state.transfers@.len(),
                        forall|jj: int|
                            0 <= jj < j ==> (#[trigger] state.transfers@[jj]).spec_key()
                                != key,
                    decreases m - j,
                {
                    j = j + 1;
                }
                proof {
                    if j < m {
                        assert(state.transfers@[j as int].spec_key() == key);
                    } else {
                        if spec_has_transfer_key(state.transfers@, key) {
                            let jj = choose|jj: int|
                                0 <= jj < state.transfers@.len() && state.transfers@[
                                    jj
                                ].spec_key() == key;
                        }
                    }
                }
                j < m
            };
            if !keep {
                let _stopped = self.transfer_tasks.stop_if_exists(&key);
                let fin = self.shards_holder.register_finish_transfer(&key);
                proof {
                    assert(fin is Ok);
                }
                if self.this_peer_id == key.from {
                    // the broadcast replica map cannot restore the local
                    // slot, so a stale sender proxy is unwrapped here
                    match self.shards_holder.find_shard_index(key.shard_id) {
                        Some(sidx) => {
                            let ghost pre_sh = self.shards_holder.shards@;
                            {
                                let rs = &mut self.shards_holder.shards[sidx];
                                rs.revert_proxy_to_local();
                            }
                            proof {
                                assert forall|a: int, b: int|
                                    0 <= a < b < self.shards_holder.shards@.len()
                                        implies self.shards_holder.shards@[a].shard_id
                                    != self.shards_holder.shards@[b].shard_id by {
                                    assert(pre_sh[a].shard_id != pre_sh[b].shard_id);
                                }
                                assert forall|s2: ShardId| #[trigger]
                                    self.shards_holder.ring.contains_shard(
                                    s2,
                                ) implies exists|a: int|
                                    0 <= a < self.shards_holder.shards@.len()
                                        && self.shards_holder.shards@[a].shard_id == s2 by {
                                    let a = choose|a: int|
                                        0 <= a < pre_sh.len() && pre_sh[a].shard_id == s2;
                                    assert(self.shards_holder.shards@[a].shard_id == s2);
                                }
                            }
                        },
                        None => {},
                    }
                }
                aborted.push(key);
                proof {
                    assert(aborted@ =~= spec_stale_keys(
                        current@.take(i as int + 1),
                        state.transfers@,
                    ));
                    assert forall|t: int|
                        0 <= t < aborted@.len() implies !self.transfer_tasks.spec_still_running(
                        #[trigger] aborted@[t],
                    ) by {}
                }
            }
            proof {
                assert forall|u: ShardTransfer|
                    #[trigger] self.shards_holder.shard_transfers@.contains(u) <==> (
                current@.contains(u) && (spec_has_transfer_key(
                    state.transfers@,
                    u.spec_key(),
                ) || !(exists|j: int|
                    0 <= j < i + 1 && (#[trigger] current@[j]).spec_key()
                        == u.spec_key()))) by {
                    if current@.contains(u) {
                        if exists|j: int|
                            0 <= j < i + 1 && (#[trigger] current@[j]).spec_key()
                                == u.spec_key() {
                            let j = choose|j: int|
                                0 <= j < i + 1 && (#[trigger] current@[j]).spec_key()
                                    == u.spec_key();
                            if j < i {
                            } else {
                                assert(current@[i as int].spec_key() == key);
                            }
                        }
                    }
                }
            }
            i = i + 1;
        }
        proof {
            assert(current@.take(n as int) =~= current@);
            assert forall|u: ShardTransfer|
                #[trigger] self.shards_holder.shard_transfers@.contains(u) <==> (
            current@.contains(u) && spec_has_transfer_key(
                state.transfers@,
                u.spec_key(),
            )) by {
                if current@.contains(u) && !spec_has_transfer_key(
                    state.transfers@,
                    u.spec_key(),
                ) {
                    let j = choose|j: int| 0 <= j < current@.len() && current@[j] == u;
                    assert(current@[j].spec_key() == u.spec_key());
                }
            }
        }
        let ghost after_drop = self.shards_holder.shard_transfers@;
        let ghost aborted_after_drop = aborted@;

        let sn = state.shards.len();
        let mut k: usize = 0;
        while k < sn
            invariant
                0 <= k <= sn,
                self.wf(),
                self.id == old(self).id,
                self.this_peer_id == old(self).this_peer_id,
                self.node_type == old(self).node_type,
                self.collection_config == old(self).collection_config,
                self.spec_shards().len() == old(self).spec_shards().len(),
                forall|j: int|
                    0 <= j < old(self).spec_shards().len() ==> (#[trigger] self.spec_shards()[
                        j
                    ]).shard_id == old(self).spec_shards()[j].shard_id,
                self.shards_holder.shard_transfers@ == after_drop,
                aborted@ == aborted_after_drop,
                forall|t: int|
                    0 <= t < aborted@.len() ==> !self.transfer_tasks.spec_still_running(
                        #[trigger] aborted@[t],
                    ),
                forall|k0: int|
                    0 <= k0 < k ==> old(self).shards_holder.spec_contains_shard(
                        (#[trigger] state.shards@[k0]).0,
                    ),
                sn == state.shards@.len(),
                forall|k0: int, p: PeerId|
                    0 <= k0 < k && (forall|k2: int|
                        k0 < k2 < sn ==> (#[trigger] state.shards@[k2]).0
                            != state.shards@[k0].0) && (#[trigger] spec_last_peer_entry(
                        state.shards@[k0].1.replicas@,
                        p,
                    )) is Some ==> exists|i2: int|
                        0 <= i2 < self.spec_shards().len() && (#[trigger] self.spec_shards()[
                            i2
                        ]).shard_id == state.shards@[k0].0 && self.spec_shards()[
                            i2
                        ].spec_peer_state(p) == spec_last_peer_entry(
                            state.shards@[k0].1.replicas@,
                            p,
                        ),
            decreases sn - k,
        {
            let shard_id = state.shards[k].0;
            let idx = match self.shard_index_checked(shard_id) {
                Some(idx) => idx,
                None => {
                    proof {
                        if old(self).shards_holder.spec_contains_shard(shard_id) {
                            let i2 = choose|i2: int|
                                0 <= i2 < old(self).spec_shards().len()
                                    && old(self).spec_shards()[i2].shard_id == shard_id;
                            assert(self.spec_shards()[i2].shard_id == shard_id);
                        }
                    }
                    return Err(
                        CollectionError::bad_request(
                            String::from_str(
                                "the broadcast state names a shard this peer does not hold",
                            ),
                        ),
                    );
                },
            };
            let replicas = &state.shards[k].1.replicas;
            let m = replicas.len();
            let mut t: usize = 0;
            while t < m
                invariant
                    0 <= t <= m,
                    self.wf(),
                    self.id == old(self).id,
                    self.this_peer_id == old(self).this_peer_id,
                    self.node_type == old(self).node_type,
                    self.collection_config == old(self).collection_config,
                    self.spec_shards().len() == old(self).spec_shards().len(),
                    forall|j: int|
                        0 <= j < old(self).spec_shards().len() ==> (
                        #[trigger] self.spec_shards()[j]).shard_id == old(self).spec_shards()[j].shard_id,
                    self.shards_holder.shard_transfers@ == after_drop,
                    aborted@ == aborted_after_drop,
                    forall|tt: int|
                        0 <= tt < aborted@.len() ==> !self.transfer_tasks.spec_still_running(
                            #[trigger] aborted@[tt],
                        ),
                    0 <= k < sn,
                    sn == state.shards@.len(),
                    0 <= idx < self.spec_shards().len(),
                    replicas == &state.shards@[k as int].1.replicas,
                    m == replicas@.len(),
                    shard_id == state.shards@[k as int].0,
                    self.spec_shards()[idx as int].shard_id == shard_id,
                    forall|i2: int, j2: int|
                        0 <= i2 < j2 < self.spec_shards().len() ==> self.spec_shards()[
                            i2
                        ].shard_id != self.spec_shards()[j2].shard_id,
                    forall|p: PeerId|
                        (#[trigger] spec_last_peer_entry(
                            replicas@.take(t as int),
                            p,
                        )) is Some ==> self.spec_shards()[idx as int].spec_peer_state(p)
                            == spec_last_peer_entry(replicas@.take(t as int), p),
                    forall|k0: int, p: PeerId|
                        0 <= k0 < k && (forall|k2: int|
                            k0 < k2 < sn ==> (#[trigger] state.shards@[k2]).0
                                != state.shards@[k0].0) && (#[trigger] spec_last_peer_entry(
                            state.shards@[k0].1.replicas@,
                            p,
                        )) is Some ==> exists|i2: int|
                            0 <= i2 < self.spec_shards().len() && (
                            #[trigger] self.spec_shards()[i2]).shard_id == state.shards@[
                                k0
                            ].0 && self.spec_shards()[i2].spec_peer_state(p)
                                == spec_last_peer_entry(state.shards@[k0].1.replicas@, p),
                decreases m - t,
            {
                assert(replicas@.take(t as int + 1).drop_last() =~= replicas@.take(t as int));
                assert(replicas@.take(t as int + 1).last() == replicas@[t as int]);
                let (p, st) = replicas[t];
                let ghost pre = self.shards_holder.shards@;
                {
                    let rs = &mut self.shards_holder.shards[idx];
                    rs.ensure_replica_with_state(&p, st);
                }
                proof {
                    assert forall|a: int, b: int|
                        0 <= a < b < self.shards_holder.shards@.len()
                            implies self.shards_holder.shards@[a].shard_id
                        != self.shards_holder.shards@[b].shard_id by {
                        assert(pre[a].shard_id != pre[b].shard_id);
                    }
                    assert forall|s2: ShardId| #[trigger]
                        self.shards_holder.ring.contains_shard(s2) implies exists|a: int|
                        0 <= a < self.shards_holder.shards@.len()
                            && self.shards_holder.shards@[a].shard_id == s2 by {
                        let a = choose|a: int|
                            0 <= a < pre.len() && pre[a].shard_id == s2;
                        assert(self.shards_holder.shards@[a].shard_id == s2);
                    }
                    assert forall|p0: PeerId|
                        (#[trigger] spec_last_peer_entry(
                            replicas@.take(t as int + 1),
                            p0,
                        )) is Some implies self.spec_shards()[idx as int].spec_peer_state(p0)
                        == spec_last_peer_entry(replicas@.take(t as int + 1), p0) by {
                        if p0 == p {
                            assert(replicas@.take(t as int + 1).last().0 == p0);
                        } else {
                            assert(spec_last_peer_entry(replicas@.take(t as int + 1), p0)
                                == spec_last_peer_entry(replicas@.take(t as int), p0));
                            assert(self.spec_shards()[idx as int].spec_peer_state(p0)
                                == pre[idx as int].spec_peer_state(p0));
                            assert(pre[idx as int].spec_peer_state(p0)
                                == spec_last_peer_entry(replicas@.take(t as int), p0) || !(
                            spec_last_peer_entry(replicas@.take(t as int), p0) is Some));
                        }
                    }
                    assert forall|k0: int, p0: PeerId|
                        0 <= k0 < k && (forall|k2: int|
                            k0 < k2 < sn ==> (#[trigger] state.shards@[k2]).0
                                != state.shards@[k0].0) && (#[trigger] spec_last_peer_entry(
                            state.shards@[k0].1.replicas@,
                            p0,
                        )) is Some implies exists|i2: int|
                        0 <= i2 < self.spec_shards().len() && (#[trigger] self.spec_shards()[
                            i2
                        ]).shard_id == state.shards@[k0].0 && self.spec_shards()[
                            i2
                        ].spec_peer_state(p0) == spec_last_peer_entry(
                        state.shards@[k0].1.replicas@,
                        p0,
                    ) by {
                        let i2 = choose|i2: int|
                            0 <= i2 < pre.len() && (#[trigger] pre[i2]).shard_id
                                == state.shards@[k0].0 && pre[i2].spec_peer_state(p0)
                                == spec_last_peer_entry(state.shards@[k0].1.replicas@, p0);
                        assert(state.shards@[k0].0 != shard_id) by {
                            assert(state.shards@[k as int].0 != state.shards@[k0].0);
                        }
                        assert(i2 != idx as int);
                        assert(self.spec_shards()[i2] == pre[i2]);
                    }
                }
                t = t + 1;
            }
            proof {
                assert(replicas@.take(m as int) =~= replicas@);
                assert forall|k0: int, p0: PeerId|
                    0 <= k0 < k + 1 && (forall|k2: int|
                        k0 < k2 < sn ==> (#[trigger] state.shards@[k2]).0 != state.shards@[
                            k0
                        ].0) && (#[trigger] spec_last_peer_entry(
                        state.shards@[k0].1.replicas@,
                        p0,
                    )) is Some implies exists|i2: int|
                    0 <= i2 < self.spec_shards().len() && (#[trigger] self.spec_shards()[
                        i2
                    ]).shard_id == state.shards@[k0].0 && self.spec_shards()[
                        i2
                    ].spec_peer_state(p0) == spec_last_peer_entry(
                    state.shards@[k0].1.replicas@,
                    p0,
                ) by {
                    if k0 == k as int {
                        assert(self.spec_shards()[idx as int].shard_id == state.shards@[
                            k0
                        ].0);
                        assert(self.spec_shards()[idx as int].spec_peer_state(p0)
                            == spec_last_peer_entry(state.shards@[k0].1.replicas@, p0));
                    }
                }
                assert(old(self).shards_holder.spec_contains_shard(shard_id)) by {
                    assert(old(self).spec_shards()[idx as int].shard_id == shard_id);
                }
            }
            k = k + 1;
        }

        let bn = state.transfers.len();
        let mut b: usize = 0;
        while b < bn
            invariant
                0 <= b <= bn,
                self.wf(),
                self.id == old(self).id,
                self.this_peer_id == old(self).this_peer_id,
                self.node_type == old(self).node_type,
                self.collection_config == old(self).collection_config,
                self.spec_shards().len() == old(self).spec_shards().len(),
                bn == state.transfers@.len(),
                aborted@ == aborted_after_drop,
                forall|t: int|
                    0 <= t < aborted@.len() ==> !self.transfer_tasks.spec_still_running(
                        #[trigger] aborted@[t],
                    ),
                forall|k0: int, p: PeerId|
                    0 <= k0 < sn && (forall|k2: int|
                        k0 < k2 < sn ==> (#[trigger] state.shards@[k2]).0
                            != state.shards@[k0].0) && (#[trigger] spec_last_peer_entry(
                        state.shards@[k0].1.replicas@,
                        p,
                    )) is Some ==> exists|i2: int|
                        0 <= i2 < self.spec_shards().len() && (#[trigger] self.spec_shards()[
                            i2
                        ]).shard_id == state.shards@[k0].0 && self.spec_shards()[
                            i2
                        ].spec_peer_state(p) == spec_last_peer_entry(
                            state.shards@[k0].1.replicas@,
                            p,
                        ),
                sn == state.shards@.len(),
                forall|kk: ShardTransferKey|
                    #[trigger] spec_has_transfer_key(self.shards_holder.shard_transfers@, kk)
                        <==> (spec_has_transfer_key(after_drop, kk) || (exists|j: int|
                        0 <= j < b && (#[trigger] state.transfers@[j]).spec_key() == kk)),
                forall|u: ShardTransfer|
                    #[trigger] after_drop.contains(u) ==> spec_has_transfer_key(
                        state.transfers@,
                        u.spec_key(),
                    ),
            decreases bn - b,
        {
            let tr = state.transfers[b];
            let ghost pre_reg = self.shards_holder.shard_transfers@;
            let ghost pre_c = *self;
            let res = self.shards_holder.register_start_shard_transfer(tr);
            proof {
                assert(res is Ok);
                assert(self.spec_shards() == pre_c.spec_shards());
                assert forall|k0: int, p: PeerId|
                    0 <= k0 < sn && (forall|k2: int|
                        k0 < k2 < sn ==> (#[trigger] state.shards@[k2]).0
                            != state.shards@[k0].0) && (#[trigger] spec_last_peer_entry(
                        state.shards@[k0].1.replicas@,
                        p,
                    )) is Some implies exists|i2: int|
                    0 <= i2 < self.spec_shards().len() && (#[trigger] self.spec_shards()[
                        i2
                    ]).shard_id == state.shards@[k0].0 && self.spec_shards()[
                        i2
                    ].spec_peer_state(p) == spec_last_peer_entry(
                    state.shards@[k0].1.replicas@,
                    p,
                ) by {
                    let i2 = choose|i2: int|
                        0 <= i2 < pre_c.spec_shards().len() && (#[trigger] pre_c.spec_shards()[
                            i2
                        ]).shard_id == state.shards@[k0].0 && pre_c.spec_shards()[
                            i2
                        ].spec_peer_state(p) == spec_last_peer_entry(
                            state.shards@[k0].1.replicas@,
                            p,
                        );
                    assert(self.spec_shards()[i2] == pre_c.spec_shards()[i2]);
                }
                assert forall|kk: ShardTransferKey|
                    #[trigger] spec_has_transfer_key(self.shards_holder.shard_transfers@, kk)
                        <==> (spec_has_transfer_key(after_drop, kk) || (exists|j: int|
                        0 <= j < b + 1 && (#[trigger] state.transfers@[j]).spec_key()
                            == kk)) by {
                    if res->Ok_0 {
                        if spec_has_transfer_key(self.shards_holder.shard_transfers@, kk) {
                            let j = choose|j: int|
                                0 <= j < self.shards_holder.shard_transfers@.len()
                                    && self.shards_holder.shard_transfers@[j].spec_key()
                                    == kk;
                            if j < pre_reg.len() {
                                assert(pre_reg[j].spec_key() == kk);
                            } else {
                                assert(self.shards_holder.shard_transfers@[j]
                                    == tr);
                                assert(state.transfers@[b as int].spec_key() == kk);
                            }
                        }
                        if spec_has_transfer_key(pre_reg, kk) {
                            let j = choose|j: int|
                                0 <= j < pre_reg.len() && pre_reg[j].spec_key() == kk;
                            assert(self.shards_holder.shard_transfers@[j].spec_key()
                                == kk);
                        }
                        if kk == tr.spec_key() {
                            assert(self.shards_holder.shard_transfers@[pre_reg.len() as int]
                                == tr);
                        }
                    } else {
                        assert(spec_has_transfer_key(pre_reg, tr.spec_key()));
                        if exists|j: int|
                            0 <= j < b + 1 && (#[trigger] state.transfers@[j]).spec_key()
                                == kk {
                            let j = choose|j: int|
                                0 <= j < b + 1 && (#[trigger] state.transfers@[j]).spec_key()
                                    == kk;
                        }
                    }
                }
            }
            b = b + 1;
        }
        proof {
            assert forall|kk: ShardTransferKey|
                #[trigger] spec_has_transfer_key(self.shards_holder.shard_transfers@, kk)
                    <==> spec_has_transfer_key(state.transfers@, kk) by {
                if spec_has_transfer_key(after_drop, kk) {
                    let j = choose|j: int|
                        0 <= j < after_drop.len() && after_drop[j].spec_key() == kk;
                    assert(after_drop.contains(after_drop[j]));
                }
                if spec_has_transfer_key(state.transfers@, kk) {
                    let j = choose|j: int|
                        0 <= j < state.transfers@.len() && state.transfers@[j].spec_key()
                            == kk;
                }
            }
        }
        let ghost pre_cfg = *self;
        self.collection_config = clone_config(&state.config);
        proof {
            assert(self.collection_config.params.vectors@ == state.config.params.vectors@);
            assert(self.spec_shards() == pre_cfg.spec_shards());
            assert forall|k0: int, p: PeerId|
                0 <= k0 < sn && (forall|k2: int|
                    k0 < k2 < sn ==> (#[trigger] state.shards@[k2]).0 != state.shards@[
                        k0
                    ].0) && (#[trigger] spec_last_peer_entry(
                    state.shards@[k0].1.replicas@,
                    p,
                )) is Some implies exists|i2: int|
                0 <= i2 < self.spec_shards().len() && (#[trigger] self.spec_shards()[
                    i2
                ]).shard_id == state.shards@[k0].0 && self.spec_shards()[i2].spec_peer_state(
                    p,
                ) == spec_last_peer_entry(state.shards@[k0].1.replicas@, p) by {
                let i2 = choose|i2: int|
                    0 <= i2 < pre_cfg.spec_shards().len() && (#[trigger] pre_cfg.spec_shards()[
                        i2
                    ]).shard_id == state.shards@[k0].0 && pre_cfg.spec_shards()[
                        i2
                    ].spec_peer_state(p) == spec_last_peer_entry(
                        state.shards@[k0].1.replicas@,
                        p,
                    );
                assert(self.spec_shards()[i2] == pre_cfg.spec_shards()[i2]);
            }
        }
        Ok(aborted)
    }

    /// The cluster-visible snapshot of this collection: configuration,
    /// replica states of every shard, and the pending transfers.
    pub fn state(&self) -> (r: State)
        ensures
            spec_config_eq(r.config, self.collection_config),
            r.transfers@ == self.shards_holder.shard_transfers@,
            r.shards@.len() == self.spec_shards().len(),
            forall|i: int|
                0 <= i < r.shards@.len() ==> (#[trigger] r.shards@[i]).0 == self.spec_shards()[
                    i
                ].shard_id && r.shards@[i].1.replicas@ == self.spec_shards()[i].replicas@,
            r.config.params.shard_number == self.collection_config.params.shard_number,
    {
        let transfers = self.get_transfers();
        let mut shards: Vec<(ShardId, ShardInfo)> = Vec::new();
        let n = self.shards_holder.shards.len();
        let mut i: usize = 0;
        while i < n
            invariant
                0 <= i <= n,
                n == self.shards_holder.shards@.len(),
                shards@.len() == i,
                forall|k: int|
                    0 <= k < i ==> (#[trigger] shards@[k]).0 == self.shards_holder.shards@[
                        k
                    ].shard_id && shards@[k].1.replicas@ == self.shards_holder.shards@[
                        k
                    ].replicas@,
            decreases n - i,
        {
            let rs = &self.shards_holder.shards[i];
            let info = ShardInfo { replicas: rs.peers() };
            shards.push((rs.shard_id, info));
            i = i + 1;
        }
        State { config: clone_config(&self.collection_config), shards, transfers }
    }
}

/// Reports owed for finished or vanished outgoing transfers, in registry
/// order: a task that finished is reported with its outcome; a task that no
/// longer exists and never reported is reported as failed.
pub open spec fn spec_transfer_report_actions(
    outgoing: Seq<ShardTransfer>,
    pool: TransferTasksPool,
) -> Seq<CoordinatorAction>
    decreases outgoing.len(),
{
    if outgoing.len() == 0 {
        Seq::empty()
    } else {
        let pre = spec_transfer_report_actions(outgoing.drop_last(), pool);
        let t = outgoing.last();
        match pool.spec_task_result(t.spec_key()) {
            None => if !pool.spec_still_running(t.spec_key()) {
                pre.push(CoordinatorAction::ReportTransferFailure { transfer: t })
            } else {
                pre
            },
            Some(ok) => if ok {
                pre.push(CoordinatorAction::ReportTransferSuccess { transfer: t })
            } else {
                pre.push(CoordinatorAction::ReportTransferFailure { transfer: t })
            },
        }
    }
}

/// The first Active remote peer whose sync transfer towards `this` would
/// not conflict with a registered transfer.
pub open spec fn spec_first_recovery_transfer(
    actives: Seq<PeerId>,
    transfers: Seq<ShardTransfer>,
    shard_id: ShardId,
    this: PeerId,
) -> Option<ShardTransfer>
    decreases actives.len(),
{
    if actives.len() == 0 {
        None
    } else {
        let t = ShardTransfer { shard_id, from: actives[0], to: this, sync: true };
        if crate::transfer::spec_first_conflict(transfers, t) is None {
            Some(t)
        } else {
            spec_first_recovery_transfer(actives.drop_first(), transfers, shard_id, this)
        }
    }
}

proof fn lemma_first_recovery_at(
    actives: Seq<PeerId>,
    transfers: Seq<ShardTransfer>,
    shard_id: ShardId,
    this: PeerId,
    i: int,
)
    requires
        0 <= i <= actives.len(),
        forall|j: int|
            0 <= j < i ==> crate::transfer::spec_first_conflict(
                transfers,
                ShardTransfer { shard_id, from: actives[j], to: this, sync: true },
            ) is Some,
        i == actives.len() || crate::transfer::spec_first_conflict(
            transfers,
            ShardTransfer { shard_id, from: actives[i], to: this, sync: true },
        ) is None,
    ensures
        spec_first_recovery_transfer(actives, transfers, shard_id, this) == (if i
            == actives.len() {
            None::<ShardTransfer>
        } else {
            Some(ShardTransfer { shard_id, from: actives[i], to: this, sync: true })
        }),
    decreases i,
{
    if i == 0 {
    } else {
        lemma_first_recovery_at(actives.drop_first(), transfers, shard_id, this, i - 1);
    }
}

/// The one maintenance step the reconciler owes for a shard: activate a
/// replica stuck in Initializing, align the replica with the node mode, or
/// ask for a recovery transfer for a dead, non-dummy local replica.
pub open spec fn spec_shard_maintenance_action(
    rs: ReplicaSet,
    node_type: NodeType,
    transfers: Seq<ShardTransfer>,
) -> Option<CoordinatorAction> {
    let this = rs.this_peer_id;
    let st = rs.spec_peer_state(this);
    if st == Some(ReplicaState::Initializing) {
        Some(CoordinatorAction::FinishInit { peer_id: this, shard_id: rs.shard_id })
    } else if node_type == NodeType::Listener && st == Some(ReplicaState::Active)
        && !rs.spec_is_last_active(this) {
        Some(CoordinatorAction::ConvertToListener { peer_id: this, shard_id: rs.shard_id })
    } else if node_type != NodeType::Listener && st == Some(ReplicaState::Listener) {
        Some(CoordinatorAction::ConvertFromListener { peer_id: this, shard_id: rs.shard_id })
    } else if st == Some(ReplicaState::Dead) && !rs.spec_is_dummy() {
        match spec_first_recovery_transfer(
            crate::replica_set::spec_active_remotes(rs.replicas@, this),
            transfers,
            rs.shard_id,
            this,
        ) {
            Some(t) => Some(CoordinatorAction::RequestShardTransfer { transfer: t }),
            None => None,
        }
    } else {
        None
    }
}

/// All maintenance steps, in shard order.
pub open spec fn spec_shard_maintenance_actions(
    shards: Seq<ReplicaSet>,
    node_type: NodeType,
    transfers: Seq<ShardTransfer>,
) -> Seq<CoordinatorAction>
    decreases shards.len(),
{
    if shards.len() == 0 {
        Seq::empty()
    } else {
        let pre = spec_shard_maintenance_actions(shards.drop_last(), node_type, transfers);
        match spec_shard_maintenance_action(shards.last(), node_type, transfers) {
            Some(a) => pre.push(a),
            None => pre,
        }
    }
}

/// Number of removals among the first `upto` changes that name shard `s`.
pub open spec fn spec_count_removes(changes: Seq<Change>, upto: int, s: ShardId) -> int
    decreases upto,
{
    if upto <= 0 {
        0
    } else {
        spec_count_removes(changes, upto - 1, s) + (if changes[upto - 1]->Remove_0 == s {
            1int
        } else {
            0int
        })
    }
}

/// Is the change at position `k` acceptable when the changes are applied
/// left to right from `shards0`: its shard exists, the peer holds a replica
/// that no earlier change already removed, and enough replicas remain.
pub open spec fn spec_change_valid_at(
    shards0: Seq<ReplicaSet>,
    changes: Seq<Change>,
    k: int,
) -> bool {
    let s = changes[k]->Remove_0;
    let p = changes[k]->Remove_1;
    &&& exists|i: int| 0 <= i < shards0.len() && shards0[i].shard_id == s
    &&& shards0[spec_shard_index(shards0, s)].spec_peer_state(p) is Some
    &&& (forall|j: int| 0 <= j < k ==> changes[j] != changes[k])
    &&& shards0[spec_shard_index(shards0, s)].replicas@.len() - spec_count_removes(
        changes,
        k,
        s,
    ) > 1
}

/// Every change of the list is acceptable at its turn.
pub open spec fn spec_changes_valid(shards0: Seq<ReplicaSet>, changes: Seq<Change>) -> bool {
    forall|k: int| 0 <= k < changes.len() ==> spec_change_valid_at(shards0, changes, k)
}

/// Replica state of `q` on the shard after a peer is set to `st` and the
/// related transfers are aborted in order: each abort reverts its
/// destination — Dead for a sync transfer, removed otherwise — and leaves
/// an already-absent destination alone.
pub open spec fn spec_dead_chain_state(
    rs0: ReplicaSet,
    peer_id: PeerId,
    st: ReplicaState,
    related: Seq<ShardTransfer>,
    q: PeerId,
) -> Option<ReplicaState>
    decreases related.len(),
{
    if related.len() == 0 {
        if q == peer_id {
            Some(st)
        } else {
            rs0.spec_peer_state(q)
        }
    } else {
        let prev = spec_dead_chain_state(rs0, peer_id, st, related.drop_last(), q);
        let t = related.last();
        if q == t.to && prev is Some {
            if t.sync {
                Some(ReplicaState::Dead)
            } else {
                None
            }
        } else {
            prev
        }
    }
}

/// Number of replicas left on the shard after the same abort chain.
pub open spec fn spec_dead_chain_len(
    rs0: ReplicaSet,
    peer_id: PeerId,
    st: ReplicaState,
    related: Seq<ShardTransfer>,
) -> int
    decreases related.len(),
{
    if related.len() == 0 {
        rs0.replicas@.len() + (if rs0.spec_has_peer(peer_id) {
            0int
        } else {
            1int
        })
    } else {
        let prev = spec_dead_chain_len(rs0, peer_id, st, related.drop_last());
        let t = related.last();
        prev - (if !t.sync && spec_dead_chain_state(
            rs0,
            peer_id,
            st,
            related.drop_last(),
            t.to,
        ) is Some {
            1int
        } else {
            0int
        })
    }
}

/// Does the whole abort chain go through? A step is refused only when a
/// non-sync abort would remove the shard's last replica.
pub open spec fn spec_dead_chain_ok(
    rs0: ReplicaSet,
    peer_id: PeerId,
    st: ReplicaState,
    related: Seq<ShardTransfer>,
) -> bool
    decreases related.len(),
{
    if related.len() == 0 {
        true
    } else {
        let t = related.last();
        spec_dead_chain_ok(rs0, peer_id, st, related.drop_last()) && !(!t.sync
            && spec_dead_chain_state(rs0, peer_id, st, related.drop_last(), t.to) is Some
            && spec_dead_chain_len(rs0, peer_id, st, related.drop_last()) <= 1)
    }
}

proof fn lemma_dead_chain_ok_prefix(
    rs0: ReplicaSet,
    peer_id: PeerId,
    st: ReplicaState,
    related: Seq<ShardTransfer>,
    k: int,
)
    requires
        0 <= k <= related.len(),
        spec_dead_chain_ok(rs0, peer_id, st, related),
    ensures
        spec_dead_chain_ok(rs0, peer_id, st, related.take(k)),
    decreases related.len() - k,
{
    if k == related.len() {
        assert(related.take(k) =~= related);
    } else {
        lemma_dead_chain_ok_prefix(rs0, peer_id, st, related, k + 1);
        assert(related.take(k + 1).drop_last() =~= related.take(k));
    }
}

/// Every replica of every shard is Active.
pub open spec fn spec_all_replicas_active(s: Seq<ReplicaSet>) -> bool {
    forall|i: int, j: int|
        0 <= i < s.len() && 0 <= j < s[i].replicas@.len() ==> (#[trigger] s[i].replicas@[j]).1
            == ReplicaState::Active
}

/// The transfer request a dead own replica provokes: recover the shard by a
/// sync transfer from the first Active peer, when one exists.
pub open spec fn spec_recovery_actions(
    state: ReplicaState,
    peer_id: PeerId,
    this_peer: PeerId,
    shard_id: ShardId,
    rs1: ReplicaSet,
) -> Seq<CoordinatorAction> {
    if state == ReplicaState::Dead && peer_id == this_peer {
        match spec_first_active(rs1.replicas@) {
            Some(f) => seq![
                CoordinatorAction::RequestShardTransfer {
                    transfer: ShardTransfer { shard_id, from: f, to: this_peer, sync: true },
                },
            ],
            None => Seq::empty(),
        }
    } else {
        Seq::empty()
    }
}

/// The local slot of the transfer's shard after an abort: a removed
/// destination peer drops the local replica, and the sender's forward proxy
/// is unwrapped.
pub open spec fn spec_abort_local(
    rs0: ReplicaSet,
    key: ShardTransferKey,
    this: PeerId,
    sync: bool,
) -> LocalReplica {
    let l1 = if !sync && key.to == rs0.this_peer_id && rs0.spec_has_peer(key.to) {
        LocalReplica::Absent
    } else {
        rs0.local
    };
    if this == key.from && l1 is ForwardProxy {
        LocalReplica::Local
    } else {
        l1
    }
}

/// The sync transfer the reconciler would request for a dead local
/// replica: from the first Active remote peer whose transfer would not
/// conflict with a registered one.
fn find_recovery_transfer(
    actives: &Vec<PeerId>,
    transfers: &Vec<ShardTransfer>,
    shard_id: ShardId,
    this_peer: PeerId,
) -> (r: Option<ShardTransfer>)
    ensures
        r == spec_first_recovery_transfer(actives@, transfers@, shard_id, this_peer),
{
    let an = actives.len();
    let mut a: usize = 0;
    while a < an
        invariant
            0 <= a <= an,
            an == actives@.len(),
            forall|j: int|
                0 <= j < a ==> crate::transfer::spec_first_conflict(
                    transfers@,
                    ShardTransfer {
                        shard_id,
                        from: actives@[j],
                        to: this_peer,
                        sync: true,
                    },
                ) is Some,
        decreases an - a,
    {
        let cand = ShardTransfer { shard_id, from: actives[a], to: this_peer, sync: true };
        match crate::transfer::check_transfer_conflicts_strict(&cand, transfers) {
            Some(_) => {
                a = a + 1;
            },
            None => {
                proof {
                    lemma_first_recovery_at(actives@, transfers@, shard_id, this_peer, a as int);
                }
                return Some(cand);
            },
        }
    }
    proof {
        lemma_first_recovery_at(actives@, transfers@, shard_id, this_peer, an as int);
    }
    None
}

/// One local replica of this peer, as reported by `cluster_info`.
#[derive(Clone, Copy, PartialEq, Eq, Structural, Debug)]
pub struct LocalShardInfo {
    pub shard_id: ShardId,
    pub points_count: u64,
    pub state: ReplicaState,
}

/// One remote replica, as reported by `cluster_info`.
#[derive(Clone, Copy, PartialEq, Eq, Structural, Debug)]
pub struct RemoteShardInfo {
    pub shard_id: ShardId,
    pub peer_id: PeerId,
    pub state: ReplicaState,
}

/// The clustering of this collection: every local and remote replica and
/// the pending transfers.
pub struct CollectionClusterInfo {
    pub peer_id: PeerId,
    pub shard_count: usize,
    pub local_shards: Vec<LocalShardInfo>,
    pub remote_shards: Vec<RemoteShardInfo>,
    pub shard_transfers: Vec<ShardTransfer>,
}

/// Telemetry snapshot of the coordinator.
pub struct CollectionTelemetry {
    pub id: String,
    pub init_time_ms: u64,
    pub shard_count: usize,
    pub transfers: Vec<ShardTransfer>,
}

/// The reported point count of a shard; zero when the count was not
/// obtained.
pub open spec fn spec_count_for(counts: Seq<(ShardId, u64)>, id: ShardId) -> u64
    decreases counts.len(),
{
    if counts.len() == 0 {
        0
    } else if counts[0].0 == id {
        counts[0].1
    } else {
        spec_count_for(counts.drop_first(), id)
    }
}

proof fn lemma_count_for_at(counts: Seq<(ShardId, u64)>, id: ShardId, i: int)
    requires
        0 <= i <= counts.len(),
        forall|j: int| 0 <= j < i ==> counts[j].0 != id,
        i == counts.len() || counts[i].0 == id,
    ensures
        spec_count_for(counts, id) == if i == counts.len() {
            0u64
        } else {
            counts[i].1
        },
    decreases i,
{
    if i == 0 {
    } else {
        lemma_count_for_at(counts.drop_first(), id, i - 1);
    }
}

fn count_for(counts: &Vec<(ShardId, u64)>, id: ShardId) -> (r: u64)
    ensures
        r == spec_count_for(counts@, id),
{
    let n = counts.len();
    let mut i: usize = 0;
    while i < n && counts[i].0 != id
        invariant
            0 <= i <= n,
            n == counts@.len(),
            forall|j: int| 0 <= j < i ==> counts@[j].0 != id,
        decreases n - i,
    {
        i = i + 1;
    }
    proof {
        lemma_count_for_at(counts@, id, i as int);
    }
    if i < n {
        counts[i].1
    } else {
        0
    }
}

/// Local replica entries in shard-holder order.
pub open spec fn spec_local_infos(shards: Seq<ReplicaSet>, counts: Seq<(ShardId, u64)>) -> Seq<
    LocalShardInfo,
>
    decreases shards.len(),
{
    if shards.len() == 0 {
        Seq::empty()
    } else {
        let pre = spec_local_infos(shards.drop_last(), counts);
        let rs = shards.last();
        if rs.spec_has_local_shard() {
            pre.push(
                LocalShardInfo {
                    shard_id: rs.shard_id,
                    points_count: spec_count_for(counts, rs.shard_id),
                    state: match rs.spec_peer_state(rs.this_peer_id) {
                        Some(st) => st,
                        None => ReplicaState::Dead,
                    },
                },
            )
        } else {
            pre
        }
    }
}

/// Remote replica entries of one shard, in replica order.
pub open spec fn spec_remote_infos_of(
    replicas: Seq<(PeerId, ReplicaState)>,
    shard_id: ShardId,
    this: PeerId,
) -> Seq<RemoteShardInfo>
    decreases replicas.len(),
{
    if replicas.len() == 0 {
        Seq::empty()
    } else {
        let pre = spec_remote_infos_of(replicas.drop_last(), shard_id, this);
        if replicas.last().0 != this {
            pre.push(
                RemoteShardInfo {
                    shard_id,
                    peer_id: replicas.last().0,
                    state: replicas.last().1,
                },
            )
        } else {
            pre
        }
    }
}

/// Remote replica entries of all shards, in shard-holder order.
pub open spec fn spec_remote_infos(shards: Seq<ReplicaSet>) -> Seq<RemoteShardInfo>
    decreases shards.len(),
{
    if shards.len() == 0 {
        Seq::empty()
    } else {
        spec_remote_infos(shards.drop_last()) + spec_remote_infos_of(
            shards.last().replicas@,
            shards.last().shard_id,
            shards.last().this_peer_id,
        )
    }
}

/// Insertion step of the stable sort of local entries by shard id.
pub open spec fn spec_insert_local(s: Seq<LocalShardInfo>, x: LocalShardInfo) -> Seq<
    LocalShardInfo,
>
    decreases s.len(),
{
    if s.len() == 0 {
        seq![x]
    } else if x.shard_id < s[0].shard_id {
        seq![x] + s
    } else {
        seq![s[0]] + spec_insert_local(s.drop_first(), x)
    }
}

/// Stable sort of local entries by shard id.
pub open spec fn spec_sort_locals(s: Seq<LocalShardInfo>) -> Seq<LocalShardInfo>
    decreases s.len(),
{
    if s.len() == 0 {
        Seq::empty()
    } else {
        spec_insert_local(spec_sort_locals(s.drop_last()), s.last())
    }
}

proof fn lemma_insert_local_at(s: Seq<LocalShardInfo>, x: LocalShardInfo, j: int)
    requires
        0 <= j <= s.len(),
        forall|t: int| 0 <= t < j ==> s[t].shard_id <= x.shard_id,
        j == s.len() || x.shard_id < s[j].shard_id,
    ensures
        spec_insert_local(s, x) == s.take(j) + seq![x] + s.skip(j),
    decreases j,
{
    if j == 0 {
        if s.len() == 0 {
            assert(s.take(0) + seq![x] + s.skip(0) =~= seq![x]);
        } else {
            assert(s.take(0) + seq![x] + s.skip(0) =~= seq![x] + s);
        }
    } else {
        lemma_insert_local_at(s.drop_first(), x, j - 1);
        assert(seq![s[0]] + (s.drop_first().take(j - 1) + seq![x] + s.drop_first().skip(j - 1))
            =~= s.take(j) + seq![x] + s.skip(j));
    }
}

fn insert_local(v: Vec<LocalShardInfo>, x: LocalShardInfo) -> (r: Vec<LocalShardInfo>)
    ensures
        r@ == spec_insert_local(v@, x),
{
    let n = v.len();
    let mut j: usize = 0;
    while j < n && v[j].shard_id <= x.shard_id
        invariant
            0 <= j <= n,
            n == v@.len(),
            forall|t: int| 0 <= t < j ==> v@[t].shard_id <= x.shard_id,
        decreases n - j,
    {
        j = j + 1;
    }
    proof {
        lemma_insert_local_at(v@, x, j as int);
    }
    let mut r: Vec<LocalShardInfo> = Vec::new();
    let mut i: usize = 0;
    while i < j
        invariant
            0 <= i <= j <= n,
            n == v@.len(),
            r@ == v@.take(i as int),
        decreases j - i,
    {
        r.push(v[i]);
        assert(r@ =~= v@.take(i as int + 1));
        i = i + 1;
    }
    r.push(x);
    let mut k: usize = j;
    while k < n
        invariant
            j <= k <= n,
            n == v@.len(),
            r@ == v@.take(j as int) + seq![x] + v@.subrange(j as int, k as int),
        decreases n - k,
    {
        r.push(v[k]);
        assert(r@ =~= v@.take(j as int) + seq![x] + v@.subrange(j as int, k as int + 1));
        k = k + 1;
    }
    assert(v@.subrange(j as int, n as int) =~= v@.skip(j as int));
    r
}

/// Insertion step of the stable sort of remote entries by shard id.
pub open spec fn spec_insert_remote(s: Seq<RemoteShardInfo>, x: RemoteShardInfo) -> Seq<
    RemoteShardInfo,
>
    decreases s.len(),
{
    if s.len() == 0 {
        seq![x]
    } else if x.shard_id < s[0].shard_id {
        seq![x] + s
    } else {
        seq![s[0]] + spec_insert_remote(s.drop_first(), x)
    }
}

/// Stable sort of remote entries by shard id.
pub open spec fn spec_sort_remotes(s: Seq<RemoteShardInfo>) -> Seq<RemoteShardInfo>
    decreases s.len(),
{
    if s.len() == 0 {
        Seq::empty()
    } else {
        spec_insert_remote(spec_sort_remotes(s.drop_last()), s.last())
    }
}

#[verifier::rlimit(50)]
proof fn lemma_insert_remote_at(s: Seq<RemoteShardInfo>, x: RemoteShardInfo, j: int)
    requires
        0 <= j <= s.len(),
        forall|t: int| 0 <= t < j ==> s[t].shard_id <= x.shard_id,
        j == s.len() || x.shard_id < s[j].shard_id,
    ensures
        spec_insert_remote(s, x) == s.take(j) + seq![x] + s.skip(j),
    decreases j,
{
    if j == 0 {
        if s.len() == 0 {
            assert(s.take(0) + seq![x] + s.skip(0) =~= seq![x]);
        } else {
            assert(s.take(0) + seq![x] + s.skip(0) =~= seq![x] + s);
        }
    } else {
        lemma_insert_remote_at(s.drop_first(), x, j - 1);
        assert(seq![s[0]] + (s.drop_first().take(j - 1) + seq![x] + s.drop_first().skip(j - 1))
            =~= s.take(j) + seq![x] + s.skip(j));
    }
}

fn insert_remote(v: Vec<RemoteShardInfo>, x: RemoteShardInfo) -> (r: Vec<RemoteShardInfo>)
    ensures
        r@ == spec_insert_remote(v@, x),
{
    let n = v.len();
    let mut j: usize = 0;
    while j < n && v[j].shard_id <= x.shard_id
        invariant
            0 <= j <= n,
            n == v@.len(),
            forall|t: int| 0 <= t < j ==> v@[t].shard_id <= x.shard_id,
        decreases n - j,
    {
        j = j + 1;
    }
    proof {
        lemma_insert_remote_at(v@, x, j as int);
    }
    let mut r: Vec<RemoteShardInfo> = Vec::new();
    let mut i: usize = 0;
    while i < j
        invariant
            0 <= i <= j <= n,
            n == v@.len(),
            r@ == v@.take(i as int),
        decreases j - i,
    {
        r.push(v[i]);
        assert(r@ =~= v@.take(i as int + 1));
        i = i + 1;
    }
    r.push(x);
    let mut k: usize = j;
    while k < n
        invariant
            j <= k <= n,
            n == v@.len(),
            r@ == v@.take(j as int) + seq![x] + v@.subrange(j as int, k as int),
        decreases n - k,
    {
        r.push(v[k]);
        assert(r@ =~= v@.take(j as int) + seq![x] + v@.subrange(j as int, k as int + 1));
        k = k + 1;
    }
    assert(v@.subrange(j as int, n as int) =~= v@.skip(j as int));
    r
}

/// Health of a collection; the worst shard wins.
#[derive(Clone, Copy, PartialEq, Eq, Structural, Debug)]
pub enum CollectionStatus {
    Green,
    Yellow,
    Red,
}

/// Severity rank used to aggregate statuses.
pub open spec fn spec_status_rank(s: CollectionStatus) -> int {
    match s {
        CollectionStatus::Green => 0,
        CollectionStatus::Yellow => 1,
        CollectionStatus::Red => 2,
    }
}

pub open spec fn spec_status_max(a: CollectionStatus, b: CollectionStatus) -> CollectionStatus {
    if spec_status_rank(b) > spec_status_rank(a) {
        b
    } else {
        a
    }
}

/// Optimizer health; any error wins over ok.
#[derive(Clone, Copy, PartialEq, Eq, Structural, Debug)]
pub enum OptimizersStatus {
    Working,
    Error,
}

pub open spec fn spec_optimizer_max(a: OptimizersStatus, b: OptimizersStatus) -> OptimizersStatus {
    if a is Error || b is Error {
        OptimizersStatus::Error
    } else {
        OptimizersStatus::Working
    }
}

/// Aggregated description of the collection's content. The payload schema
/// maps field identifiers to the number of points indexed under each;
/// counters add modulo the machine word, as the stores report them.
pub struct CollectionInfo {
    pub status: CollectionStatus,
    pub optimizer_status: OptimizersStatus,
    pub vectors_count: u64,
    pub indexed_vectors_count: u64,
    pub points_count: u64,
    pub segments_count: u64,
    pub payload_schema: Vec<(u64, u64)>,
}

/// Merge one schema entry: add its points to the existing field entry, or
/// append a new field.
pub open spec fn spec_add_schema_entry(acc: Seq<(u64, u64)>, e: (u64, u64)) -> Seq<(u64, u64)>
    decreases acc.len(),
{
    if acc.len() == 0 {
        seq![e]
    } else if acc[0].0 == e.0 {
        seq![(acc[0].0, vstd::wrapping::u64_specs::wrapping_add(acc[0].1, e.1))]
            + acc.drop_first()
    } else {
        seq![acc[0]] + spec_add_schema_entry(acc.drop_first(), e)
    }
}

/// Merge a shard's schema into the accumulated one, entry by entry.
pub open spec fn spec_merge_schema(acc: Seq<(u64, u64)>, inc: Seq<(u64, u64)>) -> Seq<(
    u64,
    u64,
)>
    decreases inc.len(),
{
    if inc.len() == 0 {
        acc
    } else {
        spec_add_schema_entry(spec_merge_schema(acc, inc.drop_last()), inc.last())
    }
}

proof fn lemma_add_schema_entry_at(acc: Seq<(u64, u64)>, e: (u64, u64), j: int)
    requires
        0 <= j <= acc.len(),
        forall|t: int| 0 <= t < j ==> acc[t].0 != e.0,
        j == acc.len() || acc[j].0 == e.0,
    ensures
        spec_add_schema_entry(acc, e) == if j == acc.len() {
            acc.push(e)
        } else {
            acc.update(j, (acc[j].0, vstd::wrapping::u64_specs::wrapping_add(acc[j].1, e.1)))
        },
    decreases j,
{
    if j == 0 {
        if acc.len() == 0 {
            assert(seq![e] =~= acc.push(e));
        } else {
            assert(seq![(acc[0].0, vstd::wrapping::u64_specs::wrapping_add(acc[0].1, e.1))]
                + acc.drop_first() =~= acc.update(
                0,
                (acc[0].0, vstd::wrapping::u64_specs::wrapping_add(acc[0].1, e.1)),
            ));
        }
    } else {
        lemma_add_schema_entry_at(acc.drop_first(), e, j - 1);
        if j == acc.len() {
            assert(seq![acc[0]] + acc.drop_first().push(e) =~= acc.push(e));
        } else {
            assert(seq![acc[0]] + acc.drop_first().update(
                j - 1,
                (
                    acc.drop_first()[j - 1].0,
                    vstd::wrapping::u64_specs::wrapping_add(acc.drop_first()[j - 1].1, e.1),
                ),
            ) =~= acc.update(
                j,
                (acc[j].0, vstd::wrapping::u64_specs::wrapping_add(acc[j].1, e.1)),
            ));
        }
    }
}

fn add_schema_entry(acc: Vec<(u64, u64)>, e: (u64, u64)) -> (r: Vec<(u64, u64)>)
    ensures
        r@ == spec_add_schema_entry(acc@, e),
{
    let mut acc = acc;
    let n = acc.len();
    let mut j: usize = 0;
    while j < n && acc[j].0 != e.0
        invariant
            0 <= j <= n,
            n == acc@.len(),
            forall|t: int| 0 <= t < j ==> acc@[t].0 != e.0,
        decreases n - j,
    {
        j = j + 1;
    }
    proof {
        lemma_add_schema_entry_at(acc@, e, j as int);
    }
    if j < n {
        let key = acc[j].0;
        let count = acc[j].1;
        acc.set(j, (key, count.wrapping_add(e.1)));
    } else {
        acc.push(e);
    }
    acc
}

/// Fold of the per-shard statuses and counters: worst statuses, counters
/// summed modulo the machine word, in shard order.
pub open spec fn spec_aggregate_scalars(infos: Seq<CollectionInfo>) -> (
    CollectionStatus,
    OptimizersStatus,
    u64,
    u64,
    u64,
    u64,
)
    recommends
        infos.len() > 0,
    decreases infos.len(),
{
    if infos.len() <= 1 {
        (
            infos[0].status,
            infos[0].optimizer_status,
            infos[0].vectors_count,
            infos[0].indexed_vectors_count,
            infos[0].points_count,
            infos[0].segments_count,
        )
    } else {
        let pre = spec_aggregate_scalars(infos.drop_last());
        let b = infos.last();
        (
            spec_status_max(pre.0, b.status),
            spec_optimizer_max(pre.1, b.optimizer_status),
            vstd::wrapping::u64_specs::wrapping_add(pre.2, b.vectors_count),
            vstd::wrapping::u64_specs::wrapping_add(pre.3, b.indexed_vectors_count),
            vstd::wrapping::u64_specs::wrapping_add(pre.4, b.points_count),
            vstd::wrapping::u64_specs::wrapping_add(pre.5, b.segments_count),
        )
    }
}

/// The merged schema of per-shard infos, in shard order.
pub open spec fn spec_aggregate_schema(infos: Seq<CollectionInfo>) -> Seq<(u64, u64)>
    recommends
        infos.len() > 0,
    decreases infos.len(),
{
    if infos.len() <= 1 {
        infos[0].payload_schema@
    } else {
        spec_merge_schema(
            spec_aggregate_schema(infos.drop_last()),
            infos.last().payload_schema@,
        )
    }
}

/// The distance the last of the first `upto` diff entries assigns to the
/// vector space `name`, if any assigns one.
pub open spec fn spec_last_diff_distance(diff: Seq<(u64, Distance)>, upto: int, name: u64) -> Option<
    Distance,
>
    decreases upto,
{
    if upto <= 0 {
        None
    } else if diff[upto - 1].0 == name {
        Some(diff[upto - 1].1)
    } else {
        spec_last_diff_distance(diff, upto - 1, name)
    }
}

/// The last replica-state entry a broadcast shard info carries for a peer:
/// with duplicate entries, the one applied last wins.
pub open spec fn spec_last_peer_entry(s: Seq<(PeerId, ReplicaState)>, p: PeerId) -> Option<
    ReplicaState,
>
    decreases s.len(),
{
    if s.len() == 0 {
        None
    } else if s.last().0 == p {
        Some(s.last().1)
    } else {
        spec_last_peer_entry(s.drop_last(), p)
    }
}

/// What completing transfer `transfer` does to a coordinator that holds the
/// shard: the registry drops the key, the sender's proxy is unwrapped or
/// retired, the receiver's Partial replica is promoted, and remote stubs
/// are retargeted after a sync transfer. This is the effect
/// `finish_shard_transfer` guarantees.
pub open spec fn spec_finish_effect(pre: Collection, post: Collection, transfer:
    ShardTransfer) -> bool {
    let i0 = spec_shard_index(pre.spec_shards(), transfer.shard_id);
    let rs0 = pre.spec_shards()[i0];
    let this = pre.this_peer_id;
    &&& post.this_peer_id == pre.this_peer_id
    &&& post.spec_shards().len() == pre.spec_shards().len()
    &&& (forall|j: int|
        0 <= j < pre.spec_shards().len() ==> (#[trigger] post.spec_shards()[j]).shard_id
            == pre.spec_shards()[j].shard_id)
    &&& (forall|u: ShardTransfer|
        #[trigger] post.shards_holder.shard_transfers@.contains(u) <==> (
        pre.shards_holder.shard_transfers@.contains(u) && u.spec_key()
            != transfer.spec_key()))
    &&& (forall|j: int|
        0 <= j < pre.spec_shards().len() && j != i0 ==> (#[trigger] post.spec_shards()[j])
            == pre.spec_shards()[j])
    &&& post.spec_shards()[i0].local == (if this == transfer.from
        && rs0.local is ForwardProxy {
        if transfer.sync {
            LocalReplica::Absent
        } else {
            LocalReplica::Local
        }
    } else {
        rs0.local
    })
    &&& (this == transfer.to && rs0.spec_peer_state(this) == Some(ReplicaState::Partial)
        ==> post.spec_shards()[i0].spec_peer_state(this) == Some(ReplicaState::Active) && (
    forall|q: PeerId|
        q != this ==> #[trigger] post.spec_shards()[i0].spec_peer_state(q)
            == rs0.spec_peer_state(q)))
    &&& (!(this == transfer.to && rs0.spec_peer_state(this) == Some(ReplicaState::Partial))
        ==> post.spec_shards()[i0].replicas@ == rs0.replicas@)
    &&& (forall|q: PeerId|
        #[trigger] post.spec_shards()[i0].remotes@.contains(q) <==> ({
            let r1 = rs0.remotes@.contains(q) || (this == transfer.from
                && rs0.local is ForwardProxy && transfer.sync && q == transfer.to);
            if this != transfer.from && transfer.sync && transfer.to != this {
                (r1 && q != transfer.from) || q == transfer.to
            } else {
                r1
            }
        }))
}

/// Completing a transfer is idempotent: a second completion, run from the
/// state the first left behind, changes no registry entry, no replica
/// state, no local slot and no remote stub.
pub proof fn lemma_finish_idempotent(
    c0: Collection,
    c1: Collection,
    c2: Collection,
    transfer: ShardTransfer,
)
    requires
        c0.wf(),
        transfer.from != transfer.to,
        c0.shards_holder.spec_contains_shard(transfer.shard_id),
        spec_finish_effect(c0, c1, transfer),
        spec_finish_effect(c1, c2, transfer),
    ensures
        forall|u: ShardTransfer|
            #[trigger] c2.shards_holder.shard_transfers@.contains(u)
                <==> c1.shards_holder.shard_transfers@.contains(u),
        c2.spec_shards().len() == c1.spec_shards().len(),
        forall|j: int|
            0 <= j < c1.spec_shards().len() && j != spec_shard_index(
                c1.spec_shards(),
                transfer.shard_id,
            ) ==> (#[trigger] c2.spec_shards()[j]) == c1.spec_shards()[j],
        c2.spec_shards()[spec_shard_index(c1.spec_shards(), transfer.shard_id)].local
            == c1.spec_shards()[spec_shard_index(c1.spec_shards(), transfer.shard_id)].local,
        c2.spec_shards()[spec_shard_index(c1.spec_shards(), transfer.shard_id)].replicas@
            == c1.spec_shards()[
            spec_shard_index(c1.spec_shards(), transfer.shard_id)
        ].replicas@,
        forall|q: PeerId|
            #[trigger] c2.spec_shards()[
                spec_shard_index(c1.spec_shards(), transfer.shard_id)
            ].remotes@.contains(q) <==> c1.spec_shards()[
                spec_shard_index(c1.spec_shards(), transfer.shard_id)
            ].remotes@.contains(q),
{
    let i0 = spec_shard_index(c0.spec_shards(), transfer.shard_id);
    let i1 = spec_shard_index(c1.spec_shards(), transfer.shard_id);
    assert(0 <= i0 < c0.spec_shards().len() && c0.spec_shards()[i0].shard_id
        == transfer.shard_id) by {
        let w = choose|w: int|
            0 <= w < c0.spec_shards().len() && c0.spec_shards()[w].shard_id
                == transfer.shard_id;
    }
    assert(i1 == i0) by {
        assert(c1.spec_shards()[i0].shard_id == transfer.shard_id);
        assert(0 <= i1 < c1.spec_shards().len() && c1.spec_shards()[i1].shard_id
            == transfer.shard_id) by {
            assert(exists|w: int|
                0 <= w < c1.spec_shards().len() && c1.spec_shards()[w].shard_id
                    == transfer.shard_id) by {
                assert(c1.spec_shards()[i0].shard_id == transfer.shard_id);
            }
        }
        if i1 != i0 {
            assert(c0.spec_shards()[i1].shard_id != c0.spec_shards()[i0].shard_id);
        }
    }
    let this = c0.this_peer_id;
    let rs0 = c0.spec_shards()[i0];
    let rs1 = c1.spec_shards()[i0];
    // after one completion the sender no longer holds a proxy
    assert(this == transfer.from ==> !(rs1.local is ForwardProxy));
    // after one completion this peer's replica is never Partial
    if this == transfer.to && rs1.spec_peer_state(this) == Some(ReplicaState::Partial) {
        if rs0.spec_peer_state(this) == Some(ReplicaState::Partial) {
            assert(rs1.spec_peer_state(this) == Some(ReplicaState::Active));
        } else {
            assert(rs1.replicas@ == rs0.replicas@);
        }
        assert(false);
    }
    assert(c2.spec_shards()[i0].replicas@ == rs1.replicas@);
    // a retargeted stub set is a fixed point of retargeting
    assert forall|q: PeerId|
        #[trigger] c2.spec_shards()[i0].remotes@.contains(q) <==> rs1.remotes@.contains(
        q,
    ) by {
        if this != transfer.from && transfer.sync && transfer.to != this {
            assert(rs1.remotes@.contains(transfer.to));
            assert(!rs1.remotes@.contains(transfer.from));
        }
    }
}

/// Keys of the registered transfers the broadcast state no longer
/// carries, in registry order: the ones a reconcile drops.
pub open spec fn spec_stale_keys(reg: Seq<ShardTransfer>, bcast: Seq<ShardTransfer>) -> Seq<
    ShardTransferKey,
>
    decreases reg.len(),
{
    if reg.len() == 0 {
        Seq::empty()
    } else {
        let pre = spec_stale_keys(reg.drop_last(), bcast);
        if spec_has_transfer_key(bcast, reg.last().spec_key()) {
            pre
        } else {
            pre.push(reg.last().spec_key())
        }
    }
}

/// Field-wise equality of configurations.
pub open spec fn spec_config_eq(a: CollectionConfig, b: CollectionConfig) -> bool {
    &&& a.params.shard_number == b.params.shard_number
    &&& a.params.replication_factor == b.params.replication_factor
    &&& a.params.write_consistency_factor == b.params.write_consistency_factor
    &&& a.params.vectors@ == b.params.vectors@
    &&& a.hnsw_config == b.hnsw_config
    &&& a.optimizer_config == b.optimizer_config
    &&& a.wal_config == b.wal_config
    &&& a.quantization_config == b.quantization_config
}

/// Identity, configuration and mode of the coordinator are untouched.
pub open spec fn same_core(a: &Collection, b: &Collection) -> bool {
    &&& b.id == a.id
    &&& b.this_peer_id == a.this_peer_id
    &&& b.collection_config == a.collection_config
    &&& b.node_type == a.node_type
    &&& b.is_initialized == a.is_initialized
}

/// Everything of the coordinator but the configuration is untouched.
pub open spec fn unchanged_but_config(a: &Collection, b: &Collection) -> bool {
    &&& b.id == a.id
    &&& b.this_peer_id == a.this_peer_id
    &&& b.shards_holder == a.shards_holder
    &&& b.transfer_tasks == a.transfer_tasks
    &&& b.node_type == a.node_type
    &&& b.is_initialized == a.is_initialized
}

/// A field-true copy of the configuration.
fn clone_config(c: &CollectionConfig) -> (r: CollectionConfig)
    ensures
        r.params.shard_number == c.params.shard_number,
        r.params.replication_factor == c.params.replication_factor,
        r.params.write_consistency_factor == c.params.write_consistency_factor,
        r.params.vectors@ == c.params.vectors@,
        r.hnsw_config == c.hnsw_config,
        r.optimizer_config == c.optimizer_config,
        r.wal_config == c.wal_config,
        r.quantization_config == c.quantization_config,
{
    let mut vectors: Vec<crate::config::VectorParams> = Vec::new();
    let n = c.params.vectors.len();
    let mut i: usize = 0;
    while i < n
        invariant
            0 <= i <= n,
            n == c.params.vectors@.len(),
            vectors@ == c.params.vectors@.take(i as int),
        decreases n - i,
    {
        vectors.push(c.params.vectors[i]);
        assert(vectors@ =~= c.params.vectors@.take(i as int + 1));
        i = i + 1;
    }
    assert(c.params.vectors@.take(n as int) =~= c.params.vectors@);
    CollectionConfig {
        params: crate::config::CollectionParams {
            shard_number: c.params.shard_number,
            replication_factor: c.params.replication_factor,
            write_consistency_factor: c.params.write_consistency_factor,
            vectors,
        },
        hnsw_config: c.hnsw_config,
        optimizer_config: c.optimizer_config,
        wal_config: c.wal_config,
        quantization_config: c.quantization_config,
    }
}

} // verus!
