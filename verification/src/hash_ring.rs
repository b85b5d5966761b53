//! Fair consistent-hash ring that routes every point id to exactly one shard.
//!
//! The ring is a pure data structure: the same shard set always yields the
//! same ring, so every peer that builds it for the same collection routes
//! every point identically.

use vstd::prelude::*;

use crate::types::{PointId, ShardId};

verus! {

broadcast use vstd::seq_lib::group_seq_properties;

/// Number of virtual nodes each shard contributes to the ring.
pub const HASH_RING_SHARD_SCALE: u32 = 100;

/// 64-bit finalizer used for both point ids and virtual nodes.
pub open spec fn spec_mix64(x: u64) -> u64 {
    let a = vstd::wrapping::u64_specs::wrapping_add(x, 0x9e3779b97f4a7c15);
    let b = vstd::wrapping::u64_specs::wrapping_mul(a ^ (a >> 30), 0xbf58476d1ce4e5b9);
    let c = vstd::wrapping::u64_specs::wrapping_mul(b ^ (b >> 27), 0x94d049bb133111eb);
    c ^ (c >> 31)
}

fn mix64(x: u64) -> (r: u64)
    ensures
        r == spec_mix64(x),
{
    let a = x.wrapping_add(0x9e3779b97f4a7c15);
    let b = (a ^ (a >> 30)).wrapping_mul(0xbf58476d1ce4e5b9);
    let c = (b ^ (b >> 27)).wrapping_mul(0x94d049bb133111eb);
    c ^ (c >> 31)
}

/// Position of a point id on the ring.
pub open spec fn spec_point_key(p: PointId) -> u64 {
    match p {
        PointId::Num(n) => spec_mix64(n),
        PointId::Uuid(u) => {
            let lo = (u % 0x1_0000_0000_0000_0000) as u64;
            let hi = (u / 0x1_0000_0000_0000_0000) as u64;
            spec_mix64(lo ^ spec_mix64(hi))
        },
    }
}

pub fn point_key(p: &PointId) -> (r: u64)
    ensures
        r == spec_point_key(*p),
{
    match p {
        PointId::Num(n) => mix64(*n),
        PointId::Uuid(u) => {
            let lo = (*u % 0x1_0000_0000_0000_0000) as u64;
            let hi = (*u / 0x1_0000_0000_0000_0000) as u64;
            mix64(lo ^ mix64(hi))
        },
    }
}

/// One virtual node: a position on the ring owned by a shard.
#[derive(Clone, Copy, PartialEq, Eq, Structural, Debug)]
pub struct RingNode {
    pub hash: u64,
    pub shard: ShardId,
}

/// Lexicographic order on (hash, shard); makes every node key unique.
pub open spec fn node_lt(a: RingNode, b: RingNode) -> bool {
    a.hash < b.hash || (a.hash == b.hash && a.shard < b.shard)
}

/// Position of the `k`-th virtual node of shard `s`.
pub open spec fn spec_node_key(s: ShardId, k: u32) -> u64 {
    spec_mix64((s as u64 * 0x1_0000_0000 + k as u64) as u64)
}

fn node_key(s: ShardId, k: u32) -> (r: u64)
    ensures
        r == spec_node_key(s, k),
{
    mix64(s as u64 * 0x1_0000_0000 + k as u64)
}

/// Fair consistent-hash ring over shard ids.
pub struct HashRing {
    pub nodes: Vec<RingNode>,
    pub shard_ids: Vec<ShardId>,
}

pub open spec fn sorted_nodes(s: Seq<RingNode>) -> bool {
    forall|i: int, j: int| 0 <= i < j < s.len() ==> node_lt(s[i], s[j])
}

impl HashRing {
    pub open spec fn nodes_view(self) -> Seq<RingNode> {
        self.nodes@
    }

    pub open spec fn shards_view(self) -> Seq<ShardId> {
        self.shard_ids@
    }

    pub open spec fn contains_shard(self, s: ShardId) -> bool {
        self.shard_ids@.contains(s)
    }

    pub open spec fn wf(self) -> bool {
        &&& sorted_nodes(self.nodes@)
        &&& forall|i: int|
            0 <= i < self.nodes@.len() ==> self.shard_ids@.contains(
                #[trigger] self.nodes@[i].shard,
            )
        &&& forall|s: ShardId|
            #[trigger] self.shard_ids@.contains(s) ==> exists|i: int|
                0 <= i < self.nodes@.len() && self.nodes@[i].shard == s
        &&& forall|i: int, j: int|
            0 <= i < j < self.shard_ids@.len() ==> self.shard_ids@[i] != self.shard_ids@[j]
    }

    /// An empty fair ring; shards are added one by one.
    pub fn fair() -> (r: HashRing)
        ensures
            r.wf(),
            r.shards_view() == Seq::<ShardId>::empty(),
            r.nodes_view() == Seq::<RingNode>::empty(),
    {
        HashRing { nodes: Vec::new(), shard_ids: Vec::new() }
    }

    /// Add a shard's virtual nodes to the ring.
    pub fn add(&mut self, shard: ShardId)
        requires
            old(self).wf(),
            !old(self).contains_shard(shard),
        ensures
            final(self).wf(),
            final(self).shards_view() == old(self).shards_view().push(shard),
            final(self).nodes_view().len() > 0,
            forall|s: ShardId|
                #[trigger] final(self).contains_shard(s) <==> (old(self).contains_shard(s) || s
                    == shard),
    {
        self.shard_ids.push(shard);
        assert forall|i: int|
            0 <= i < self.nodes@.len() implies self.shard_ids@.contains(
            #[trigger] self.nodes@[i].shard,
        ) by {
            assert(old(self).shard_ids@.contains(self.nodes@[i].shard));
            let k = choose|k: int|
                0 <= k < old(self).shard_ids@.len() && old(self).shard_ids@[k] == self.nodes@[
                    i
                ].shard;
            assert(self.shard_ids@[k] == self.nodes@[i].shard);
        }
        assert forall|s: ShardId|
            #[trigger] self.shard_ids@.contains(s) && s != shard implies exists|i: int|
            0 <= i < self.nodes@.len() && self.nodes@[i].shard == s by {
            assert(old(self).shard_ids@.contains(s));
            let i = choose|i: int|
                0 <= i < old(self).nodes@.len() && old(self).nodes@[i].shard == s;
            assert(self.nodes@[i].shard == s);
        }
        let mut k: u32 = 0;
        while k < HASH_RING_SHARD_SCALE
            invariant
                sorted_nodes(self.nodes@),
                self.shard_ids@ == old(self).shard_ids@.push(shard),
                forall|i: int|
                    0 <= i < self.nodes@.len() ==> self.shard_ids@.contains(
                        #[trigger] self.nodes@[i].shard,
                    ),
                forall|s: ShardId|
                    #[trigger] self.shard_ids@.contains(s) && s != shard ==> exists|i: int|
                        0 <= i < self.nodes@.len() && self.nodes@[i].shard == s,
                k > 0 ==> exists|i: int|
                    0 <= i < self.nodes@.len() && self.nodes@[i].shard == shard,
                k <= HASH_RING_SHARD_SCALE,
            decreases HASH_RING_SHARD_SCALE - k,
        {
            let h = node_key(shard, k);
            let ghost pre_nodes = self.nodes@;
            let nn = RingNode { hash: h, shard };
            insert_sorted(&mut self.nodes, nn);
            proof {
                assert forall|i: int|
                    0 <= i < self.nodes@.len() implies self.shard_ids@.contains(
                    #[trigger] self.nodes@[i].shard,
                ) by {
                    let m = self.nodes@[i];
                    assert(self.nodes@.contains(m));
                    if pre_nodes.contains(m) {
                        let j = choose|j: int| 0 <= j < pre_nodes.len() && pre_nodes[j] == m;
                        assert(self.shard_ids@.contains(pre_nodes[j].shard));
                    } else {
                        assert(m == nn);
                        assert(self.shard_ids@[self.shard_ids@.len() - 1] == shard);
                    }
                }
                assert forall|s: ShardId|
                    #[trigger] self.shard_ids@.contains(s) && s != shard implies exists|i: int|
                    0 <= i < self.nodes@.len() && self.nodes@[i].shard == s by {
                    let j = choose|j: int|
                        0 <= j < pre_nodes.len() && pre_nodes[j].shard == s;
                    let m = pre_nodes[j];
                    assert(pre_nodes.contains(m));
                    assert(self.nodes@.contains(m));
                    let i2 = choose|i2: int|
                        0 <= i2 < self.nodes@.len() && self.nodes@[i2] == m;
                    assert(self.nodes@[i2].shard == s);
                }
                assert(self.nodes@.contains(nn));
                let i3 = choose|i3: int| 0 <= i3 < self.nodes@.len() && self.nodes@[i3] == nn;
                assert(self.nodes@[i3].shard == shard);
            }
            k = k + 1;
        }
        assert forall|s: ShardId| #[trigger]
            self.shard_ids@.contains(s) implies exists|i: int|
            0 <= i < self.nodes@.len() && self.nodes@[i].shard == s by {}
        assert forall|i: int, j: int|
            0 <= i < j < self.shard_ids@.len() implies self.shard_ids@[i] != self.shard_ids@[
            j
        ] by {
            if j == self.shard_ids@.len() - 1 && self.shard_ids@[i] == shard {
                assert(old(self).shard_ids@[i] == shard);
                assert(old(self).shard_ids@.contains(shard));
            }
        }
        assert(self.shard_ids@.contains(shard)) by {
            assert(self.shard_ids@[self.shard_ids@.len() - 1] == shard);
        }
        assert forall|s: ShardId| self.contains_shard(s) implies (old(self).contains_shard(s)
            || s == shard) by {
            let k2 = choose|k2: int|
                0 <= k2 < self.shard_ids@.len() && self.shard_ids@[k2] == s;
            if k2 < old(self).shard_ids@.len() {
                assert(old(self).shard_ids@[k2] == s);
            }
        }
        assert forall|s: ShardId| old(self).contains_shard(s) implies self.contains_shard(
            s,
        ) by {
            let k2 = choose|k2: int|
                0 <= k2 < old(self).shard_ids@.len() && old(self).shard_ids@[k2] == s;
            assert(self.shard_ids@[k2] == s);
        }
    }

    /// Index of the first node at or after position `h`, wrapping to 0.
    pub open spec fn spec_succ_index(nodes: Seq<RingNode>, h: u64) -> int
        decreases nodes.len(),
    {
        if nodes.len() == 0 {
            0
        } else if nodes[0].hash >= h {
            0
        } else {
            1 + Self::spec_succ_index(nodes.drop_first(), h)
        }
    }

    /// The shard that owns point `p`: the owner of the first virtual node at
    /// or clockwise after the point's position.
    pub open spec fn spec_shard_of(self, p: PointId) -> ShardId {
        let h = spec_point_key(p);
        let i = Self::spec_succ_index(self.nodes@, h);
        if i < self.nodes@.len() {
            self.nodes@[i].shard
        } else {
            self.nodes@[0].shard
        }
    }

    proof fn lemma_succ_index_is_first_match(nodes: Seq<RingNode>, h: u64, i: int)
        requires
            0 <= i <= nodes.len(),
            forall|j: int| 0 <= j < i ==> nodes[j].hash < h,
            i == nodes.len() || nodes[i].hash >= h,
        ensures
            Self::spec_succ_index(nodes, h) == i,
        decreases i,
    {
        if i == 0 {
        } else {
            Self::lemma_succ_index_is_first_match(nodes.drop_first(), h, i - 1);
        }
    }

    /// Route a point to its shard. Total on every non-empty ring, and a pure
    /// function of the ring and the point: identical on all peers.
    pub fn shard_of(&self, p: &PointId) -> (r: ShardId)
        requires
            self.wf(),
            self.nodes_view().len() > 0,
        ensures
            r == self.spec_shard_of(*p),
            self.contains_shard(r),
    {
        let h = point_key(p);
        let n = self.nodes.len();
        let mut i: usize = 0;
        while i < n && self.nodes[i].hash < h
            invariant
                0 <= i <= n,
                n == self.nodes@.len(),
                self.wf(),
                forall|j: int| 0 <= j < i ==> self.nodes@[j].hash < h,
            decreases n - i,
        {
            i = i + 1;
        }
        proof {
            Self::lemma_succ_index_is_first_match(self.nodes@, h, i as int);
        }
        if i < n {
            self.nodes[i].shard
        } else {
            self.nodes[0].shard
        }
    }
}

/// Insert a node into a sorted node list, keeping it sorted; a node already
/// present is left alone.
fn insert_sorted(nodes: &mut Vec<RingNode>, n: RingNode)
    requires
        sorted_nodes(old(nodes)@),
    ensures
        sorted_nodes(final(nodes)@),
        final(nodes)@.contains(n),
        forall|m: RingNode| #[trigger] final(nodes)@.contains(m) <==> (old(nodes)@.contains(m)
            || m == n),
        final(nodes)@.len() >= old(nodes)@.len(),
{
    let len = nodes.len();
    let mut i: usize = 0;
    while i < len && (nodes[i].hash < n.hash || (nodes[i].hash == n.hash && nodes[i].shard
        < n.shard))
        invariant
            0 <= i <= len,
            len == nodes@.len(),
            nodes@ == old(nodes)@,
            forall|j: int| 0 <= j < i ==> node_lt(nodes@[j], n),
        decreases len - i,
    {
        i = i + 1;
    }
    if i < len && nodes[i].hash == n.hash && nodes[i].shard == n.shard {
        assert(nodes@[i as int] == n);
        assert(nodes@.contains(n));
        return ;
    }
    let ghost pre = nodes@;
    assert(forall|j: int| 0 <= j < i ==> node_lt(pre[j], n));
    assert(i < pre.len() ==> node_lt(n, pre[i as int]));
    nodes.insert(i, n);
    assert forall|a: int, b: int| 0 <= a < b < nodes@.len() implies node_lt(
        nodes@[a],
        nodes@[b],
    ) by {
        if a < i {
            assert(nodes@[a] == pre[a]);
        } else if a > i {
            assert(nodes@[a] == pre[a - 1]);
        }
        if b < i {
            assert(nodes@[b] == pre[b]);
        } else if b > i {
            assert(nodes@[b] == pre[b - 1]);
        }
        if a == i && b > i {
            assert(node_lt(n, pre[i as int]));
            if b - 1 > i {
                assert(node_lt(pre[i as int], pre[b - 1]));
            }
        }
    }
    assert forall|m: RingNode| #[trigger] nodes@.contains(m) implies (pre.contains(m) || m
        == n) by {
        let idx = choose|idx: int| 0 <= idx < nodes@.len() && nodes@[idx] == m;
        if idx < i {
            assert(pre[idx] == m);
        } else if idx > i {
            assert(pre[idx - 1] == m);
        }
    }
    assert forall|m: RingNode| pre.contains(m) implies nodes@.contains(m) by {
        let idx = choose|idx: int| 0 <= idx < pre.len() && pre[idx] == m;
        if idx < i {
            assert(nodes@[idx] == m);
        } else {
            assert(nodes@[idx + 1] == m);
        }
    }
    assert(nodes@[i as int] == n);
}

} // verus!
