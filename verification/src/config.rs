//! The collection configuration and the partial "diff" updates that
//! consensus applies to it. Only the fields the coordinator's decisions read
//! are modelled; vector names are carried as numeric identifiers.

use vstd::prelude::*;

use crate::types::CollectionError;

verus! {

/// Distance measure of one vector space.
#[derive(Clone, Copy, PartialEq, Eq, Structural, Debug)]
pub enum Distance {
    Cosine,
    Dot,
    Euclid,
}

/// Whether a larger or a smaller score is the better match.
#[derive(Clone, Copy, PartialEq, Eq, Structural, Debug)]
pub enum Order {
    LargeBetter,
    SmallBetter,
}

impl Distance {
    pub open spec fn spec_distance_order(self) -> Order {
        match self {
            Distance::Cosine => Order::LargeBetter,
            Distance::Dot => Order::LargeBetter,
            Distance::Euclid => Order::SmallBetter,
        }
    }

    /// Cosine and dot similarities grow with likeness; euclidean distance
    /// shrinks with it.
    pub fn distance_order(&self) -> (r: Order)
        ensures
            r == self.spec_distance_order(),
    {
        match self {
            Distance::Euclid => Order::SmallBetter,
            _ => Order::LargeBetter,
        }
    }
}

/// Parameters of one named vector space. The name is carried as a numeric
/// identifier; the default unnamed vector is 0.
#[derive(Clone, Copy, PartialEq, Eq, Structural, Debug)]
pub struct VectorParams {
    pub name_id: u64,
    pub distance: Distance,
}

/// Core collection parameters; the shard number is fixed at creation.
#[derive(Clone, Debug)]
pub struct CollectionParams {
    pub shard_number: u32,
    pub replication_factor: u32,
    pub write_consistency_factor: u32,
    pub vectors: Vec<VectorParams>,
}

/// Index build parameters.
#[derive(Clone, Copy, PartialEq, Eq, Structural, Debug)]
pub struct HnswConfig {
    pub m: u64,
    pub ef_construct: u64,
    pub full_scan_threshold: u64,
}

/// Optimizer parameters.
#[derive(Clone, Copy, PartialEq, Eq, Structural, Debug)]
pub struct OptimizersConfig {
    pub deleted_threshold_permille: u64,
    pub default_segment_number: u64,
    pub max_segment_size: u64,
    pub flush_interval_sec: u64,
}

/// Write-ahead-log parameters.
#[derive(Clone, Copy, PartialEq, Eq, Structural, Debug)]
pub struct WalConfig {
    pub wal_capacity_mb: u64,
    pub wal_segments_ahead: u64,
}

/// Quantization settings, one scheme at a time.
#[derive(Clone, Copy, PartialEq, Eq, Structural, Debug)]
pub enum QuantizationConfig {
    Scalar { quantile_permille: u64 },
    Product { compression: u64 },
    Binary { always_ram: bool },
}

/// The whole persisted configuration of a collection.
#[derive(Clone, Debug)]
pub struct CollectionConfig {
    pub params: CollectionParams,
    pub hnsw_config: HnswConfig,
    pub optimizer_config: OptimizersConfig,
    pub wal_config: WalConfig,
    pub quantization_config: Option<QuantizationConfig>,
}

/// First vector-space entry with the given name identifier.
pub open spec fn spec_find_vector_params(s: Seq<VectorParams>, name_id: u64) -> Option<
    VectorParams,
>
    decreases s.len(),
{
    if s.len() == 0 {
        None
    } else if s[0].name_id == name_id {
        Some(s[0])
    } else {
        spec_find_vector_params(s.drop_first(), name_id)
    }
}

proof fn lemma_find_vector_params_at(s: Seq<VectorParams>, name_id: u64, i: int)
    requires
        0 <= i <= s.len(),
        forall|j: int| 0 <= j < i ==> s[j].name_id != name_id,
        i == s.len() || s[i].name_id == name_id,
    ensures
        spec_find_vector_params(s, name_id) == if i == s.len() {
            None::<VectorParams>
        } else {
            Some(s[i])
        },
    decreases i,
{
    if i == 0 {
    } else {
        lemma_find_vector_params_at(s.drop_first(), name_id, i - 1);
    }
}

impl CollectionParams {
    /// Parameters of the vector space a search addresses.
    pub fn get_vector_params(&self, name_id: u64) -> (r: Option<VectorParams>)
        ensures
            r == spec_find_vector_params(self.vectors@, name_id),
    {
        let n = self.vectors.len();
        let mut i: usize = 0;
        while i < n && self.vectors[i].name_id != name_id
            invariant
                0 <= i <= n,
                n == self.vectors@.len(),
                forall|j: int| 0 <= j < i ==> self.vectors@[j].name_id != name_id,
            decreases n - i,
        {
            i = i + 1;
        }
        proof {
            lemma_find_vector_params_at(self.vectors@, name_id, i as int);
        }
        if i < n {
            Some(self.vectors[i])
        } else {
            None
        }
    }
}

/// Partial update of the core parameters; the shard number cannot change.
#[derive(Clone, Copy, PartialEq, Eq, Structural, Debug)]
pub struct CollectionParamsDiff {
    pub replication_factor: Option<u32>,
    pub write_consistency_factor: Option<u32>,
}

impl CollectionParamsDiff {
    /// Fields present in the diff replace the stored ones.
    pub fn update(&self, params: &CollectionParams) -> (r: Result<
        CollectionParams,
        CollectionError,
    >)
        ensures
            r is Ok,
            (r->Ok_0.shard_number == params.shard_number),
            (r->Ok_0.vectors@ == params.vectors@),
            r->Ok_0.replication_factor == (match self.replication_factor {
                Some(v) => v,
                None => params.replication_factor,
            }),
            r->Ok_0.write_consistency_factor == (match self.write_consistency_factor {
                Some(v) => v,
                None => params.write_consistency_factor,
            }),
    {
        let mut out = CollectionParams {
            shard_number: params.shard_number,
            replication_factor: params.replication_factor,
            write_consistency_factor: params.write_consistency_factor,
            vectors: clone_vector_params(&params.vectors),
        };
        if let Some(v) = self.replication_factor {
            out.replication_factor = v;
        }
        if let Some(v) = self.write_consistency_factor {
            out.write_consistency_factor = v;
        }
        Ok(out)
    }
}

fn clone_vector_params(v: &Vec<VectorParams>) -> (r: Vec<VectorParams>)
    ensures
        r@ == v@,
{
    let mut r: Vec<VectorParams> = Vec::new();
    let n = v.len();
    let mut i: usize = 0;
    while i < n
        invariant
            0 <= i <= n,
            n == v@.len(),
            r@ == v@.take(i as int),
        decreases n - i,
    {
        r.push(v[i]);
        assert(r@ =~= v@.take(i as int + 1));
        i = i + 1;
    }
    assert(v@.take(n as int) =~= v@);
    r
}

/// Partial update of the index build parameters.
#[derive(Clone, Copy, PartialEq, Eq, Structural, Debug)]
pub struct HnswConfigDiff {
    pub m: Option<u64>,
    pub ef_construct: Option<u64>,
    pub full_scan_threshold: Option<u64>,
}

impl HnswConfigDiff {
    /// Fields present in the diff replace the stored ones.
    pub fn update(&self, config: &HnswConfig) -> (r: Result<HnswConfig, CollectionError>)
        ensures
            r is Ok,
            r->Ok_0.m == (match self.m {
                Some(v) => v,
                None => config.m,
            }),
            r->Ok_0.ef_construct == (match self.ef_construct {
                Some(v) => v,
                None => config.ef_construct,
            }),
            r->Ok_0.full_scan_threshold == (match self.full_scan_threshold {
                Some(v) => v,
                None => config.full_scan_threshold,
            }),
    {
        let mut out = *config;
        if let Some(v) = self.m {
            out.m = v;
        }
        if let Some(v) = self.ef_construct {
            out.ef_construct = v;
        }
        if let Some(v) = self.full_scan_threshold {
            out.full_scan_threshold = v;
        }
        Ok(out)
    }
}

/// Partial update of the optimizer parameters.
#[derive(Clone, Copy, PartialEq, Eq, Structural, Debug)]
pub struct OptimizersConfigDiff {
    pub deleted_threshold_permille: Option<u64>,
    pub default_segment_number: Option<u64>,
    pub max_segment_size: Option<u64>,
    pub flush_interval_sec: Option<u64>,
}

impl OptimizersConfigDiff {
    /// Fields present in the diff replace the stored ones.
    pub fn update(&self, config: &OptimizersConfig) -> (r: Result<
        OptimizersConfig,
        CollectionError,
    >)
        ensures
            r is Ok,
            r->Ok_0.deleted_threshold_permille == (match self.deleted_threshold_permille {
                Some(v) => v,
                None => config.deleted_threshold_permille,
            }),
            r->Ok_0.default_segment_number == (match self.default_segment_number {
                Some(v) => v,
                None => config.default_segment_number,
            }),
            r->Ok_0.max_segment_size == (match self.max_segment_size {
                Some(v) => v,
                None => config.max_segment_size,
            }),
            r->Ok_0.flush_interval_sec == (match self.flush_interval_sec {
                Some(v) => v,
                None => config.flush_interval_sec,
            }),
    {
        let mut out = *config;
        if let Some(v) = self.deleted_threshold_permille {
            out.deleted_threshold_permille = v;
        }
        if let Some(v) = self.default_segment_number {
            out.default_segment_number = v;
        }
        if let Some(v) = self.max_segment_size {
            out.max_segment_size = v;
        }
        if let Some(v) = self.flush_interval_sec {
            out.flush_interval_sec = v;
        }
        Ok(out)
    }
}

/// Tagged quantization update: set one scheme, or clear it.
#[derive(Clone, Copy, PartialEq, Eq, Structural, Debug)]
pub enum QuantizationConfigDiff {
    Scalar { quantile_permille: u64 },
    Product { compression: u64 },
    Binary { always_ram: bool },
    Disabled,
}

} // verus!
