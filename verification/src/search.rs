//! Query fan-out and merge: scored points, the order-aware top-K merge of
//! per-shard search results, scroll pagination, count aggregation and the
//! payload-enrichment step of the two-phase search.
//!
//! Scores are carried as order-preserving integer keys: the surrounding
//! runtime maps each floating-point score to a key monotonically, so every
//! comparison the merge makes agrees with the one the shards made.

use vstd::prelude::*;
use vstd::multiset::Multiset;
use vstd::seq_lib::lemma_multiset_commutative;

use crate::collection::Collection;
use crate::config::{spec_find_vector_params, Order};
use crate::types::{CollectionError, PointId, ShardId};

verus! {

broadcast use vstd::seq_lib::group_seq_properties;

/// Order-preserving integer form of a score.
pub type ScoreKey = i64;

/// One scored point of a search result. Payload and vector are carried as
/// opaque handles owned by the storage layer.
#[derive(Clone, Copy, PartialEq, Eq, Structural, Debug)]
pub struct ScoredPoint {
    pub id: PointId,
    pub version: u64,
    pub score: ScoreKey,
    pub payload: Option<u64>,
    pub vector: Option<u64>,
}

/// One retrieved point.
#[derive(Clone, Copy, PartialEq, Eq, Structural, Debug)]
pub struct Record {
    pub id: PointId,
    pub payload: Option<u64>,
    pub vector: Option<u64>,
}

/// One search of a batch. The vector space is addressed by its numeric
/// name identifier; `None` for payload or vector means "not requested".
#[derive(Clone, Copy, PartialEq, Eq, Structural, Debug)]
pub struct SearchRequest {
    pub vector_name_id: u64,
    pub limit: usize,
    pub offset: usize,
    pub with_payload: Option<bool>,
    pub with_vector: Option<bool>,
}

/// A batch of searches answered together.
#[derive(Clone, Debug)]
pub struct SearchRequestBatch {
    pub searches: Vec<SearchRequest>,
}

/// Is `a` a strictly better match than `b` under the declared order?
pub open spec fn spec_better(a: ScoredPoint, b: ScoredPoint, order: Order) -> bool {
    match order {
        Order::LargeBetter => a.score > b.score,
        Order::SmallBetter => a.score < b.score,
    }
}

/// Best-first: no later element is strictly better than an earlier one.
pub open spec fn spec_sorted_by_order(s: Seq<ScoredPoint>, order: Order) -> bool {
    forall|i: int, j: int| 0 <= i < j < s.len() ==> !spec_better(s[j], s[i], order)
}

/// Insert `x` behind every element at least as good: the insertion step of
/// a stable best-first insertion sort.
pub open spec fn spec_insert_by_order(s: Seq<ScoredPoint>, x: ScoredPoint, order: Order) -> Seq<
    ScoredPoint,
>
    decreases s.len(),
{
    if s.len() == 0 {
        seq![x]
    } else if spec_better(x, s[0], order) {
        seq![x] + s
    } else {
        seq![s[0]] + spec_insert_by_order(s.drop_first(), x, order)
    }
}

/// Stable best-first insertion sort; the exact result the merge returns.
pub open spec fn spec_sort_by_order(s: Seq<ScoredPoint>, order: Order) -> Seq<ScoredPoint>
    decreases s.len(),
{
    if s.len() == 0 {
        Seq::empty()
    } else {
        spec_insert_by_order(spec_sort_by_order(s.drop_last(), order), s.last(), order)
    }
}

proof fn lemma_insert_at(s: Seq<ScoredPoint>, x: ScoredPoint, order: Order, j: int)
    requires
        0 <= j <= s.len(),
        forall|t: int| 0 <= t < j ==> !spec_better(x, s[t], order),
        j == s.len() || spec_better(x, s[j], order),
    ensures
        spec_insert_by_order(s, x, order) == s.take(j) + seq![x] + s.skip(j),
    decreases j,
{
    if j == 0 {
        if s.len() == 0 {
            assert(s.take(0) + seq![x] + s.skip(0) =~= seq![x]);
        } else {
            assert(s.take(0) + seq![x] + s.skip(0) =~= seq![x] + s);
        }
    } else {
        lemma_insert_at(s.drop_first(), x, order, j - 1);
        assert(seq![s[0]] + (s.drop_first().take(j - 1) + seq![x] + s.drop_first().skip(j - 1))
            =~= s.take(j) + seq![x] + s.skip(j));
    }
}

pub proof fn lemma_insert_by_order_multiset(s: Seq<ScoredPoint>, x: ScoredPoint, order: Order)
    ensures
        spec_insert_by_order(s, x, order).to_multiset() == s.to_multiset().insert(x),
        spec_insert_by_order(s, x, order).len() == s.len() + 1,
    decreases s.len(),
{
    s.to_multiset_ensures();
    spec_insert_by_order(s, x, order).to_multiset_ensures();
    if s.len() == 0 {
        assert(spec_insert_by_order(s, x, order) =~= Seq::<ScoredPoint>::empty().push(x));
        Seq::<ScoredPoint>::empty().to_multiset_ensures();
        assert(Seq::<ScoredPoint>::empty().to_multiset() =~= Multiset::<ScoredPoint>::empty());
        assert(Seq::<ScoredPoint>::empty().push(x).to_multiset() =~= s.to_multiset().insert(x));
    } else if spec_better(x, s[0], order) {
        lemma_multiset_commutative(seq![x], s);
        assert(seq![x] =~= Seq::<ScoredPoint>::empty().push(x));
        Seq::<ScoredPoint>::empty().to_multiset_ensures();
        Seq::<ScoredPoint>::empty().push(x).to_multiset_ensures();
        assert(Seq::<ScoredPoint>::empty().to_multiset() =~= Multiset::<ScoredPoint>::empty());
        assert(seq![x].to_multiset() =~= Multiset::<ScoredPoint>::empty().insert(x));
        assert((seq![x] + s).to_multiset() =~= s.to_multiset().insert(x));
    } else {
        lemma_insert_by_order_multiset(s.drop_first(), x, order);
        lemma_multiset_commutative(seq![s[0]], spec_insert_by_order(s.drop_first(), x, order));
        lemma_multiset_commutative(seq![s[0]], s.drop_first());
        assert(seq![s[0]] + s.drop_first() =~= s);
        assert(seq![s[0]].to_multiset().add(
            s.drop_first().to_multiset().insert(x),
        ) =~= seq![s[0]].to_multiset().add(s.drop_first().to_multiset()).insert(x));
        assert((seq![s[0]] + spec_insert_by_order(s.drop_first(), x, order)).to_multiset()
            =~= s.to_multiset().insert(x));
    }
}

pub proof fn lemma_insert_by_order_sorted(s: Seq<ScoredPoint>, x: ScoredPoint, order: Order)
    requires
        spec_sorted_by_order(s, order),
    ensures
        spec_sorted_by_order(spec_insert_by_order(s, x, order), order),
    decreases s.len(),
{
    let out = spec_insert_by_order(s, x, order);
    if s.len() == 0 {
    } else if spec_better(x, s[0], order) {
        assert forall|i: int, j: int| 0 <= i < j < out.len() implies !spec_better(
            out[j],
            out[i],
            order,
        ) by {
            if i == 0 {
                assert(out[j] == s[j - 1]);
                if spec_better(s[j - 1], x, order) {
                    if j - 1 > 0 {
                        assert(!spec_better(s[j - 1], s[0], order));
                    }
                }
            } else {
                assert(out[i] == s[i - 1]);
                assert(out[j] == s[j - 1]);
            }
        }
    } else {
        assert forall|a: int, b: int|
            0 <= a < b < s.drop_first().len() implies !spec_better(
            s.drop_first()[b],
            s.drop_first()[a],
            order,
        ) by {
            assert(s.drop_first()[a] == s[a + 1]);
            assert(s.drop_first()[b] == s[b + 1]);
        }
        lemma_insert_by_order_sorted(s.drop_first(), x, order);
        lemma_insert_by_order_multiset(s.drop_first(), x, order);
        let rest = spec_insert_by_order(s.drop_first(), x, order);
        s.drop_first().to_multiset_ensures();
        rest.to_multiset_ensures();
        assert forall|i: int, j: int| 0 <= i < j < out.len() implies !spec_better(
            out[j],
            out[i],
            order,
        ) by {
            if i == 0 {
                assert(out[j] == rest[j - 1]);
                assert(rest.contains(rest[j - 1]));
                let y = rest[j - 1];
                assert(rest.to_multiset().count(y) > 0);
                if y == x {
                    assert(!spec_better(x, s[0], order));
                } else {
                    assert(s.drop_first().to_multiset().insert(x).count(y) > 0);
                    assert(s.drop_first().to_multiset().count(y) > 0);
                    assert(s.drop_first().contains(y));
                    let k = choose|k: int|
                        0 <= k < s.drop_first().len() && s.drop_first()[k] == y;
                    assert(s[k + 1] == y);
                    assert(!spec_better(y, s[0], order));
                }
            } else {
                assert(out[i] == rest[i - 1]);
                assert(out[j] == rest[j - 1]);
            }
        }
    }
}

pub proof fn lemma_sort_by_order_correct(s: Seq<ScoredPoint>, order: Order)
    ensures
        spec_sort_by_order(s, order).to_multiset() == s.to_multiset(),
        spec_sort_by_order(s, order).len() == s.len(),
        spec_sorted_by_order(spec_sort_by_order(s, order), order),
    decreases s.len(),
{
    s.to_multiset_ensures();
    if s.len() == 0 {
    } else {
        lemma_sort_by_order_correct(s.drop_last(), order);
        let pre = spec_sort_by_order(s.drop_last(), order);
        lemma_insert_by_order_multiset(pre, s.last(), order);
        lemma_insert_by_order_sorted(pre, s.last(), order);
        s.drop_last().to_multiset_ensures();
        assert(s =~= s.drop_last().push(s.last()));
        assert(s.drop_last().push(s.last()).to_multiset() =~= s.drop_last().to_multiset().insert(
            s.last(),
        ));
    }
}

fn better(a: &ScoredPoint, b: &ScoredPoint, order: Order) -> (r: bool)
    ensures
        r == spec_better(*a, *b, order),
{
    match order {
        Order::LargeBetter => a.score > b.score,
        Order::SmallBetter => a.score < b.score,
    }
}

/// Insert one point into a best-first sorted list, behind its equals.
fn insert_by_order(v: Vec<ScoredPoint>, x: ScoredPoint, order: Order) -> (r: Vec<ScoredPoint>)
    ensures
        r@ == spec_insert_by_order(v@, x, order),
{
    let n = v.len();
    let mut j: usize = 0;
    while j < n && !better(&x, &v[j], order)
        invariant
            0 <= j <= n,
            n == v@.len(),
            forall|t: int| 0 <= t < j ==> !spec_better(x, v@[t], order),
        decreases n - j,
    {
        j = j + 1;
    }
    proof {
        lemma_insert_at(v@, x, order, j as int);
    }
    let mut r: Vec<ScoredPoint> = Vec::new();
    let mut i: usize = 0;
    while i < j
        invariant
            0 <= i <= j <= n,
            n == v@.len(),
            r@ == v@.take(i as int),
        decreases j - i,
    {
        r.push(v[i]);
        assert(r@ =~= v@.take(i as int + 1));
        i = i + 1;
    }
    r.push(x);
    let mut k: usize = j;
    while k < n
        invariant
            j <= k <= n,
            n == v@.len(),
            r@ == v@.take(j as int) + seq![x] + v@.subrange(j as int, k as int),
        decreases n - k,
    {
        r.push(v[k]);
        assert(r@ =~= v@.take(j as int) + seq![x] + v@.subrange(j as int, k as int + 1));
        k = k + 1;
    }
    assert(v@.subrange(j as int, n as int) =~= v@.skip(j as int));
    r
}

/// Sort a list of scored points best-first; stable, so shards' own
/// orderings are kept among equals.
pub fn sort_by_order(v: &Vec<ScoredPoint>, order: Order) -> (r: Vec<ScoredPoint>)
    ensures
        r@ == spec_sort_by_order(v@, order),
{
    let n = v.len();
    let mut r: Vec<ScoredPoint> = Vec::new();
    let mut i: usize = 0;
    while i < n
        invariant
            0 <= i <= n,
            n == v@.len(),
            r@ == spec_sort_by_order(v@.take(i as int), order),
        decreases n - i,
    {
        assert(v@.take(i as int + 1).drop_last() =~= v@.take(i as int));
        assert(v@.take(i as int + 1).last() == v@[i as int]);
        r = insert_by_order(r, v[i], order);
        i = i + 1;
    }
    assert(v@.take(n as int) =~= v@);
    r
}

/// The best `k` of `s` under the order, best first.
pub open spec fn spec_peek_top(s: Seq<ScoredPoint>, k: nat, order: Order) -> Seq<ScoredPoint> {
    let sorted = spec_sort_by_order(s, order);
    if k < sorted.len() {
        sorted.take(k as int)
    } else {
        sorted
    }
}

/// Keep the best `k` points, best first: the merge step applied to the
/// concatenation of per-shard top-K lists.
pub fn peek_top(v: &Vec<ScoredPoint>, k: usize, order: Order) -> (r: Vec<ScoredPoint>)
    ensures
        r@ == spec_peek_top(v@, k as nat, order),
{
    let mut sorted = sort_by_order(v, order);
    proof {
        lemma_sort_by_order_correct(v@, order);
    }
    if k < sorted.len() {
        let mut out: Vec<ScoredPoint> = Vec::new();
        let mut i: usize = 0;
        while i < k
            invariant
                0 <= i <= k,
                k < sorted@.len(),
                sorted@ == spec_sort_by_order(v@, order),
                out@ == sorted@.take(i as int),
            decreases k - i,
        {
            out.push(sorted[i]);
            assert(out@ =~= sorted@.take(i as int + 1));
            i = i + 1;
        }
        out
    } else {
        sorted
    }
}

/// One query's answers concatenated over the shards, in shard order.
pub open spec fn spec_concat_shard_answers(res: Seq<Vec<ScoredPoint>>) -> Seq<ScoredPoint>
    decreases res.len(),
{
    if res.len() == 0 {
        Seq::empty()
    } else {
        spec_concat_shard_answers(res.drop_last()) + res.last()@
    }
}

/// The answer one query of a batch gets: the global best `limit + offset`
/// of the concatenated per-shard answers, then — for a fan-out request —
/// the first `offset` dropped. A single-shard request already applied the
/// offset on the shard, so it is not applied again.
pub open spec fn spec_query_result(
    merged: Seq<ScoredPoint>,
    limit: nat,
    offset: nat,
    order: Order,
    selected: bool,
) -> Seq<ScoredPoint> {
    let top = spec_peek_top(merged, limit + offset, order);
    if !selected && offset > 0 {
        if top.len() >= offset {
            top.skip(offset as int)
        } else {
            Seq::empty()
        }
    } else {
        top
    }
}

/// Sum of the requested page sizes of a batch.
pub open spec fn spec_sum_limits(s: Seq<SearchRequest>) -> nat
    decreases s.len(),
{
    if s.len() == 0 {
        0
    } else {
        spec_sum_limits(s.drop_last()) + s.last().limit as nat
    }
}

/// Sum of the requested offsets of a batch.
pub open spec fn spec_sum_offsets(s: Seq<SearchRequest>) -> nat
    decreases s.len(),
{
    if s.len() == 0 {
        0
    } else {
        spec_sum_offsets(s.drop_last()) + s.last().offset as nat
    }
}

/// Every search of the batch asks for the payload.
pub open spec fn spec_all_payload_required(s: Seq<SearchRequest>) -> bool {
    forall|i: int| 0 <= i < s.len() ==> (#[trigger] s[i]).with_payload == Some(true)
}

/// Every search of the batch asks for the vectors.
pub open spec fn spec_all_vectors_required(s: Seq<SearchRequest>) -> bool {
    forall|i: int| 0 <= i < s.len() ==> (#[trigger] s[i]).with_vector == Some(true)
}

/// The two-phase threshold: fetch metadata separately when it is requested
/// and the fan-out would move more than ten times the records actually
/// used.
pub open spec fn spec_uses_two_phase(searches: Seq<SearchRequest>, shard_count: nat) -> bool {
    (spec_all_payload_required(searches) || spec_all_vectors_required(searches)) && shard_count
        * (spec_sum_limits(searches) + spec_sum_offsets(searches)) > 10 * spec_sum_limits(
        searches,
    )
}

proof fn lemma_sums_prefix_bound(s: Seq<SearchRequest>, i: int)
    requires
        0 <= i <= s.len(),
    ensures
        spec_sum_limits(s.take(i)) <= spec_sum_limits(s),
        spec_sum_offsets(s.take(i)) <= spec_sum_offsets(s),
    decreases s.len() - i,
{
    if i == s.len() {
        assert(s.take(i) =~= s);
    } else {
        lemma_sums_prefix_bound(s, i + 1);
        assert(s.take(i + 1).drop_last() =~= s.take(i));
        assert(s.take(i + 1).last() == s[i]);
    }
}

/// First record with the given id, or the length when there is none.
pub open spec fn spec_find_record(records: Seq<Record>, id: PointId) -> int
    decreases records.len(),
{
    if records.len() == 0 {
        0
    } else if records[0].id == id {
        0
    } else {
        1 + spec_find_record(records.drop_first(), id)
    }
}

proof fn lemma_find_record_at(records: Seq<Record>, id: PointId, i: int)
    requires
        0 <= i <= records.len(),
        forall|j: int| 0 <= j < i ==> records[j].id != id,
        i == records.len() || records[i].id == id,
    ensures
        spec_find_record(records, id) == i,
    decreases i,
{
    if i == 0 {
    } else {
        lemma_find_record_at(records.drop_first(), id, i - 1);
    }
}

/// Join scored points with the records retrieved for them: each point
/// takes the payload and vector of the first not-yet-used record with its
/// id; a point whose record is gone — deleted between search and retrieve —
/// is dropped.
pub open spec fn spec_fill(points: Seq<ScoredPoint>, records: Seq<Record>) -> Seq<ScoredPoint>
    decreases points.len(),
{
    if points.len() == 0 {
        Seq::empty()
    } else {
        let p = points[0];
        let idx = spec_find_record(records, p.id);
        if idx < records.len() {
            seq![
                ScoredPoint {
                    payload: records[idx].payload,
                    vector: records[idx].vector,
                    ..p
                },
            ] + spec_fill(points.drop_first(), records.remove(idx))
        } else {
            spec_fill(points.drop_first(), records)
        }
    }
}

/// Put the retrieved payloads and vectors onto the surviving points of a
/// search result. When neither payload nor vectors were asked for, both
/// are stripped instead.
pub fn fill_search_result_with_payload(
    search_result: Vec<ScoredPoint>,
    records: Vec<Record>,
    with_payload: Option<bool>,
    with_vector: Option<bool>,
) -> (r: Vec<ScoredPoint>)
    ensures
        with_payload == Some(false) && with_vector == Some(false) ==> r@.len()
            == search_result@.len() && (forall|i: int|
            0 <= i < search_result@.len() ==> r@[i] == (ScoredPoint {
                payload: None,
                vector: None,
                ..search_result@[i]
            })),
        !(with_payload == Some(false) && with_vector == Some(false)) ==> r@ == spec_fill(
            search_result@,
            records@,
        ),
{
    let strip = match (with_payload, with_vector) {
        (Some(false), Some(false)) => true,
        _ => false,
    };
    if strip {
        let mut out: Vec<ScoredPoint> = Vec::new();
        let n = search_result.len();
        let mut i: usize = 0;
        while i < n
            invariant
                0 <= i <= n,
                n == search_result@.len(),
                out@.len() == i,
                forall|j: int|
                    0 <= j < i ==> out@[j] == (ScoredPoint {
                        payload: None,
                        vector: None,
                        ..search_result@[j]
                    }),
            decreases n - i,
        {
            let p = search_result[i];
            out.push(ScoredPoint { payload: None, vector: None, ..p });
            i = i + 1;
        }
        return out;
    }
    let mut records = records;
    let ghost records0 = records@;
    let mut out: Vec<ScoredPoint> = Vec::new();
    let n = search_result.len();
    let mut i: usize = 0;
    while i < n
        invariant
            0 <= i <= n,
            n == search_result@.len(),
            spec_fill(search_result@, records0) == out@ + spec_fill(
                search_result@.skip(i as int),
                records@,
            ),
        decreases n - i,
    {
        assert(search_result@.skip(i as int)[0] == search_result@[i as int]);
        assert(search_result@.skip(i as int).drop_first() =~= search_result@.skip(i as int + 1));
        let p = search_result[i];
        let m = records.len();
        let mut j: usize = 0;
        while j < m && !point_ids_equal(&records[j].id, &p.id)
            invariant
                0 <= j <= m,
                m == records@.len(),
                forall|t: int| 0 <= t < j ==> records@[t].id != p.id,
            decreases m - j,
        {
            j = j + 1;
        }
        proof {
            lemma_find_record_at(records@, p.id, j as int);
        }
        if j < m {
            let rec = records[j];
            records.remove(j);
            out.push(ScoredPoint { payload: rec.payload, vector: rec.vector, ..p });
        }
        i = i + 1;
    }
    assert(search_result@.skip(n as int) =~= Seq::<ScoredPoint>::empty());
    assert(out@ + Seq::<ScoredPoint>::empty() =~= out@);
    out
}

fn point_ids_equal(a: &PointId, b: &PointId) -> (r: bool)
    ensures
        r == (*a == *b),
{
    match (a, b) {
        (PointId::Num(x), PointId::Num(y)) => x == y,
        (PointId::Uuid(x), PointId::Uuid(y)) => x == y,
        _ => false,
    }
}

/// Strict id order used by scroll pagination: numeric ids before UUID ids.
pub open spec fn spec_id_lt(a: PointId, b: PointId) -> bool {
    match (a, b) {
        (PointId::Num(x), PointId::Num(y)) => x < y,
        (PointId::Num(_), PointId::Uuid(_)) => true,
        (PointId::Uuid(_), PointId::Num(_)) => false,
        (PointId::Uuid(x), PointId::Uuid(y)) => x < y,
    }
}

fn id_lt(a: &PointId, b: &PointId) -> (r: bool)
    ensures
        r == spec_id_lt(*a, *b),
{
    match (a, b) {
        (PointId::Num(x), PointId::Num(y)) => x < y,
        (PointId::Num(_), PointId::Uuid(_)) => true,
        (PointId::Uuid(_), PointId::Num(_)) => false,
        (PointId::Uuid(x), PointId::Uuid(y)) => x < y,
    }
}

/// Insertion step of the stable sort of records by id.
pub open spec fn spec_insert_record(s: Seq<Record>, x: Record) -> Seq<Record>
    decreases s.len(),
{
    if s.len() == 0 {
        seq![x]
    } else if spec_id_lt(x.id, s[0].id) {
        seq![x] + s
    } else {
        seq![s[0]] + spec_insert_record(s.drop_first(), x)
    }
}

/// Stable sort of records by id, ties kept in arrival (shard) order.
pub open spec fn spec_sort_records(s: Seq<Record>) -> Seq<Record>
    decreases s.len(),
{
    if s.len() == 0 {
        Seq::empty()
    } else {
        spec_insert_record(spec_sort_records(s.drop_last()), s.last())
    }
}

proof fn lemma_insert_record_at(s: Seq<Record>, x: Record, j: int)
    requires
        0 <= j <= s.len(),
        forall|t: int| 0 <= t < j ==> !spec_id_lt(x.id, s[t].id),
        j == s.len() || spec_id_lt(x.id, s[j].id),
    ensures
        spec_insert_record(s, x) == s.take(j) + seq![x] + s.skip(j),
    decreases j,
{
    if j == 0 {
        if s.len() == 0 {
            assert(s.take(0) + seq![x] + s.skip(0) =~= seq![x]);
        } else {
            assert(s.take(0) + seq![x] + s.skip(0) =~= seq![x] + s);
        }
    } else {
        lemma_insert_record_at(s.drop_first(), x, j - 1);
        assert(seq![s[0]] + (s.drop_first().take(j - 1) + seq![x] + s.drop_first().skip(j - 1))
            =~= s.take(j) + seq![x] + s.skip(j));
    }
}

fn insert_record(v: Vec<Record>, x: Record) -> (r: Vec<Record>)
    ensures
        r@ == spec_insert_record(v@, x),
{
    let n = v.len();
    let mut j: usize = 0;
    while j < n && !id_lt(&x.id, &v[j].id)
        invariant
            0 <= j <= n,
            n == v@.len(),
            forall|t: int| 0 <= t < j ==> !spec_id_lt(x.id, v@[t].id),
        decreases n - j,
    {
        j = j + 1;
    }
    proof {
        lemma_insert_record_at(v@, x, j as int);
    }
    let mut r: Vec<Record> = Vec::new();
    let mut i: usize = 0;
    while i < j
        invariant
            0 <= i <= j <= n,
            n == v@.len(),
            r@ == v@.take(i as int),
        decreases j - i,
    {
        r.push(v[i]);
        assert(r@ =~= v@.take(i as int + 1));
        i = i + 1;
    }
    r.push(x);
    let mut k: usize = j;
    while k < n
        invariant
            j <= k <= n,
            n == v@.len(),
            r@ == v@.take(j as int) + seq![x] + v@.subrange(j as int, k as int),
        decreases n - k,
    {
        r.push(v[k]);
        assert(r@ =~= v@.take(j as int) + seq![x] + v@.subrange(j as int, k as int + 1));
        k = k + 1;
    }
    assert(v@.subrange(j as int, n as int) =~= v@.skip(j as int));
    r
}

/// Sort records by id, stable across shards.
pub fn sort_records(v: &Vec<Record>) -> (r: Vec<Record>)
    ensures
        r@ == spec_sort_records(v@),
{
    let n = v.len();
    let mut r: Vec<Record> = Vec::new();
    let mut i: usize = 0;
    while i < n
        invariant
            0 <= i <= n,
            n == v@.len(),
            r@ == spec_sort_records(v@.take(i as int)),
        decreases n - i,
    {
        assert(v@.take(i as int + 1).drop_last() =~= v@.take(i as int));
        assert(v@.take(i as int + 1).last() == v@[i as int]);
        r = insert_record(r, v[i]);
        i = i + 1;
    }
    assert(v@.take(n as int) =~= v@);
    r
}

/// Per-shard record lists flattened in shard order.
pub open spec fn spec_concat_records(res: Seq<Vec<Record>>) -> Seq<Record>
    decreases res.len(),
{
    if res.len() == 0 {
        Seq::empty()
    } else {
        spec_concat_records(res.drop_last()) + res.last()@
    }
}

/// The page size a scroll request asks for; ten when unspecified.
pub open spec fn spec_scroll_limit(request: ScrollRequest) -> nat {
    match request.limit {
        Some(l) => l as nat,
        None => 10,
    }
}

/// One scroll page: the per-shard answers flattened and ordered by id;
/// when a full extra point beyond the page exists, it is removed and its
/// id names the start of the next page.
pub open spec fn spec_scroll_page(retrieved: Seq<Vec<Record>>, lim: nat) -> (Seq<Record>, Option<
    PointId,
>) {
    let sorted = spec_sort_records(spec_concat_records(retrieved));
    let taken = if lim + 1 < sorted.len() {
        sorted.take((lim + 1) as int)
    } else {
        sorted
    };
    if taken.len() == lim + 1 {
        (taken.take(lim as int), Some(taken[lim as int].id))
    } else {
        (taken, None)
    }
}

/// A scroll request: pages through all points ordered by id.
#[derive(Clone, Copy, PartialEq, Eq, Structural, Debug)]
pub struct ScrollRequest {
    pub offset: Option<PointId>,
    pub limit: Option<usize>,
    pub with_payload: Option<bool>,
    pub with_vector: Option<bool>,
}

/// One page of a scroll, and where the next page starts.
pub struct ScrollResult {
    pub points: Vec<Record>,
    pub next_page_offset: Option<PointId>,
}

/// A count request; `exact` trades precision for speed on the shards.
#[derive(Clone, Copy, PartialEq, Eq, Structural, Debug)]
pub struct CountRequest {
    pub exact: bool,
}

#[derive(Clone, Copy, PartialEq, Eq, Structural, Debug)]
pub struct CountResult {
    pub count: u64,
}

/// Sum of per-shard counts.
pub open spec fn spec_sum_counts(s: Seq<CountResult>) -> nat
    decreases s.len(),
{
    if s.len() == 0 {
        0
    } else {
        spec_sum_counts(s.drop_last()) + s.last().count as nat
    }
}

impl Collection {
    /// Decide whether a search batch takes the two-phase path: first fetch
    /// ids only from every shard, then retrieve payloads for the survivors.
    pub fn search_batch_uses_two_phase(&self, request: &SearchRequestBatch) -> (r: bool)
        requires
            spec_sum_limits(request.searches@) + spec_sum_offsets(request.searches@)
                <= u64::MAX,
        ensures
            r == spec_uses_two_phase(request.searches@, self.spec_shards().len()),
    {
        let n = request.searches.len();
        let mut all_payload = true;
        let mut all_vector = true;
        let mut sum_limits: u128 = 0;
        let mut sum_offsets: u128 = 0;
        let mut i: usize = 0;
        while i < n
            invariant
                0 <= i <= n,
                n == request.searches@.len(),
                all_payload == (forall|j: int|
                    0 <= j < i ==> (#[trigger] request.searches@[j]).with_payload == Some(
                        true,
                    )),
                all_vector == (forall|j: int|
                    0 <= j < i ==> (#[trigger] request.searches@[j]).with_vector == Some(true)),
                sum_limits == spec_sum_limits(request.searches@.take(i as int)),
                sum_offsets == spec_sum_offsets(request.searches@.take(i as int)),
                spec_sum_limits(request.searches@) + spec_sum_offsets(request.searches@)
                    <= u64::MAX,
                sum_limits + sum_offsets <= u64::MAX,
            decreases n - i,
        {
            assert(request.searches@.take(i as int + 1).drop_last() =~= request.searches@.take(
                i as int,
            ));
            assert(request.searches@.take(i as int + 1).last() == request.searches@[i as int]);
            let s = request.searches[i];
            let payload_here = match s.with_payload {
                Some(true) => true,
                _ => false,
            };
            let vector_here = match s.with_vector {
                Some(true) => true,
                _ => false,
            };
            if !payload_here {
                all_payload = false;
            }
            if !vector_here {
                all_vector = false;
            }
            proof {
                lemma_sums_prefix_bound(request.searches@, i as int + 1);
            }
            sum_limits = sum_limits + (s.limit as u128);
            sum_offsets = sum_offsets + (s.offset as u128);
            i = i + 1;
        }
        assert(request.searches@.take(n as int) =~= request.searches@);
        if !(all_payload || all_vector) {
            return false;
        }
        let shard_count = self.shards_holder.len();
        proof {
            assert((shard_count as u128) * (sum_limits + sum_offsets) <= 0xFFFF_FFFF_FFFF_FFFF
                * 0xFFFF_FFFF_FFFF_FFFF) by (nonlinear_arith)
                requires
                    shard_count as u128 <= 0xFFFF_FFFF_FFFF_FFFF,
                    sum_limits + sum_offsets <= 0xFFFF_FFFF_FFFF_FFFF,
            ;
        }
        let require_transfers: u128 = (shard_count as u128) * (sum_limits + sum_offsets);
        let used: u128 = 10u128 * sum_limits;
        require_transfers > used
    }

    /// The batch with payload and vector requests stripped: what phase one
    /// of the two-phase search sends to the shards.
    pub fn strip_payload_in_batch(request: &SearchRequestBatch) -> (r: SearchRequestBatch)
        ensures
            r.searches@.len() == request.searches@.len(),
            forall|i: int|
                0 <= i < request.searches@.len() ==> r.searches@[i] == (SearchRequest {
                    with_payload: None,
                    with_vector: None,
                    ..request.searches@[i]
                }),
    {
        let mut searches: Vec<SearchRequest> = Vec::new();
        let n = request.searches.len();
        let mut i: usize = 0;
        while i < n
            invariant
                0 <= i <= n,
                n == request.searches@.len(),
                searches@.len() == i,
                forall|j: int|
                    0 <= j < i ==> searches@[j] == (SearchRequest {
                        with_payload: None,
                        with_vector: None,
                        ..request.searches@[j]
                    }),
            decreases n - i,
        {
            let s = request.searches[i];
            searches.push(SearchRequest { with_payload: None, with_vector: None, ..s });
            i = i + 1;
        }
        SearchRequestBatch { searches }
    }

    /// Merge one query's per-shard answers into the client's answer.
    pub fn merge_one_query(&self, shard_answers: &Vec<Vec<ScoredPoint>>, request:
        &SearchRequest, shard_selection: Option<ShardId>) -> (r: Result<
        Vec<ScoredPoint>,
        CollectionError,
    >)
        requires
            request.limit + request.offset <= usize::MAX,
        ensures
            r is Ok <==> spec_find_vector_params(
                self.collection_config.params.vectors@,
                request.vector_name_id,
            ) is Some,
            r is Err ==> r->Err_0 is BadInput,
            r is Ok ==> r->Ok_0@ == spec_query_result(
                spec_concat_shard_answers(shard_answers@),
                request.limit as nat,
                request.offset as nat,
                spec_find_vector_params(
                    self.collection_config.params.vectors@,
                    request.vector_name_id,
                )->Some_0.distance.spec_distance_order(),
                shard_selection is Some,
            ),
    {
        let params = match self.collection_config.params.get_vector_params(
            request.vector_name_id,
        ) {
            Some(p) => p,
            None => {
                return Err(
                    CollectionError::bad_input(
                        String::from_str("search addresses an unknown vector name"),
                    ),
                );
            },
        };
        let order = params.distance.distance_order();
        let mut merged: Vec<ScoredPoint> = Vec::new();
        let m = shard_answers.len();
        let mut s: usize = 0;
        while s < m
            invariant
                0 <= s <= m,
                m == shard_answers@.len(),
                merged@ == spec_concat_shard_answers(shard_answers@.take(s as int)),
            decreases m - s,
        {
            assert(shard_answers@.take(s as int + 1).drop_last() =~= shard_answers@.take(
                s as int,
            ));
            assert(shard_answers@.take(s as int + 1).last() == shard_answers@[s as int]);
            let one = &shard_answers[s];
            let k = one.len();
            let ghost pre = merged@;
            let mut t: usize = 0;
            while t < k
                invariant
                    0 <= t <= k,
                    k == one@.len(),
                    merged@ == pre + one@.take(t as int),
                decreases k - t,
            {
                merged.push(one[t]);
                assert(merged@ =~= pre + one@.take(t as int + 1));
                t = t + 1;
            }
            assert(one@.take(k as int) =~= one@);
            s = s + 1;
        }
        assert(shard_answers@.take(m as int) =~= shard_answers@);
        let top = peek_top(&merged, request.limit + request.offset, order);
        let selected = match shard_selection {
            Some(_) => true,
            None => false,
        };
        if !selected && request.offset > 0 {
            if top.len() >= request.offset {
                let mut out: Vec<ScoredPoint> = Vec::new();
                let mut t: usize = request.offset;
                let tn = top.len();
                while t < tn
                    invariant
                        request.offset <= t <= tn,
                        tn == top@.len(),
                        out@ == top@.subrange(request.offset as int, t as int),
                    decreases tn - t,
                {
                    out.push(top[t]);
                    assert(out@ =~= top@.subrange(request.offset as int, t as int + 1));
                    t = t + 1;
                }
                assert(top@.subrange(request.offset as int, tn as int) =~= top@.skip(
                    request.offset as int,
                ));
                Ok(out)
            } else {
                Ok(Vec::new())
            }
        } else {
            Ok(top)
        }
    }

    /// Merge the per-shard answers of a whole batch, query by query, in
    /// batch order.
    pub fn merge_from_shards(&self, all_searches_res: &Vec<Vec<Vec<ScoredPoint>>>, request:
        &SearchRequestBatch, shard_selection: Option<ShardId>) -> (r: Result<
        Vec<Vec<ScoredPoint>>,
        CollectionError,
    >)
        requires
            forall|s: int|
                0 <= s < all_searches_res@.len() ==> (#[trigger] all_searches_res@[s])@.len()
                    == request.searches@.len(),
            forall|i: int|
                0 <= i < request.searches@.len() ==> (#[trigger] request.searches@[i]).limit
                    + request.searches@[i].offset <= usize::MAX,
        ensures
            r is Ok <==> (forall|i: int|
                0 <= i < request.searches@.len() ==> spec_find_vector_params(
                    self.collection_config.params.vectors@,
                    (#[trigger] request.searches@[i]).vector_name_id,
                ) is Some),
            r is Err ==> r->Err_0 is BadInput,
            r is Ok ==> r->Ok_0@.len() == request.searches@.len(),
            r is Ok ==> (forall|i: int|
                0 <= i < request.searches@.len() ==> (#[trigger] r->Ok_0@[i])@
                    == spec_query_result(
                    spec_concat_shard_answers(spec_per_query(all_searches_res@, i)),
                    request.searches@[i].limit as nat,
                    request.searches@[i].offset as nat,
                    spec_find_vector_params(
                        self.collection_config.params.vectors@,
                        request.searches@[i].vector_name_id,
                    )->Some_0.distance.spec_distance_order(),
                    shard_selection is Some,
                )),
    {
        let batch = request.searches.len();
        let mut out: Vec<Vec<ScoredPoint>> = Vec::new();
        let mut i: usize = 0;
        while i < batch
            invariant
                0 <= i <= batch,
                batch == request.searches@.len(),
                forall|s: int|
                    0 <= s < all_searches_res@.len() ==> (#[trigger] all_searches_res@[
                        s
                    ])@.len() == request.searches@.len(),
                forall|t: int|
                    0 <= t < i ==> spec_find_vector_params(
                        self.collection_config.params.vectors@,
                        (#[trigger] request.searches@[t]).vector_name_id,
                    ) is Some,
                forall|t: int|
                    0 <= t < batch ==> (#[trigger] request.searches@[t]).limit
                        + request.searches@[t].offset <= usize::MAX,
                out@.len() == i,
                forall|t: int|
                    0 <= t < i ==> (#[trigger] out@[t])@ == spec_query_result(
                        spec_concat_shard_answers(spec_per_query(all_searches_res@, t)),
                        request.searches@[t].limit as nat,
                        request.searches@[t].offset as nat,
                        spec_find_vector_params(
                            self.collection_config.params.vectors@,
                            request.searches@[t].vector_name_id,
                        )->Some_0.distance.spec_distance_order(),
                        shard_selection is Some,
                    ),
            decreases batch - i,
        {
            let m = all_searches_res.len();
            let mut per_shard: Vec<Vec<ScoredPoint>> = Vec::new();
            let mut s: usize = 0;
            while s < m
                invariant
                    0 <= s <= m,
                    0 <= i < batch,
                    batch == request.searches@.len(),
                    m == all_searches_res@.len(),
                    forall|t: int|
                        0 <= t < m ==> (#[trigger] all_searches_res@[t])@.len() == batch,
                    per_shard@.len() == s,
                    forall|t: int|
                        0 <= t < s ==> (#[trigger] per_shard@[t])@ == all_searches_res@[t]@[
                            i as int
                        ]@,
                decreases m - s,
            {
                let one = clone_scored_points(&all_searches_res[s][i]);
                per_shard.push(one);
                s = s + 1;
            }
            proof {
                lemma_concat_per_query(per_shard@, all_searches_res@, i as int);
            }
            let merged = match self.merge_one_query(
                &per_shard,
                &request.searches[i],
                shard_selection,
            ) {
                Ok(v) => v,
                Err(e) => {
                    return Err(e);
                },
            };
            out.push(merged);
            i = i + 1;
        }
        Ok(out)
    }

    /// Answer one search request from the per-shard answers; a search is
    /// the single-element case of a batch, and an empty page needs no work.
    pub fn search(&self, request: &SearchRequest, shard_answers: &Vec<Vec<ScoredPoint>>,
        shard_selection: Option<ShardId>) -> (r: Result<Vec<ScoredPoint>, CollectionError>)
        requires
            request.limit + request.offset <= usize::MAX,
        ensures
            request.limit == 0 ==> r is Ok && r->Ok_0@ =~= Seq::<ScoredPoint>::empty(),
            request.limit > 0 ==> (r is Ok <==> spec_find_vector_params(
                self.collection_config.params.vectors@,
                request.vector_name_id,
            ) is Some),
            request.limit > 0 && r is Ok ==> r->Ok_0@ == spec_query_result(
                spec_concat_shard_answers(shard_answers@),
                request.limit as nat,
                request.offset as nat,
                spec_find_vector_params(
                    self.collection_config.params.vectors@,
                    request.vector_name_id,
                )->Some_0.distance.spec_distance_order(),
                shard_selection is Some,
            ),
            r is Err ==> r->Err_0 is BadInput,
    {
        if request.limit == 0 {
            return Ok(Vec::new());
        }
        self.merge_one_query(shard_answers, request, shard_selection)
    }

    /// One page of a scroll: flatten the per-shard answers, order by id,
    /// keep one point beyond the page to learn where the next page starts.
    pub fn scroll_by(&self, request: &ScrollRequest, retrieved: Vec<Vec<Record>>) -> (r: Result<
        ScrollResult,
        CollectionError,
    >)
        requires
            match request.limit {
                Some(l) => l < usize::MAX,
                None => true,
            },
        ensures
            spec_scroll_limit(*request) == 0 <==> r is Err,
            r is Err ==> r->Err_0 is BadRequest,
            r is Ok ==> r->Ok_0.points@ == spec_scroll_page(
                retrieved@,
                spec_scroll_limit(*request),
            ).0,
            r is Ok ==> r->Ok_0.next_page_offset == spec_scroll_page(
                retrieved@,
                spec_scroll_limit(*request),
            ).1,
    {
        let limit = match request.limit {
            Some(l) => l,
            None => 10,
        };
        if limit == 0 {
            return Err(
                CollectionError::bad_request(String::from_str("Limit cannot be 0")),
            );
        }
        let page = limit + 1;
        let mut flat: Vec<Record> = Vec::new();
        let m = retrieved.len();
        let mut s: usize = 0;
        while s < m
            invariant
                0 <= s <= m,
                m == retrieved@.len(),
                flat@ == spec_concat_records(retrieved@.take(s as int)),
            decreases m - s,
        {
            assert(retrieved@.take(s as int + 1).drop_last() =~= retrieved@.take(s as int));
            assert(retrieved@.take(s as int + 1).last() == retrieved@[s as int]);
            let one = &retrieved[s];
            let k = one.len();
            let ghost pre = flat@;
            let mut t: usize = 0;
            while t < k
                invariant
                    0 <= t <= k,
                    k == one@.len(),
                    flat@ == pre + one@.take(t as int),
                decreases k - t,
            {
                flat.push(one[t]);
                assert(flat@ =~= pre + one@.take(t as int + 1));
                t = t + 1;
            }
            assert(one@.take(k as int) =~= one@);
            s = s + 1;
        }
        assert(retrieved@.take(m as int) =~= retrieved@);
        let sorted = sort_records(&flat);
        let mut points: Vec<Record> = Vec::new();
        let tn = sorted.len();
        let mut t: usize = 0;
        while t < tn && t < page
            invariant
                0 <= t <= tn,
                t <= page,
                tn == sorted@.len(),
                points@ == sorted@.take(t as int),
            decreases tn - t,
        {
            points.push(sorted[t]);
            assert(points@ =~= sorted@.take(t as int + 1));
            t = t + 1;
        }
        let next_page_offset = if points.len() == page {
            match points.pop() {
                Some(last) => Some(last.id),
                None => None,
            }
        } else {
            None
        };
        proof {
            let sortedv = spec_sort_records(spec_concat_records(retrieved@));
            let lim = spec_scroll_limit(*request);
            assert(lim == limit as nat);
            let taken = if lim + 1 < sortedv.len() {
                sortedv.take((lim + 1) as int)
            } else {
                sortedv
            };
            if t == page {
                assert(sorted@.take(page as int) =~= taken);
            } else {
                assert(sorted@.take(t as int) =~= sortedv);
            }
            if taken.len() == lim + 1 {
                assert(points@ =~= taken.take(lim as int));
            }
        }
        Ok(ScrollResult { points, next_page_offset })
    }

    /// Total point count of the collection: the per-shard counts summed.
    pub fn count(&self, counts: &Vec<CountResult>) -> (r: CountResult)
        requires
            spec_sum_counts(counts@) <= u64::MAX,
        ensures
            r.count == spec_sum_counts(counts@),
    {
        let mut total: u64 = 0;
        let n = counts.len();
        let mut i: usize = 0;
        while i < n
            invariant
                0 <= i <= n,
                n == counts@.len(),
                total == spec_sum_counts(counts@.take(i as int)),
                spec_sum_counts(counts@) <= u64::MAX,
            decreases n - i,
        {
            assert(counts@.take(i as int + 1).drop_last() =~= counts@.take(i as int));
            assert(counts@.take(i as int + 1).last() == counts@[i as int]);
            proof {
                lemma_sum_counts_prefix_bound(counts@, i as int + 1);
            }
            total = total + counts[i].count;
            i = i + 1;
        }
        assert(counts@.take(n as int) =~= counts@);
        CountResult { count: total }
    }

    /// Retrieved points of all target shards, concatenated in shard order.
    pub fn retrieve(&self, per_shard: &Vec<Vec<Record>>) -> (r: Vec<Record>)
        ensures
            r@ == spec_concat_records(per_shard@),
    {
        let mut flat: Vec<Record> = Vec::new();
        let m = per_shard.len();
        let mut s: usize = 0;
        while s < m
            invariant
                0 <= s <= m,
                m == per_shard@.len(),
                flat@ == spec_concat_records(per_shard@.take(s as int)),
            decreases m - s,
        {
            assert(per_shard@.take(s as int + 1).drop_last() =~= per_shard@.take(s as int));
            assert(per_shard@.take(s as int + 1).last() == per_shard@[s as int]);
            let one = &per_shard[s];
            let k = one.len();
            let ghost pre = flat@;
            let mut t: usize = 0;
            while t < k
                invariant
                    0 <= t <= k,
                    k == one@.len(),
                    flat@ == pre + one@.take(t as int),
                decreases k - t,
            {
                flat.push(one[t]);
                assert(flat@ =~= pre + one@.take(t as int + 1));
                t = t + 1;
            }
            assert(one@.take(k as int) =~= one@);
            s = s + 1;
        }
        assert(per_shard@.take(m as int) =~= per_shard@);
        flat
    }
}

fn clone_scored_points(v: &Vec<ScoredPoint>) -> (r: Vec<ScoredPoint>)
    ensures
        r@ == v@,
{
    let mut r: Vec<ScoredPoint> = Vec::new();
    let n = v.len();
    let mut i: usize = 0;
    while i < n
        invariant
            0 <= i <= n,
            n == v@.len(),
            r@ == v@.take(i as int),
        decreases n - i,
    {
        r.push(v[i]);
        assert(r@ =~= v@.take(i as int + 1));
        i = i + 1;
    }
    assert(v@.take(n as int) =~= v@);
    r
}

/// The shard answers of one query of a batch, in shard order.
pub open spec fn spec_per_query(res: Seq<Vec<Vec<ScoredPoint>>>, i: int) -> Seq<
    Vec<ScoredPoint>,
>
    decreases res.len(),
{
    if res.len() == 0 {
        Seq::empty()
    } else {
        spec_per_query(res.drop_last(), i).push(res.last()@[i])
    }
}

proof fn lemma_concat_per_query(
    per_shard: Seq<Vec<ScoredPoint>>,
    res: Seq<Vec<Vec<ScoredPoint>>>,
    i: int,
)
    requires
        per_shard.len() == res.len(),
        forall|t: int| 0 <= t < res.len() ==> (#[trigger] per_shard[t])@ == res[t]@[i]@,
    ensures
        spec_concat_shard_answers(per_shard) == spec_concat_shard_answers(
            spec_per_query(res, i),
        ),
    decreases res.len(),
{
    if res.len() == 0 {
    } else {
        assert forall|t: int|
            0 <= t < res.drop_last().len() implies (#[trigger] per_shard.drop_last()[t])@
            == res.drop_last()[t]@[i]@ by {
            assert(per_shard.drop_last()[t] == per_shard[t]);
            assert(res.drop_last()[t] == res[t]);
        }
        lemma_concat_per_query(per_shard.drop_last(), res.drop_last(), i);
        assert(spec_per_query(res, i).drop_last() =~= spec_per_query(res.drop_last(), i));
        assert(spec_per_query(res, i).last() == res.last()@[i]);
        assert(per_shard.last()@ == res.last()@[i]@);
    }
}

proof fn lemma_sum_counts_prefix_bound(s: Seq<CountResult>, i: int)
    requires
        0 <= i <= s.len(),
    ensures
        spec_sum_counts(s.take(i)) <= spec_sum_counts(s),
    decreases s.len() - i,
{
    if i == s.len() {
        assert(s.take(i) =~= s);
    } else {
        lemma_sum_counts_prefix_bound(s, i + 1);
        assert(s.take(i + 1).drop_last() =~= s.take(i));
        assert(s.take(i + 1).last() == s[i]);
    }
}

/// A function of its inputs: two merges of the same per-shard answers for
/// the same request give identical ordered results, so repeated identical
/// searches against a quiescent collection answer identically.
pub proof fn lemma_merge_deterministic(
    merged: Seq<ScoredPoint>,
    limit: nat,
    offset: nat,
    order: Order,
    selected: bool,
    r1: Seq<ScoredPoint>,
    r2: Seq<ScoredPoint>,
)
    requires
        r1 == spec_query_result(merged, limit, offset, order, selected),
        r2 == spec_query_result(merged, limit, offset, order, selected),
    ensures
        r1 == r2,
{
}

/// Merge correctness: the merged answer is the global best `limit+offset`
/// under the declared order — sorted best-first, drawn from the union of
/// the per-shard answers — with the first `offset` then dropped.
pub proof fn lemma_merge_correct(merged: Seq<ScoredPoint>, limit: nat, offset: nat, order:
    Order)
    ensures
        ({
            let top = spec_peek_top(merged, limit + offset, order);
            &&& spec_sorted_by_order(top, order)
            &&& top.len() == (if limit + offset < merged.len() {
                limit + offset
            } else {
                merged.len()
            })
            &&& top.to_multiset().subset_of(merged.to_multiset())
        }),
{
    lemma_sort_by_order_correct(merged, order);
    let sorted = spec_sort_by_order(merged, order);
    let k = limit + offset;
    let top = spec_peek_top(merged, k, order);
    if k < sorted.len() {
        assert(sorted =~= sorted.take(k as int) + sorted.skip(k as int));
        lemma_multiset_commutative(sorted.take(k as int), sorted.skip(k as int));
        assert forall|i: int, j: int| 0 <= i < j < top.len() implies !spec_better(
            top[j],
            top[i],
            order,
        ) by {
            assert(top[i] == sorted[i]);
            assert(top[j] == sorted[j]);
        }
        assert forall|x: ScoredPoint|
            #[trigger] top.to_multiset().count(x) <= merged.to_multiset().count(x) by {
            assert(sorted.to_multiset().count(x) == top.to_multiset().count(x)
                + sorted.skip(k as int).to_multiset().count(x));
        }
    } else {
        assert(top.to_multiset() =~= merged.to_multiset());
    }
}

} // verus!
