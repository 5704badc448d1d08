//! Nearest-centroid assignment: partitions the point set into one bucket
//! per centroid, and the laws that hold of every assignment.

use vstd::prelude::*;
use vstd::multiset::Multiset;
use crate::geometry::{Point, sq_dist, in_world_bounds, all_in_bounds, squared_distance};

verus! {

broadcast use vstd::seq_lib::group_to_multiset_ensures;

/// Index of the nearest centroid among the first `k`, by squared
/// distance; on an exact tie the earlier index is kept, because only a
/// strictly smaller distance replaces the winner.
pub open spec fn nearest_upto(p: Point, cs: Seq<Point>, k: int) -> int
    decreases k,
{
    if k <= 1 {
        0
    } else {
        let prev = nearest_upto(p, cs, k - 1);
        if sq_dist(p, cs[k - 1]) < sq_dist(p, cs[prev]) {
            k - 1
        } else {
            prev
        }
    }
}

/// Index of the nearest centroid, lowest index first on ties.
pub open spec fn nearest(p: Point, cs: Seq<Point>) -> int {
    nearest_upto(p, cs, cs.len() as int)
}

/// The point belongs to bucket `j` of the assignment.
pub open spec fn assigned_to(p: Point, cs: Seq<Point>, j: int) -> bool {
    nearest(p, cs) == j
}

/// Bucket `j` of the assignment: the points assigned to centroid `j`, in
/// their order of appearance in `ps`.
pub open spec fn bucket_of(ps: Seq<Point>, cs: Seq<Point>, j: int) -> Seq<Point>
    decreases ps.len(),
{
    if ps.len() == 0 {
        Seq::empty()
    } else if assigned_to(ps.last(), cs, j) {
        bucket_of(ps.drop_last(), cs, j).push(ps.last())
    } else {
        bucket_of(ps.drop_last(), cs, j)
    }
}

/// The full grouping: one bucket per centroid.
pub open spec fn assign_spec(ps: Seq<Point>, cs: Seq<Point>) -> Seq<Seq<Point>> {
    Seq::new(cs.len(), |j: int| bucket_of(ps, cs, j))
}

/// The exec grouping `gs` is exactly the assignment of `ps` to `cs`.
pub open spec fn groups_match(gs: Seq<Vec<Point>>, ps: Seq<Point>, cs: Seq<Point>) -> bool {
    gs.len() == cs.len() && forall|j: int|
        0 <= j < gs.len() ==> (#[trigger] gs[j])@ == bucket_of(ps, cs, j)
}

pub proof fn lemma_nearest_upto_range(p: Point, cs: Seq<Point>, k: int)
    requires
        1 <= k,
    ensures
        0 <= nearest_upto(p, cs, k) < k,
    decreases k,
{
    if k > 1 {
        lemma_nearest_upto_range(p, cs, k - 1);
    }
}

/// The chosen index has minimal squared distance among the first `k`
/// centroids, and a strictly smaller one than every earlier centroid's.
pub proof fn lemma_nearest_upto_minimal(p: Point, cs: Seq<Point>, k: int)
    requires
        1 <= k,
    ensures
        0 <= nearest_upto(p, cs, k) < k,
        forall|m: int|
            0 <= m < k ==> sq_dist(p, cs[nearest_upto(p, cs, k)]) <= sq_dist(p, #[trigger] cs[m]),
        forall|m: int|
            0 <= m < nearest_upto(p, cs, k) ==> sq_dist(p, cs[nearest_upto(p, cs, k)]) < sq_dist(
                p,
                #[trigger] cs[m],
            ),
    decreases k,
{
    if k > 1 {
        lemma_nearest_upto_minimal(p, cs, k - 1);
    }
}

/// A point exactly equidistant from centroids `i < j` is never assigned
/// to bucket `j`: the first minimum wins on ties.
pub proof fn lemma_tie_breaks_low(p: Point, cs: Seq<Point>, i: int, j: int)
    requires
        0 <= i < j < cs.len(),
        sq_dist(p, cs[i]) == sq_dist(p, cs[j]),
    ensures
        nearest(p, cs) != j,
{
    lemma_nearest_upto_minimal(p, cs, cs.len() as int);
}

/// The winner is exactly the first minimum: if centroid `i` is at minimal
/// squared distance and every earlier centroid is strictly farther, then
/// the point is assigned to bucket `i`.
pub proof fn lemma_first_minimum(p: Point, cs: Seq<Point>, i: int)
    requires
        0 <= i < cs.len(),
        forall|m: int| 0 <= m < cs.len() ==> sq_dist(p, cs[i]) <= sq_dist(p, #[trigger] cs[m]),
        forall|m: int| 0 <= m < i ==> sq_dist(p, cs[i]) < sq_dist(p, #[trigger] cs[m]),
    ensures
        nearest(p, cs) == i,
{
    lemma_nearest_upto_minimal(p, cs, cs.len() as int);
    let n = nearest(p, cs);
    assert(sq_dist(p, cs[n]) <= sq_dist(p, cs[i]));
    assert(sq_dist(p, cs[i]) <= sq_dist(p, cs[n]));
}

/// Every element of a bucket is one of the input points, and is assigned
/// to that bucket's index.
pub proof fn lemma_bucket_elements(ps: Seq<Point>, cs: Seq<Point>, j: int, idx: int)
    requires
        0 <= idx < bucket_of(ps, cs, j).len(),
    ensures
        ps.contains(bucket_of(ps, cs, j)[idx]),
        assigned_to(bucket_of(ps, cs, j)[idx], cs, j),
    decreases ps.len(),
{
    let prev = bucket_of(ps.drop_last(), cs, j);
    if assigned_to(ps.last(), cs, j) && idx == prev.len() {
        assert(ps[ps.len() - 1] == ps.last());
    } else {
        lemma_bucket_elements(ps.drop_last(), cs, j, idx);
        let x = bucket_of(ps, cs, j)[idx];
        let w = choose|i: int| 0 <= i < ps.drop_last().len() && ps.drop_last()[i] == x;
        assert(ps[w] == x);
    }
}

/// Buckets of an in-bounds point set stay within the world bounds.
pub proof fn lemma_buckets_in_bounds(ps: Seq<Point>, cs: Seq<Point>, j: int)
    requires
        all_in_bounds(ps),
    ensures
        all_in_bounds(bucket_of(ps, cs, j)),
{
    assert forall|idx: int|
        0 <= idx < bucket_of(ps, cs, j).len() implies in_world_bounds(
        #[trigger] bucket_of(ps, cs, j)[idx],
    ) by {
        lemma_bucket_elements(ps, cs, j, idx);
        let x = bucket_of(ps, cs, j)[idx];
        let w = choose|i: int| 0 <= i < ps.len() && ps[i] == x;
        assert(in_world_bounds(ps[w]));
    }
}

/// Every point in bucket `j` is at least as close, by squared distance,
/// to centroid `j` as to any other centroid (equality allowed on ties).
pub proof fn lemma_assignment_consistent(ps: Seq<Point>, cs: Seq<Point>, j: int, idx: int)
    requires
        cs.len() >= 1,
        0 <= j < cs.len(),
        0 <= idx < bucket_of(ps, cs, j).len(),
    ensures
        forall|m: int|
            0 <= m < cs.len() ==> sq_dist(bucket_of(ps, cs, j)[idx], cs[j]) <= sq_dist(
                bucket_of(ps, cs, j)[idx],
                #[trigger] cs[m],
            ),
{
    lemma_bucket_elements(ps, cs, j, idx);
    lemma_nearest_upto_minimal(bucket_of(ps, cs, j)[idx], cs, cs.len() as int);
}

/// Multiset of all points held by the buckets together.
pub open spec fn buckets_union(g: Seq<Seq<Point>>) -> Multiset<Point>
    decreases g.len(),
{
    if g.len() == 0 {
        Multiset::empty()
    } else {
        buckets_union(g.drop_last()).add(g.last().to_multiset())
    }
}

proof fn lemma_union_empty_buckets(g: Seq<Seq<Point>>)
    requires
        forall|j: int| 0 <= j < g.len() ==> (#[trigger] g[j]).len() == 0,
    ensures
        buckets_union(g) =~= Multiset::empty(),
    decreases g.len(),
{
    if g.len() > 0 {
        lemma_union_empty_buckets(g.drop_last());
        assert(g.last().to_multiset() =~= Multiset::empty()) by {
            assert forall|a: Point| g.last().to_multiset().count(a) == 0 by {
                assert(!g.last().contains(a));
            }
        }
    }
}

/// Pushing one element onto one bucket inserts it into the union.
proof fn lemma_union_push(g1: Seq<Seq<Point>>, g2: Seq<Seq<Point>>, n: int, p: Point)
    requires
        g1.len() == g2.len(),
        0 <= n < g1.len(),
        g2[n] == g1[n].push(p),
        forall|j: int| 0 <= j < g1.len() && j != n ==> g2[j] == #[trigger] g1[j],
    ensures
        buckets_union(g2) =~= buckets_union(g1).insert(p),
    decreases g1.len(),
{
    if n == g1.len() - 1 {
        assert(g2.drop_last() =~= g1.drop_last());
        assert(g2.last().to_multiset() =~= g1.last().to_multiset().insert(p));
    } else {
        lemma_union_push(g1.drop_last(), g2.drop_last(), n, p);
        assert(g2.last() == g1.last());
    }
}

/// Assignment partitions the point set: for any centroid sequence of
/// length at least one and any point set, there are exactly as many
/// buckets as centroids, and the buckets taken together hold exactly the
/// input points, each exactly once (as a multiset).
pub proof fn lemma_assign_partition(ps: Seq<Point>, cs: Seq<Point>)
    requires
        cs.len() >= 1,
    ensures
        assign_spec(ps, cs).len() == cs.len(),
        buckets_union(assign_spec(ps, cs)) =~= ps.to_multiset(),
    decreases ps.len(),
{
    if ps.len() == 0 {
        lemma_union_empty_buckets(assign_spec(ps, cs));
        assert(ps.to_multiset() =~= Multiset::empty()) by {
            assert forall|a: Point| ps.to_multiset().count(a) == 0 by {
                assert(!ps.contains(a));
            }
        }
    } else {
        let ps0 = ps.drop_last();
        let p = ps.last();
        lemma_assign_partition(ps0, cs);
        lemma_nearest_upto_range(p, cs, cs.len() as int);
        let n = nearest(p, cs);
        assert(assign_spec(ps, cs)[n] == assign_spec(ps0, cs)[n].push(p));
        assert forall|j: int| 0 <= j < cs.len() && j != n implies assign_spec(ps, cs)[j]
            == #[trigger] assign_spec(ps0, cs)[j] by {
            assert(!assigned_to(p, cs, j));
        }
        lemma_union_push(assign_spec(ps0, cs), assign_spec(ps, cs), n, p);
        assert(ps0.push(p) =~= ps);
        assert(ps0.push(p).to_multiset() =~= ps0.to_multiset().insert(p));
    }
}

/// Assignment is deterministic: repeated with the same points and the
/// same centroids, it yields the identical grouping.
pub proof fn lemma_assign_deterministic(
    ps: Seq<Point>,
    cs: Seq<Point>,
    g1: Seq<Seq<Point>>,
    g2: Seq<Seq<Point>>,
)
    requires
        g1 == assign_spec(ps, cs),
        g2 == assign_spec(ps, cs),
    ensures
        g1 == g2,
{
}

/// Index of the nearest centroid, by squared distance; the lowest index
/// wins on exact ties.
pub fn nearest_idx(p: Point, centroids: &Vec<Point>) -> (k: usize)
    requires
        centroids@.len() >= 1,
        in_world_bounds(p),
        all_in_bounds(centroids@),
    ensures
        k < centroids@.len(),
        k == nearest(p, centroids@),
{
    let mut k: usize = 0;
    let mut best: i64 = squared_distance(p, centroids[0]);
    let mut j: usize = 1;
    while j < centroids.len()
        invariant
            1 <= j <= centroids@.len(),
            centroids@.len() >= 1,
            in_world_bounds(p),
            all_in_bounds(centroids@),
            k as int == nearest_upto(p, centroids@, j as int),
            k < j,
            best == sq_dist(p, centroids@[k as int]),
        decreases centroids@.len() - j,
    {
        let d = squared_distance(p, centroids[j]);
        if d < best {
            best = d;
            k = j;
        }
        j = j + 1;
    }
    k
}

/// Partitions `points` into one bucket per centroid: every point goes to
/// the bucket of its nearest centroid (lowest index on an exact tie), in
/// a pass that keeps the point order within each bucket.  Produces
/// exactly as many buckets as there are centroids; buckets may be empty.
pub fn assign(points: &Vec<Point>, centroids: &Vec<Point>) -> (groups: Vec<Vec<Point>>)
    requires
        centroids@.len() >= 1,
        all_in_bounds(points@),
        all_in_bounds(centroids@),
    ensures
        groups_match(groups@, points@, centroids@),
{
    let mut groups: Vec<Vec<Point>> = Vec::new();
    let mut j: usize = 0;
    while j < centroids.len()
        invariant
            j <= centroids@.len(),
            groups@.len() == j,
            centroids@.len() >= 1,
            all_in_bounds(points@),
            all_in_bounds(centroids@),
            forall|t: int|
                0 <= t < j ==> (#[trigger] groups@[t])@ == bucket_of(points@, centroids@, t),
        decreases centroids@.len() - j,
    {
        let mut bucket: Vec<Point> = Vec::new();
        let mut i: usize = 0;
        while i < points.len()
            invariant
                i <= points@.len(),
                j < centroids@.len(),
                centroids@.len() >= 1,
                all_in_bounds(points@),
                all_in_bounds(centroids@),
                bucket@ == bucket_of(points@.take(i as int), centroids@, j as int),
            decreases points@.len() - i,
        {
            let p = points[i];
            let n = nearest_idx(p, centroids);
            if n == j {
                bucket.push(p);
            }
            proof {
                assert(points@.take(i + 1).drop_last() =~= points@.take(i as int));
                assert(points@.take(i + 1).last() == points@[i as int]);
            }
            i = i + 1;
        }
        proof {
            assert(points@.take(points@.len() as int) =~= points@);
        }
        groups.push(bucket);
        j = j + 1;
    }
    groups
}

} // verus!
