//! Centroid recomputation: each centroid becomes the component-wise mean
//! of its bucket, and an empty bucket's centroid is reseeded to a fresh
//! random point within the world bounds.

use vstd::prelude::*;
use vstd::arithmetic::div_mod::{
    lemma_div_is_ordered,
    lemma_div_multiples_vanish,
    lemma_hoist_over_denominator,
};
use crate::geometry::{Point, in_world_bounds, all_in_bounds};

verus! {

/// Sum of the x coordinates of a point sequence.
pub open spec fn sum_x(s: Seq<Point>) -> int
    decreases s.len(),
{
    if s.len() == 0 {
        0
    } else {
        sum_x(s.drop_last()) + s.last().x
    }
}

/// Sum of the y coordinates of a point sequence.
pub open spec fn sum_y(s: Seq<Point>) -> int
    decreases s.len(),
{
    if s.len() == 0 {
        0
    } else {
        sum_y(s.drop_last()) + s.last().y
    }
}

/// Mean x coordinate of a non-empty point sequence, rounded toward
/// negative infinity; exact whenever the length divides the sum.
pub open spec fn mean_x(s: Seq<Point>) -> int {
    sum_x(s) / s.len() as int
}

/// Mean y coordinate of a non-empty point sequence, rounded toward
/// negative infinity; exact whenever the length divides the sum.
pub open spec fn mean_y(s: Seq<Point>) -> int {
    sum_y(s) / s.len() as int
}

/// Coordinate sums of an in-bounds point set grow at most linearly with
/// the world bound.
proof fn lemma_sum_bounds(s: Seq<Point>)
    requires
        all_in_bounds(s),
    ensures
        -20000 * s.len() <= sum_x(s) <= 20000 * s.len(),
        -20000 * s.len() <= sum_y(s) <= 20000 * s.len(),
    decreases s.len(),
{
    if s.len() > 0 {
        assert(all_in_bounds(s.drop_last())) by {
            assert(forall|i: int|
                0 <= i < s.drop_last().len() ==> #[trigger] s.drop_last()[i] == s[i]);
        }
        lemma_sum_bounds(s.drop_last());
        assert(in_world_bounds(s[s.len() - 1]));
    }
}

/// Component-wise arithmetic mean of a non-empty bucket, each coordinate
/// rounded toward negative infinity onto the fixed-point grid; never
/// divides by zero, and the result stays within the world bounds.
pub fn mean_point(bucket: &Vec<Point>) -> (c: Point)
    requires
        bucket@.len() >= 1,
        all_in_bounds(bucket@),
    ensures
        c.x == mean_x(bucket@),
        c.y == mean_y(bucket@),
        in_world_bounds(c),
{
    let n = bucket.len();
    // accumulate each coordinate shifted by the world bound, so the sums
    // stay non-negative
    let mut ax: u128 = 0;
    let mut ay: u128 = 0;
    let mut i: usize = 0;
    while i < n
        invariant
            i <= n,
            n == bucket@.len(),
            all_in_bounds(bucket@),
            ax as int == sum_x(bucket@.take(i as int)) + 20000 * (i as int),
            ay as int == sum_y(bucket@.take(i as int)) + 20000 * (i as int),
            ax as int <= 40000 * (i as int),
            ay as int <= 40000 * (i as int),
        decreases n - i,
    {
        let p = bucket[i];
        proof {
            assert(bucket@.take(i + 1).drop_last() =~= bucket@.take(i as int));
            assert(bucket@.take(i + 1).last() == bucket@[i as int]);
            assert(in_world_bounds(bucket@[i as int]));
        }
        ax = ax + ((p.x + 20000) as u128);
        ay = ay + ((p.y + 20000) as u128);
        i = i + 1;
    }
    proof {
        assert(bucket@.take(n as int) =~= bucket@);
        lemma_sum_bounds(bucket@);
    }
    let qx: u128 = ax / (n as u128);
    let qy: u128 = ay / (n as u128);
    proof {
        let len = bucket@.len() as int;
        lemma_hoist_over_denominator(sum_x(bucket@), 20000, bucket@.len());
        lemma_hoist_over_denominator(sum_y(bucket@), 20000, bucket@.len());
        lemma_div_is_ordered(ax as int, 40000 * len, len);
        lemma_div_is_ordered(ay as int, 40000 * len, len);
        lemma_div_multiples_vanish(40000, len);
        assert(len * 40000 == 40000 * len);
        assert(qx as int <= 40000);
        assert(qy as int <= 40000);
        assert(qx as int == mean_x(bucket@) + 20000);
        assert(qy as int == mean_y(bucket@) + 20000);
    }
    Point { x: (qx as i64) - 20000, y: (qy as i64) - 20000 }
}

/// New centroid set from the current grouping: for each bucket index, the
/// exact component-wise mean of a non-empty bucket, or a fresh uniformly
/// random point within the world bounds for an empty one.  Reseeding is a
/// deliberate policy that keeps no cluster permanently dead, and it is
/// what keeps the mean's division away from zero.  Every previous
/// centroid is overwritten, so only the grouping is read.
pub fn update(groups: &Vec<Vec<Point>>) -> (centroids: Vec<Point>)
    requires
        forall|j: int| 0 <= j < groups@.len() ==> all_in_bounds((#[trigger] groups@[j])@),
    ensures
        centroids@.len() == groups@.len(),
        forall|j: int|
            0 <= j < groups@.len() && (#[trigger] groups@[j])@.len() > 0 ==> centroids@[j].x
                == mean_x(groups@[j]@) && centroids@[j].y == mean_y(groups@[j]@),
        all_in_bounds(centroids@),
{
    let mut centroids: Vec<Point> = Vec::new();
    let mut j: usize = 0;
    while j < groups.len()
        invariant
            j <= groups@.len(),
            centroids@.len() == j,
            forall|t: int| 0 <= t < groups@.len() ==> all_in_bounds((#[trigger] groups@[t])@),
            forall|t: int|
                0 <= t < j && (#[trigger] groups@[t])@.len() > 0 ==> centroids@[t].x == mean_x(
                    groups@[t]@,
                ) && centroids@[t].y == mean_y(groups@[t]@),
            all_in_bounds(centroids@),
        decreases groups@.len() - j,
    {
        let bucket: &Vec<Point> = &groups[j];
        let c = if bucket.len() > 0 {
            mean_point(bucket)
        } else {
            crate::sampler::random_world_point()
        };
        centroids.push(c);
        j = j + 1;
    }
    centroids
}

} // verus!
