//! Points in world space and the squared-distance arithmetic used by the
//! nearest-centroid comparison.

use vstd::prelude::*;

verus! {

/// A 2-D coordinate in world space, in fixed-point units.  The same type
/// serves as a point, a centroid, and a component-wise vector, as the
/// clustering math treats them alike.
#[derive(Clone, Copy, PartialEq, Eq, Structural, Debug)]
pub struct Point {
    pub x: i64,
    pub y: i64,
}

/// The point lies within the world square.
pub open spec fn in_world_bounds(p: Point) -> bool {
    crate::MIN_X <= p.x <= crate::MAX_X && crate::MIN_Y <= p.y <= crate::MAX_Y
}

/// Every point of the sequence lies within the world square.
pub open spec fn all_in_bounds(s: Seq<Point>) -> bool {
    forall|i: int| 0 <= i < s.len() ==> in_world_bounds(#[trigger] s[i])
}

/// The point lies within the axis-aligned square of the given half-width
/// around `center`.
pub open spec fn in_square(center: Point, radius: int, p: Point) -> bool {
    center.x - radius <= p.x <= center.x + radius
        && center.y - radius <= p.y <= center.y + radius
}

/// Exact squared Euclidean distance between two points, as a mathematical
/// integer.
pub open spec fn sq_dist(a: Point, b: Point) -> int {
    (a.x - b.x) * (a.x - b.x) + (a.y - b.y) * (a.y - b.y)
}

/// Component-wise difference `a - b`.
pub fn subtract(a: Point, b: Point) -> (v: Point)
    requires
        in_world_bounds(a),
        in_world_bounds(b),
    ensures
        v.x == a.x - b.x,
        v.y == a.y - b.y,
{
    Point { x: a.x - b.x, y: a.y - b.y }
}

/// Squared length of a vector: `x^2 + y^2`.  Monotonic in the Euclidean
/// length, which is all the nearest-centroid comparison needs; no square
/// root is taken, so exact tie-breaking is preserved.
pub fn squared_length(v: Point) -> (r: i64)
    requires
        crate::MIN_X - crate::MAX_X <= v.x <= crate::MAX_X - crate::MIN_X,
        crate::MIN_Y - crate::MAX_Y <= v.y <= crate::MAX_Y - crate::MIN_Y,
    ensures
        r == v.x * v.x + v.y * v.y,
{
    proof {
        assert(0 <= v.x * v.x <= 40000 * 40000 && 0 <= v.y * v.y <= 40000 * 40000)
            by (nonlinear_arith)
            requires
                -40000 <= v.x <= 40000,
                -40000 <= v.y <= 40000,
        ;
    }
    v.x * v.x + v.y * v.y
}

/// Squared distance between two in-bounds points, exactly [`sq_dist`].
pub fn squared_distance(a: Point, b: Point) -> (r: i64)
    requires
        in_world_bounds(a),
        in_world_bounds(b),
    ensures
        r == sq_dist(a, b),
{
    squared_length(subtract(a, b))
}

} // verus!
