//! Synthetic data generation: random draws, samples within a disk, and the
//! fixed five-blob point cloud with `K` random centroids.
//!
//! A disk sample combines a uniformly random direction with a uniformly
//! random radial scale factor in `[0, 1)`, interpolated linearly from the
//! center to the edge.  This is deliberately not area-uniform: the density
//! is biased toward the center, and that bias is an observable behavior of
//! the system, preserved here.

use vstd::prelude::*;
use vstd::arithmetic::div_mod::{
    lemma_div_is_ordered,
    lemma_div_multiples_vanish,
    lemma_remainder_lower,
};
use crate::geometry::{Point, in_world_bounds, in_square, all_in_bounds, sq_dist};

verus! {

/// Resolution of the random direction lattice and of the radial scale
/// factor: directions are lattice points in a square of this half-width,
/// and the scale factor is an integer below this value.
pub const DIR_SCALE: i64 = 1000;

/// Relies on `rand::random`: a uniformly random 64-bit word from the
/// thread-local generator.  Nothing is promised of the value.
#[verifier::external_body]
fn random_u64() -> u64 {
    rand::random()
}

/// A random value below `n`.
fn random_below(n: u64) -> (r: u64)
    requires
        1 <= n,
    ensures
        r < n,
{
    random_u64() % n
}

/// A random coordinate in `[min, max]`.
fn random_in_range(min: i64, max: i64) -> (c: i64)
    requires
        -1000000 <= min <= max <= 1000000,
    ensures
        min <= c <= max,
{
    let span: u64 = (max - min) as u64 + 1;
    let r: u64 = random_below(span);
    min + r as i64
}

/// A uniformly random point within the world bounds, each coordinate an
/// independent uniform draw — the distribution used both for the initial
/// centroids and for reseeding an empty cluster.
pub fn random_world_point() -> (p: Point)
    ensures
        in_world_bounds(p),
{
    Point {
        x: random_in_range(crate::MIN_X, crate::MAX_X),
        y: random_in_range(crate::MIN_Y, crate::MAX_Y),
    }
}

/// The least `r` with `r * r >= n`, for `n` up to `4000000`.
fn isqrt_up(n: u64) -> (r: u64)
    requires
        n <= 4000000,
    ensures
        r * r >= n,
        r <= 2000,
        r >= 1 ==> (r - 1) * (r - 1) < n,
{
    let mut r: u64 = 0;
    let mut sq: u64 = 0;
    while sq < n
        invariant
            sq == r * r,
            r <= 2000,
            n <= 4000000,
            r >= 1 ==> (r - 1) * (r - 1) < n,
        decreases 2000 - r,
    {
        proof {
            assert(r < 2000) by (nonlinear_arith)
                requires
                    r * r < n,
                    n <= 4000000,
            ;
        }
        r = r + 1;
        proof {
            assert(r * r <= 4000000 && (r - 1) * (r - 1) < n) by (nonlinear_arith)
                requires
                    1 <= r <= 2000,
                    (r - 1) * (r - 1) < n,
            ;
        }
        sq = r * r;
    }
    r
}

/// A random offset within the disk of the given radius: a uniformly random
/// direction (a lattice point, retried until it falls inside the unit
/// disk) scaled by a uniformly random factor in `[0, 1)`, linearly in the
/// radius.
fn disk_offset(radius: i64) -> (off: (i64, i64))
    requires
        0 <= radius <= 20000,
    ensures
        -radius <= off.0 <= radius,
        -radius <= off.1 <= radius,
        off.0 * off.0 + off.1 * off.1 <= radius * radius,
{
    let mut dx: i64 = DIR_SCALE;
    let mut dy: i64 = 0;
    let mut found: bool = false;
    let mut tries: u64 = 0;
    while !found && tries < 16
        invariant
            -1000 <= dx <= 1000,
            -1000 <= dy <= 1000,
            1 <= dx * dx + dy * dy <= 1000000,
            tries <= 16,
        decreases 16 - tries,
    {
        tries = tries + 1;
        let x = random_in_range(-1000, 1000);
        let y = random_in_range(-1000, 1000);
        proof {
            assert(0 <= x * x <= 1000000 && 0 <= y * y <= 1000000) by (nonlinear_arith)
                requires
                    -1000 <= x <= 1000,
                    -1000 <= y <= 1000,
            ;
        }
        let s: i64 = x * x + y * y;
        if 1 <= s && s <= 1000000 {
            dx = x;
            dy = y;
            found = true;
        }
    }
    proof {
        assert(0 <= dx * dx <= 1000000 && 0 <= dy * dy <= 1000000) by (nonlinear_arith)
            requires
                -1000 <= dx <= 1000,
                -1000 <= dy <= 1000,
        ;
    }
    let n: u64 = (dx * dx + dy * dy) as u64;
    let r: u64 = isqrt_up(n);
    proof {
        assert(r >= 1);
        assert(r <= 1000) by (nonlinear_arith)
            requires
                r >= 1,
                (r - 1) * (r - 1) < n,
                n <= 1000000,
        ;
    }
    let m: u64 = random_below(1000);
    let den: u64 = r * 1000;
    proof {
        assert(m * (radius as u64) < 1000 * 20001) by (nonlinear_arith)
            requires
                m < 1000,
                radius as u64 <= 20000,
        ;
    }
    let num_scale: u64 = m * (radius as u64);
    let ax: u64 = if dx >= 0 {
        dx as u64
    } else {
        (-dx) as u64
    };
    let ay: u64 = if dy >= 0 {
        dy as u64
    } else {
        (-dy) as u64
    };
    proof {
        lemma_scaled_component_bounded(ax as int, dx as int, dy as int, r as int, m as int, radius as int);
        lemma_scaled_component_bounded(ay as int, dy as int, dx as int, r as int, m as int, radius as int);
        lemma_div_is_ordered(ax as int * (m as int * radius as int), den as int * radius as int, den as int);
        lemma_div_is_ordered(ay as int * (m as int * radius as int), den as int * radius as int, den as int);
        lemma_div_multiples_vanish(radius as int, den as int);
    }
    proof {
        assert(ax * num_scale <= 1000 * 20010000 && ay * num_scale <= 1000 * 20010000)
            by (nonlinear_arith)
            requires
                ax <= 1000,
                ay <= 1000,
                num_scale < 20010000,
        ;
    }
    let qx: u64 = (ax * num_scale) / den;
    let qy: u64 = (ay * num_scale) / den;
    proof {
        // the quotients also stay within the disk: scaling a direction
        // inside the unit disk shrinks its squared length by at least the
        // square of the scale factor
        let qxi = qx as int;
        let qyi = qy as int;
        let a = ax as int;
        let b = ay as int;
        let mm = m as int;
        let rad = radius as int;
        let d = den as int;
        let rr = r as int;
        lemma_remainder_lower(a * (num_scale as int), d);
        lemma_remainder_lower(b * (num_scale as int), d);
        assert(qxi * d <= a * (mm * rad));
        assert(qyi * d <= b * (mm * rad));
        assert(a * a == dx as int * (dx as int) && b * b == dy as int * (dy as int))
            by (nonlinear_arith)
            requires
                a == if dx as int >= 0 { dx as int } else { -(dx as int) },
                b == if dy as int >= 0 { dy as int } else { -(dy as int) },
        ;
        assert(a * a + b * b <= rr * rr);
        let s = mm * rad;
        assert((qxi * d) * (qxi * d) <= (a * s) * (a * s)) by (nonlinear_arith)
            requires
                qxi * d <= a * s,
                qxi >= 0,
                d >= 1,
        ;
        assert((qyi * d) * (qyi * d) <= (b * s) * (b * s)) by (nonlinear_arith)
            requires
                qyi * d <= b * s,
                qyi >= 0,
                d >= 1,
        ;
        assert((a * s) * (a * s) + (b * s) * (b * s) == (a * a + b * b) * (s * s))
            by (nonlinear_arith);
        assert((a * a + b * b) * (s * s) <= (rr * rr) * (s * s)) by (nonlinear_arith)
            requires
                a * a + b * b <= rr * rr,
        ;
        assert(s * s <= (1000 * rad) * (1000 * rad)) by (nonlinear_arith)
            requires
                s == mm * rad,
                0 <= mm < 1000,
                rad >= 0,
        ;
        assert((rr * rr) * (s * s) <= (rr * rr) * ((1000 * rad) * (1000 * rad)))
            by (nonlinear_arith)
            requires
                s * s <= (1000 * rad) * (1000 * rad),
        ;
        assert((rr * rr) * ((1000 * rad) * (1000 * rad)) == (rad * rad) * (d * d))
            by (nonlinear_arith)
            requires
                d == rr * 1000,
        ;
        assert((qxi * d) * (qxi * d) + (qyi * d) * (qyi * d) <= (rad * rad) * (d * d));
        assert(qxi * qxi + qyi * qyi <= rad * rad) by (nonlinear_arith)
            requires
                (qxi * d) * (qxi * d) + (qyi * d) * (qyi * d) <= (rad * rad) * (d * d),
                qxi >= 0,
                qyi >= 0,
                rad >= 0,
                d >= 1,
        ;
    }
    let off_x: i64 = if dx >= 0 {
        qx as i64
    } else {
        -(qx as i64)
    };
    let off_y: i64 = if dy >= 0 {
        qy as i64
    } else {
        -(qy as i64)
    };
    proof {
        assert(off_x as int * (off_x as int) == qx as int * (qx as int) && off_y as int * (
        off_y as int) == qy as int * (qy as int)) by (nonlinear_arith)
            requires
                off_x as int == qx as int || off_x as int == -(qx as int),
                off_y as int == qy as int || off_y as int == -(qy as int),
        ;
    }
    (off_x, off_y)
}

/// The numerator of a scaled direction component stays below the
/// denominator times the radius, so the quotient stays within the radius.
proof fn lemma_scaled_component_bounded(a: int, c: int, o: int, r: int, m: int, radius: int)
    requires
        a == if c >= 0 { c } else { -c },
        -1000 <= c <= 1000,
        -1000 <= o <= 1000,
        r * r >= c * c + o * o,
        1 <= r <= 1000,
        0 <= m < 1000,
        0 <= radius,
    ensures
        a * (m * radius) <= (r * 1000) * radius,
{
    assert(a * a <= r * r) by (nonlinear_arith)
        requires
            a == if c >= 0 { c } else { -c },
            r * r >= c * c + o * o,
    ;
    assert(a <= r) by (nonlinear_arith)
        requires
            a * a <= r * r,
            a >= 0,
            r >= 0,
    ;
    assert(a * (m * radius) <= (r * 1000) * radius) by (nonlinear_arith)
        requires
            0 <= a <= r,
            0 <= m < 1000,
            0 <= radius,
    ;
}

/// Appends `count` samples to `samples`, each within the disk of the
/// given radius around `center`; existing entries are kept unchanged.
pub fn generate_cluster(center: Point, radius: i64, count: usize, samples: &mut Vec<Point>)
    requires
        0 <= radius <= 20000,
        crate::MIN_X <= center.x - radius,
        center.x + radius <= crate::MAX_X,
        crate::MIN_Y <= center.y - radius,
        center.y + radius <= crate::MAX_Y,
        old(samples)@.len() + count <= usize::MAX,
    ensures
        final(samples)@.len() == old(samples)@.len() + count,
        forall|i: int| 0 <= i < old(samples)@.len() ==> final(samples)@[i] == old(samples)@[i],
        forall|i: int|
            old(samples)@.len() <= i < final(samples)@.len() ==> in_square(
                center,
                radius as int,
                #[trigger] final(samples)@[i],
            ) && sq_dist(final(samples)@[i], center) <= radius * radius,
{
    let mut i: usize = 0;
    while i < count
        invariant
            i <= count,
            samples@.len() == old(samples)@.len() + i,
            old(samples)@.len() + count <= usize::MAX,
            0 <= radius <= 20000,
            crate::MIN_X <= center.x - radius,
            center.x + radius <= crate::MAX_X,
            crate::MIN_Y <= center.y - radius,
            center.y + radius <= crate::MAX_Y,
            forall|j: int| 0 <= j < old(samples)@.len() ==> samples@[j] == old(samples)@[j],
            forall|j: int|
                old(samples)@.len() <= j < samples@.len() ==> in_square(
                    center,
                    radius as int,
                    #[trigger] samples@[j],
                ) && sq_dist(samples@[j], center) <= radius * radius,
        decreases count - i,
    {
        let off = disk_offset(radius);
        let p = Point { x: center.x + off.0, y: center.y + off.1 };
        samples.push(p);
        i = i + 1;
    }
}

/// Center of blob `b` of the fixed point cloud: the world origin first,
/// then the four corners of the half-extent square.
pub open spec fn blob_center(b: int) -> Point {
    if b == 0 {
        Point { x: 0i64, y: 0i64 }
    } else if b == 1 {
        Point { x: -10000i64, y: 10000i64 }
    } else if b == 2 {
        Point { x: 10000i64, y: 10000i64 }
    } else if b == 3 {
        Point { x: -10000i64, y: -10000i64 }
    } else {
        Point { x: 10000i64, y: -10000i64 }
    }
}

/// Radius of blob `b`: 10 world units for the central blob, 5 for each
/// corner blob.
pub open spec fn blob_radius(b: int) -> int {
    if b == 0 {
        crate::CENTER_BLOB_RADIUS as int
    } else {
        crate::CORNER_BLOB_RADIUS as int
    }
}

/// The fixed five-blob layout of a freshly sampled point cloud: five
/// consecutive blocks of [`crate::BLOB_COUNT`] points, block `b` lying in
/// the closed disk of [`blob_radius`]`(b)` about [`blob_center`]`(b)`.
pub open spec fn five_blob_layout(ps: Seq<Point>) -> bool {
    &&& ps.len() == 5 * crate::BLOB_COUNT
    &&& forall|i: int|
        0 <= i < 100 ==> sq_dist(#[trigger] ps[i], blob_center(0)) <= blob_radius(0) * blob_radius(
            0,
        )
    &&& forall|i: int|
        100 <= i < 200 ==> sq_dist(#[trigger] ps[i], blob_center(1)) <= blob_radius(1)
            * blob_radius(1)
    &&& forall|i: int|
        200 <= i < 300 ==> sq_dist(#[trigger] ps[i], blob_center(2)) <= blob_radius(2)
            * blob_radius(2)
    &&& forall|i: int|
        300 <= i < 400 ==> sq_dist(#[trigger] ps[i], blob_center(3)) <= blob_radius(3)
            * blob_radius(3)
    &&& forall|i: int|
        400 <= i < 500 ==> sq_dist(#[trigger] ps[i], blob_center(4)) <= blob_radius(4)
            * blob_radius(4)
}

/// Builds a fresh point cloud of five blobs of [`crate::BLOB_COUNT`]
/// points each — one at the world origin with a radius of 10 world units,
/// four at the corners of the half-extent square with a radius of 5 —
/// together with [`crate::K`] centroids drawn uniformly at random within
/// the world bounds, each coordinate independently.
pub fn regenerate_cluster() -> (r: (Vec<Point>, Vec<Point>))
    ensures
        r.0@.len() == 5 * crate::BLOB_COUNT,
        all_in_bounds(r.0@),
        five_blob_layout(r.0@),
        r.1@.len() == crate::K,
        all_in_bounds(r.1@),
{
    let mut points: Vec<Point> = Vec::new();
    // half the world extent in each direction
    let hx: i64 = 10000;
    let hy: i64 = 10000;
    generate_cluster(Point { x: 0, y: 0 }, crate::CENTER_BLOB_RADIUS, crate::BLOB_COUNT, &mut points);
    generate_cluster(Point { x: -hx, y: hy }, crate::CORNER_BLOB_RADIUS, crate::BLOB_COUNT, &mut points);
    generate_cluster(Point { x: hx, y: hy }, crate::CORNER_BLOB_RADIUS, crate::BLOB_COUNT, &mut points);
    generate_cluster(Point { x: -hx, y: -hy }, crate::CORNER_BLOB_RADIUS, crate::BLOB_COUNT, &mut points);
    generate_cluster(Point { x: hx, y: -hy }, crate::CORNER_BLOB_RADIUS, crate::BLOB_COUNT, &mut points);
    proof {
        assert forall|i: int| 0 <= i < points@.len() implies in_world_bounds(#[trigger] points@[i]) by {
        }
        assert(five_blob_layout(points@));
    }
    let mut centroids: Vec<Point> = Vec::new();
    let mut i: usize = 0;
    while i < crate::K
        invariant
            i <= crate::K,
            centroids@.len() == i,
            all_in_bounds(centroids@),
        decreases crate::K - i,
    {
        let c = random_world_point();
        centroids.push(c);
        i = i + 1;
    }
    (points, centroids)
}

} // verus!
