use kmeans::assigner::{assign, nearest_idx};
use kmeans::geometry::{subtract, squared_distance, squared_length, Point};
use kmeans::sampler::{generate_cluster, regenerate_cluster};
use kmeans::session::Session;
use kmeans::updater::{mean_point, update};
use kmeans::{
    BLOB_COUNT, CENTROID_RENDER_RADIUS, K, MAX_X, MAX_Y, MIN_X, MIN_Y, POINT_RENDER_RADIUS,
};

fn pt(x: i64, y: i64) -> Point {
    Point { x, y }
}

fn in_bounds(p: &Point) -> bool {
    MIN_X <= p.x && p.x <= MAX_X && MIN_Y <= p.y && p.y <= MAX_Y
}

fn d2(a: &Point, b: &Point) -> i64 {
    (a.x - b.x) * (a.x - b.x) + (a.y - b.y) * (a.y - b.y)
}

#[test]
fn test_geometry_exact_values() {
    let v = subtract(pt(3, 7), pt(1, 10));
    assert_eq!(v, pt(2, -3));
    assert_eq!(squared_length(v), 13);
    assert_eq!(squared_distance(pt(3, 7), pt(1, 10)), 13);
    assert_eq!(squared_distance(pt(-5, -5), pt(-5, -5)), 0);
}

#[test]
fn test_nearest_idx_picks_closest() {
    let cs = vec![pt(0, 0), pt(10000, 0), pt(0, 10000), pt(10000, 10000)];
    assert_eq!(nearest_idx(pt(1, 2), &cs), 0);
    assert_eq!(nearest_idx(pt(9000, 100), &cs), 1);
    assert_eq!(nearest_idx(pt(100, 9000), &cs), 2);
    assert_eq!(nearest_idx(pt(9999, 9999), &cs), 3);
}

#[test]
fn test_assign_partition() {
    // every input point lands in exactly one of exactly K buckets
    let cs = vec![pt(-10000, -10000), pt(10000, -10000), pt(-10000, 10000), pt(10000, 10000)];
    let ps = vec![
        pt(-9000, -9000),
        pt(9000, -9000),
        pt(-9000, 9000),
        pt(9000, 9000),
        pt(0, 1),
        pt(17, -23),
        pt(20000, 20000),
        pt(-20000, 0),
    ];
    let groups = assign(&ps, &cs);
    assert_eq!(groups.len(), cs.len());
    let total: usize = groups.iter().map(|b| b.len()).sum();
    assert_eq!(total, ps.len());
    for p in &ps {
        let occurrences: usize =
            groups.iter().map(|b| b.iter().filter(|q| *q == p).count()).sum();
        assert_eq!(occurrences, 1);
    }
}

#[test]
fn test_assign_any_cluster_count() {
    // the partition property holds for any number of centroids >= 1
    for k in 1..7 {
        let cs: Vec<Point> = (0..k).map(|i| pt(i as i64 * 3000 - 9000, 0)).collect();
        let ps = vec![pt(-9500, 10), pt(-2, -2), pt(8000, 300), pt(20000, -20000)];
        let groups = assign(&ps, &cs);
        assert_eq!(groups.len(), k);
        let total: usize = groups.iter().map(|b| b.len()).sum();
        assert_eq!(total, ps.len());
    }
}

#[test]
fn test_assign_tie_breaks_to_lower_index() {
    // a point exactly equidistant from centroids 0 and 1 goes to bucket 0
    let cs = vec![pt(-1000, 0), pt(1000, 0)];
    let groups = assign(&vec![pt(0, 0)], &cs);
    assert_eq!(groups[0], vec![pt(0, 0)]);
    assert!(groups[1].is_empty());
    // two identical centroids: everything goes to the first
    let twins = vec![pt(5, 5), pt(5, 5)];
    let groups = assign(&vec![pt(777, -777), pt(0, 0)], &twins);
    assert_eq!(groups[0].len(), 2);
    assert!(groups[1].is_empty());
}

#[test]
fn test_assign_keeps_input_order_within_bucket() {
    let cs = vec![pt(0, 0), pt(10000, 10000)];
    let ps = vec![pt(3, 0), pt(9999, 9999), pt(1, 2), pt(0, 0)];
    let groups = assign(&ps, &cs);
    assert_eq!(groups[0], vec![pt(3, 0), pt(1, 2), pt(0, 0)]);
    assert_eq!(groups[1], vec![pt(9999, 9999)]);
}

#[test]
fn test_assign_idempotent() {
    // same points and centroids in, identical grouping out, every time
    let (points, centroids) = regenerate_cluster();
    let first = assign(&points, &centroids);
    for _ in 0..3 {
        let again = assign(&points, &centroids);
        assert_eq!(again, first);
    }
}

#[test]
fn test_update_exact_mean() {
    // bucket {(0,0), (2,0), (0,2), (2,2)} has mean (1,1)
    let bucket = vec![pt(0, 0), pt(2, 0), pt(0, 2), pt(2, 2)];
    assert_eq!(mean_point(&bucket), pt(1, 1));
    let groups = vec![bucket];
    let cs = update(&groups);
    assert_eq!(cs.len(), 1);
    assert_eq!(cs[0], pt(1, 1));
}

#[test]
fn test_update_mean_more_values() {
    assert_eq!(mean_point(&vec![pt(-6, 9)]), pt(-6, 9));
    assert_eq!(mean_point(&vec![pt(10, -10), pt(20, -20), pt(30, -30)]), pt(20, -20));
    // a sum the length does not divide rounds toward negative infinity
    assert_eq!(mean_point(&vec![pt(-3, 3), pt(-4, 4)]), pt(-4, 3));
}

#[test]
fn test_update_empty_bucket_reseeds_in_bounds() {
    // an empty bucket must not raise a division error; its centroid is
    // reseeded within the world bounds
    for _ in 0..20 {
        let groups: Vec<Vec<Point>> = vec![vec![], vec![pt(4, 4), pt(6, 6)], vec![], vec![]];
        let cs = update(&groups);
        assert_eq!(cs.len(), 4);
        for c in &cs {
            assert!(in_bounds(c));
        }
        assert_eq!(cs[1], pt(5, 5));
    }
}

#[test]
fn test_generate_cluster_count_and_extent() {
    let mut samples = vec![pt(123, 456)];
    generate_cluster(pt(0, 0), 10000, 50, &mut samples);
    assert_eq!(samples.len(), 51);
    assert_eq!(samples[0], pt(123, 456));
    for p in &samples[1..] {
        assert!(p.x.abs() <= 10000 && p.y.abs() <= 10000);
        // the sample lies within the disk, not just the bounding square
        assert!(d2(p, &pt(0, 0)) <= 10000 * 10000);
    }
}

fn assert_five_blob_layout(points: &[Point]) {
    // blocks of 100 lie in the disks of the five fixed blobs: radius 10
    // about the origin, radius 5 about each half-extent corner
    assert_eq!(points.len(), 5 * BLOB_COUNT);
    let blobs = [
        (pt(0, 0), 10000),
        (pt(-10000, 10000), 5000),
        (pt(10000, 10000), 5000),
        (pt(-10000, -10000), 5000),
        (pt(10000, -10000), 5000),
    ];
    for (b, (center, radius)) in blobs.iter().enumerate() {
        for p in &points[b * BLOB_COUNT..(b + 1) * BLOB_COUNT] {
            assert!(d2(p, center) <= radius * radius);
        }
    }
}

#[test]
fn test_regenerate_cluster_counts_and_bounds() {
    let (points, centroids) = regenerate_cluster();
    assert_eq!(points.len(), 5 * BLOB_COUNT);
    assert_eq!(centroids.len(), K);
    for p in &points {
        assert!(in_bounds(p));
    }
    for c in &centroids {
        assert!(in_bounds(c));
    }
    assert_five_blob_layout(&points);
}

#[test]
fn test_session_reset_counts() {
    // a fresh session and every reset give 500 points and K=4 centroids,
    // all within world bounds
    let mut s = Session::new();
    assert_eq!(s.points().len(), 500);
    assert_eq!(s.centroids().len(), K);
    assert!(!s.is_running());
    s.reset();
    assert_eq!(s.points().len(), 500);
    assert_eq!(s.centroids().len(), K);
    for p in s.points() {
        assert!(in_bounds(p));
    }
    for c in s.centroids() {
        assert!(in_bounds(c));
    }
    assert_five_blob_layout(s.points());
    // reset keeps the running flag as it was
    s.toggle_running();
    s.reset();
    assert!(s.is_running());
    assert_five_blob_layout(s.points());
}

#[test]
fn test_session_toggle_running() {
    let mut s = Session::new();
    assert!(!s.is_running());
    s.toggle_running();
    assert!(s.is_running());
    s.toggle_running();
    assert!(!s.is_running());
}

#[test]
fn test_step_not_running_is_noop() {
    let mut s = Session::new();
    let points = s.points().clone();
    let centroids = s.centroids().clone();
    let groups = s.groups().clone();
    for _ in 0..5 {
        s.step_if_running();
        assert_eq!(s.points(), &points);
        assert_eq!(s.centroids(), &centroids);
        assert_eq!(s.groups(), &groups);
        assert!(!s.is_running());
    }
}

#[test]
fn test_step_running_grouping_consistent() {
    let mut s = Session::new();
    s.toggle_running();
    for _ in 0..3 {
        s.step_if_running();
        let centroids = s.centroids();
        let groups = s.groups();
        assert_eq!(groups.len(), centroids.len());
        // the grouping matches the new centroids: every point in bucket j
        // is at least as close to centroid j as to any other centroid
        for (j, bucket) in groups.iter().enumerate() {
            for p in bucket {
                let dj = d2(p, &centroids[j]);
                for c in centroids {
                    assert!(dj <= d2(p, c));
                }
            }
        }
        // and it still partitions all 500 points
        let total: usize = groups.iter().map(|b| b.len()).sum();
        assert_eq!(total, s.points().len());
    }
}

#[test]
fn test_step_running_updates_nonempty_buckets_to_means() {
    let mut s = Session::new();
    s.toggle_running();
    let before: Vec<Vec<Point>> = s.groups().clone();
    s.step_if_running();
    let after = s.centroids();
    for (j, bucket) in before.iter().enumerate() {
        if !bucket.is_empty() {
            assert_eq!(after[j], mean_point(bucket));
        } else {
            assert!(in_bounds(&after[j]));
        }
    }
}

#[test]
fn test_render_hint_ratio() {
    assert_eq!(CENTROID_RENDER_RADIUS, 2 * POINT_RENDER_RADIUS);
}
