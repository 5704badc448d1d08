//! The session controller: owner of the mutable clustering state, driven
//! by an external render/input loop through reset, toggle and step
//! operations, and read back through the accessors.

use vstd::prelude::*;
use crate::geometry::{Point, all_in_bounds};
use crate::assigner::{assign, assign_spec, lemma_buckets_in_bounds};
use crate::updater::{update, mean_x, mean_y};
use crate::sampler::{five_blob_layout, regenerate_cluster};

verus! {

/// Owner of the clustering state: the point set, the centroid set, the
/// current grouping, and the running flag.  All state is replaced
/// wholesale — the point set on reset, the grouping on every pass —
/// never patched incrementally.
pub struct Session {
    points: Vec<Point>,
    centroids: Vec<Point>,
    groups: Vec<Vec<Point>>,
    running: bool,
}

impl Session {
    /// Structural invariant: exactly `K` centroids, as many buckets, and
    /// every stored point within the world bounds.
    #[verifier::type_invariant]
    spec fn inv(self) -> bool {
        &&& self.centroids@.len() == crate::K
        &&& self.groups@.len() == crate::K
        &&& all_in_bounds(self.points@)
        &&& all_in_bounds(self.centroids@)
        &&& forall|j: int|
            0 <= j < self.groups@.len() ==> all_in_bounds((#[trigger] self.groups@[j])@)
    }

    /// The stored point set.
    pub closed spec fn spec_points(self) -> Seq<Point> {
        self.points@
    }

    /// The stored centroid set.
    pub closed spec fn spec_centroids(self) -> Seq<Point> {
        self.centroids@
    }

    /// The stored grouping, bucket by bucket.
    pub closed spec fn spec_groups(self) -> Seq<Seq<Point>> {
        Seq::new(self.groups@.len(), |j: int| self.groups@[j]@)
    }

    /// The running flag.
    pub closed spec fn spec_running(self) -> bool {
        self.running
    }

    /// The stored grouping is exactly the assignment of the stored points
    /// to the stored centroids.
    pub open spec fn grouping_current(self) -> bool {
        self.spec_groups() == assign_spec(self.spec_points(), self.spec_centroids())
    }

    /// A fresh session: a five-blob point cloud, `K` random centroids,
    /// their initial assignment, and the running flag off.
    pub fn new() -> (s: Session)
        ensures
            s.spec_points().len() == 5 * crate::BLOB_COUNT,
            five_blob_layout(s.spec_points()),
            s.spec_centroids().len() == crate::K,
            all_in_bounds(s.spec_points()),
            all_in_bounds(s.spec_centroids()),
            s.grouping_current(),
            !s.spec_running(),
    {
        let (points, centroids) = regenerate_cluster();
        let groups = assign(&points, &centroids);
        proof {
            assert forall|j: int| 0 <= j < groups@.len() implies all_in_bounds(
                (#[trigger] groups@[j])@,
            ) by {
                lemma_buckets_in_bounds(points@, centroids@, j);
            }
        }
        let s = Session { points, centroids, groups, running: false };
        proof {
            assert(s.spec_groups() =~= assign_spec(s.spec_points(), s.spec_centroids()));
        }
        s
    }

    /// Replaces the point set and the centroid set wholesale with fresh
    /// samples and recomputes the initial grouping; the running flag is
    /// kept as it was.
    pub fn reset(&mut self)
        ensures
            final(self).spec_points().len() == 5 * crate::BLOB_COUNT,
            five_blob_layout(final(self).spec_points()),
            final(self).spec_centroids().len() == crate::K,
            all_in_bounds(final(self).spec_points()),
            all_in_bounds(final(self).spec_centroids()),
            final(self).grouping_current(),
            final(self).spec_running() == old(self).spec_running(),
    {
        proof {
            use_type_invariant(&*self);
        }
        let (points, centroids) = regenerate_cluster();
        let groups = assign(&points, &centroids);
        proof {
            assert forall|j: int| 0 <= j < groups@.len() implies all_in_bounds(
                (#[trigger] groups@[j])@,
            ) by {
                lemma_buckets_in_bounds(points@, centroids@, j);
            }
        }
        self.points = points;
        self.centroids = centroids;
        self.groups = groups;
        proof {
            assert(self.spec_groups() =~= assign_spec(self.spec_points(), self.spec_centroids()));
        }
    }

    /// Flips the running flag; no data changes.
    pub fn toggle_running(&mut self)
        ensures
            final(self).spec_running() == !old(self).spec_running(),
            final(self).spec_points() == old(self).spec_points(),
            final(self).spec_centroids() == old(self).spec_centroids(),
            final(self).spec_groups() == old(self).spec_groups(),
    {
        proof {
            use_type_invariant(&*self);
        }
        self.running = !self.running;
    }

    /// One unit of algorithmic progress, if running: recompute every
    /// centroid from the current grouping (the exact mean of a non-empty
    /// bucket, a fresh random in-bounds point for an empty one), then
    /// reassign all points to the new centroids — exactly one centroid
    /// update and one assignment pass per call.  A no-op when the running
    /// flag is off.
    pub fn step_if_running(&mut self)
        ensures
            final(self).spec_running() == old(self).spec_running(),
            final(self).spec_points() == old(self).spec_points(),
            !old(self).spec_running() ==> final(self).spec_centroids() == old(
                self,
            ).spec_centroids() && final(self).spec_groups() == old(self).spec_groups(),
            old(self).spec_running() ==> {
                &&& final(self).spec_centroids().len() == old(self).spec_centroids().len()
                &&& forall|j: int|
                    0 <= j < old(self).spec_groups().len() && (#[trigger] old(
                        self,
                    ).spec_groups()[j]).len() > 0 ==> final(self).spec_centroids()[j].x == mean_x(
                        old(self).spec_groups()[j],
                    ) && final(self).spec_centroids()[j].y == mean_y(old(self).spec_groups()[j])
                &&& all_in_bounds(final(self).spec_centroids())
                &&& final(self).grouping_current()
            },
    {
        proof {
            use_type_invariant(&*self);
        }
        if self.running {
            let centroids = update(&self.groups);
            let groups = assign(&self.points, &centroids);
            proof {
                assert forall|j: int| 0 <= j < groups@.len() implies all_in_bounds(
                    (#[trigger] groups@[j])@,
                ) by {
                    lemma_buckets_in_bounds(self.points@, centroids@, j);
                }
            }
            self.centroids = centroids;
            self.groups = groups;
            proof {
                assert(self.spec_groups() =~= assign_spec(
                    self.spec_points(),
                    self.spec_centroids(),
                ));
                assert forall|j: int|
                    0 <= j < old(self).spec_groups().len() && (#[trigger] old(
                        self,
                    ).spec_groups()[j]).len() > 0 implies self.spec_centroids()[j].x == mean_x(
                    old(self).spec_groups()[j],
                ) && self.spec_centroids()[j].y == mean_y(old(self).spec_groups()[j]) by {
                    assert(old(self).spec_groups()[j] == old(self).groups@[j]@);
                }
            }
        }
    }

    /// Read-only view of the point set.
    pub fn points(&self) -> (r: &Vec<Point>)
        ensures
            r@ == self.spec_points(),
    {
        &self.points
    }

    /// Read-only view of the centroid set.
    pub fn centroids(&self) -> (r: &Vec<Point>)
        ensures
            r@ == self.spec_centroids(),
    {
        &self.centroids
    }

    /// Read-only view of the current grouping.
    pub fn groups(&self) -> (r: &Vec<Vec<Point>>)
        ensures
            r@.len() == self.spec_groups().len(),
            forall|j: int| 0 <= j < r@.len() ==> (#[trigger] r@[j])@ == self.spec_groups()[j],
    {
        &self.groups
    }

    /// Whether iterations currently auto-advance.
    pub fn is_running(&self) -> (r: bool)
        ensures
            r == self.spec_running(),
    {
        self.running
    }
}

} // verus!
