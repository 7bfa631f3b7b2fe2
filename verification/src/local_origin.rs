//! The moving local origin that keeps render-space coordinates small.
//!
//! A [`LocalOrigin`] is a reference point in Web Mercator nanometers plus a
//! recentring threshold. Render-space ("local") coordinates are Mercator
//! coordinates with the origin subtracted; whenever the camera drifts
//! further than the threshold from the origin, the origin is shifted onto
//! the camera and every local coordinate must be re-derived.
use vstd::prelude::*;
use vstd::arithmetic::mul::lemma_mul_nonnegative;

use crate::coords::{LocalCoords, MercatorAabb2d, MercatorCoords};

verus! {

/// The largest magnitude, in nanometers, this library accepts for a stored
/// Mercator coordinate or a recentring threshold. It is roughly fifty world
/// widths, far beyond anything a map application produces, and keeps every
/// origin sum and difference inside `i64`.
pub const COORD_LIMIT_NM: i64 = 2_000_000_000_000_000_000;

/// The default recentring threshold: 2500 meters in nanometers.
pub const DEFAULT_RECENTER_DISTANCE_NM: i64 = 2_500_000_000_000;

/// The square of any value in the `i64` range is nonnegative and fits
/// comfortably in an `i128`.
proof fn lemma_square_bounds(x: int)
    requires
        -0x8000_0000_0000_0000 <= x <= 0x8000_0000_0000_0000,
    ensures
        0 <= x * x <= 0x4000_0000_0000_0000_0000_0000_0000_0000,
{
    assert(0 <= x * x <= 0x4000_0000_0000_0000_0000_0000_0000_0000) by (nonlinear_arith)
        requires
            -0x8000_0000_0000_0000 <= x <= 0x8000_0000_0000_0000,
    ;
}

/// True when a local coordinate's horizontal components are small enough
/// for every origin translation to stay inside `i64`.
pub open spec fn in_local_range(l: LocalCoords) -> bool {
    &&& -COORD_LIMIT_NM <= l.x <= COORD_LIMIT_NM
    &&& -COORD_LIMIT_NM <= l.y <= COORD_LIMIT_NM
}

/// Checks [`in_local_range`] at run time.
pub fn check_local_range(l: LocalCoords) -> (r: bool)
    ensures
        r == in_local_range(l),
{
    -COORD_LIMIT_NM <= l.x && l.x <= COORD_LIMIT_NM && -COORD_LIMIT_NM <= l.y && l.y
        <= COORD_LIMIT_NM
}

/// True when the camera's local position lies strictly outside the circle
/// of radius `dist` around the local origin, compared in squared lengths.
pub open spec fn spec_should_recenter(cam_x: int, cam_y: int, dist: int) -> bool {
    cam_x * cam_x + cam_y * cam_y > dist * dist
}

/// Local origin in Web Mercator nanometers and the distance at which to
/// recenter.
#[derive(Clone, Debug)]
pub struct LocalOrigin {
    mercator_origin: MercatorCoords,
    recenter_distance: i64,
}

impl LocalOrigin {
    /// A well-formed origin lies within [`COORD_LIMIT_NM`] on every axis and
    /// has a positive recentring threshold no larger than the limit.
    pub closed spec fn wf(self) -> bool {
        &&& -COORD_LIMIT_NM <= self.mercator_origin.x <= COORD_LIMIT_NM
        &&& -COORD_LIMIT_NM <= self.mercator_origin.y <= COORD_LIMIT_NM
        &&& -COORD_LIMIT_NM <= self.mercator_origin.z <= COORD_LIMIT_NM
        &&& 0 < self.recenter_distance <= COORD_LIMIT_NM
    }

    /// The origin point itself, visible to specifications.
    pub closed spec fn spec_origin(self) -> MercatorCoords {
        self.mercator_origin
    }

    /// The recentring threshold, visible to specifications.
    pub closed spec fn spec_recenter_distance(self) -> int {
        self.recenter_distance as int
    }

    /// What well-formedness guarantees about the stored values: the origin
    /// point stays within [`COORD_LIMIT_NM`] on every axis and the
    /// recentring threshold is positive and bounded.
    pub proof fn lemma_wf_bounds(self)
        requires
            self.wf(),
        ensures
            -COORD_LIMIT_NM <= self.spec_origin().x <= COORD_LIMIT_NM,
            -COORD_LIMIT_NM <= self.spec_origin().y <= COORD_LIMIT_NM,
            -COORD_LIMIT_NM <= self.spec_origin().z <= COORD_LIMIT_NM,
            0 < self.spec_recenter_distance() <= COORD_LIMIT_NM,
    {
    }

    /// Creates an origin at the given point with the default recentring
    /// threshold.
    pub fn new(mercator_origin: MercatorCoords) -> (r: LocalOrigin)
        requires
            -COORD_LIMIT_NM <= mercator_origin.x <= COORD_LIMIT_NM,
            -COORD_LIMIT_NM <= mercator_origin.y <= COORD_LIMIT_NM,
            -COORD_LIMIT_NM <= mercator_origin.z <= COORD_LIMIT_NM,
        ensures
            r.wf(),
            r.spec_origin() == mercator_origin,
            r.spec_recenter_distance() == DEFAULT_RECENTER_DISTANCE_NM as int,
    {
        LocalOrigin { mercator_origin, recenter_distance: DEFAULT_RECENTER_DISTANCE_NM }
    }

    /// Creates an origin with an explicit recentring threshold.
    pub fn with_distance(mercator_origin: MercatorCoords, recenter_distance: i64) -> (r:
        LocalOrigin)
        requires
            -COORD_LIMIT_NM <= mercator_origin.x <= COORD_LIMIT_NM,
            -COORD_LIMIT_NM <= mercator_origin.y <= COORD_LIMIT_NM,
            -COORD_LIMIT_NM <= mercator_origin.z <= COORD_LIMIT_NM,
            0 < recenter_distance <= COORD_LIMIT_NM,
        ensures
            r.wf(),
            r.spec_origin() == mercator_origin,
            r.spec_recenter_distance() == recenter_distance as int,
    {
        LocalOrigin { mercator_origin, recenter_distance }
    }

    /// The current origin in Web Mercator nanometers.
    pub fn mercator_origin(&self) -> (r: MercatorCoords)
        ensures
            r == self.spec_origin(),
    {
        self.mercator_origin
    }

    /// The recentring threshold in nanometers.
    pub fn recenter_distance(&self) -> (r: i64)
        ensures
            r as int == self.spec_recenter_distance(),
    {
        self.recenter_distance
    }

    /// Replaces the origin point, keeping the threshold.
    pub fn set_mercator_origin(&mut self, origin: MercatorCoords)
        requires
            old(self).wf(),
            -COORD_LIMIT_NM <= origin.x <= COORD_LIMIT_NM,
            -COORD_LIMIT_NM <= origin.y <= COORD_LIMIT_NM,
            -COORD_LIMIT_NM <= origin.z <= COORD_LIMIT_NM,
        ensures
            final(self).wf(),
            final(self).spec_origin() == origin,
            final(self).spec_recenter_distance() == old(self).spec_recenter_distance(),
    {
        self.mercator_origin = origin;
    }

    /// Moves the origin by the given delta.
    pub fn shift_mercator_origin(&mut self, delta: MercatorCoords)
        requires
            old(self).wf(),
            -COORD_LIMIT_NM <= old(self).spec_origin().x + delta.x <= COORD_LIMIT_NM,
            -COORD_LIMIT_NM <= old(self).spec_origin().y + delta.y <= COORD_LIMIT_NM,
            -COORD_LIMIT_NM <= old(self).spec_origin().z + delta.z <= COORD_LIMIT_NM,
        ensures
            final(self).wf(),
            final(self).spec_origin().x == old(self).spec_origin().x + delta.x,
            final(self).spec_origin().y == old(self).spec_origin().y + delta.y,
            final(self).spec_origin().z == old(self).spec_origin().z + delta.z,
            final(self).spec_recenter_distance() == old(self).spec_recenter_distance(),
    {
        self.mercator_origin = MercatorCoords {
            x: self.mercator_origin.x + delta.x,
            y: self.mercator_origin.y + delta.y,
            z: self.mercator_origin.z + delta.z,
        };
    }

    /// Converts a Mercator position to the render-space position relative
    /// to this origin: a pure horizontal translation, no scaling. The z
    /// component is a layering height, not a map coordinate: it passes
    /// through every conversion unchanged.
    pub fn to_local(&self, p: MercatorCoords) -> (r: LocalCoords)
        requires
            self.wf(),
            -COORD_LIMIT_NM <= p.x <= COORD_LIMIT_NM,
            -COORD_LIMIT_NM <= p.y <= COORD_LIMIT_NM,
        ensures
            r.x == p.x - self.spec_origin().x,
            r.y == p.y - self.spec_origin().y,
            r.z == p.z,
    {
        LocalCoords { x: p.x - self.mercator_origin.x, y: p.y - self.mercator_origin.y, z: p.z }
    }

    /// Converts a render-space position back to Mercator: the inverse
    /// horizontal translation of [`LocalOrigin::to_local`], with the
    /// layering height again kept as it is.
    pub fn to_mercator(&self, l: LocalCoords) -> (r: MercatorCoords)
        requires
            self.wf(),
            -2 * COORD_LIMIT_NM <= l.x <= 2 * COORD_LIMIT_NM,
            -2 * COORD_LIMIT_NM <= l.y <= 2 * COORD_LIMIT_NM,
        ensures
            r.x == l.x + self.spec_origin().x,
            r.y == l.y + self.spec_origin().y,
            r.z == l.z,
    {
        MercatorCoords { x: l.x + self.mercator_origin.x, y: l.y + self.mercator_origin.y, z: l.z }
    }

    /// Converts an axis-aligned box given in render space into Mercator
    /// space, corner by corner.
    pub fn aabb_to_mercator(&self, min_x: i64, min_y: i64, max_x: i64, max_y: i64) -> (r:
        MercatorAabb2d)
        requires
            self.wf(),
            min_x <= max_x,
            min_y <= max_y,
            -2 * COORD_LIMIT_NM <= min_x,
            max_x <= 2 * COORD_LIMIT_NM,
            -2 * COORD_LIMIT_NM <= min_y,
            max_y <= 2 * COORD_LIMIT_NM,
        ensures
            r.wf(),
            r.min_x == min_x + self.spec_origin().x,
            r.min_y == min_y + self.spec_origin().y,
            r.max_x == max_x + self.spec_origin().x,
            r.max_y == max_y + self.spec_origin().y,
    {
        MercatorAabb2d {
            min_x: min_x + self.mercator_origin.x,
            min_y: min_y + self.mercator_origin.y,
            max_x: max_x + self.mercator_origin.x,
            max_y: max_y + self.mercator_origin.y,
        }
    }

    /// Shifts the origin onto the camera when the camera's local position
    /// has drifted beyond the recentring threshold (compared by Euclidean
    /// length). Returns the translation delta the caller must subtract from
    /// every local coordinate that has no authoritative Mercator source;
    /// coordinates that do have one must be re-derived from it instead.
    ///
    /// The camera itself ends up at local `(0, 0)` on the horizontal axes:
    /// the delta is exactly its previous local position.
    pub fn maybe_recenter(&mut self, camera_local: LocalCoords) -> (r: Option<LocalCoords>)
        requires
            old(self).wf(),
            -COORD_LIMIT_NM <= old(self).spec_origin().x + camera_local.x <= COORD_LIMIT_NM,
            -COORD_LIMIT_NM <= old(self).spec_origin().y + camera_local.y <= COORD_LIMIT_NM,
        ensures
            final(self).wf(),
            final(self).spec_recenter_distance() == old(self).spec_recenter_distance(),
            r is Some <==> spec_should_recenter(
                camera_local.x as int,
                camera_local.y as int,
                old(self).spec_recenter_distance(),
            ),
            r is None ==> *final(self) == *old(self),
            r is Some ==> {
                &&& r->Some_0 == (LocalCoords { x: camera_local.x, y: camera_local.y, z: 0 })
                &&& final(self).spec_origin().x == old(self).spec_origin().x + camera_local.x
                &&& final(self).spec_origin().y == old(self).spec_origin().y + camera_local.y
                &&& final(self).spec_origin().z == old(self).spec_origin().z
            },
    {
        proof {
            lemma_square_bounds(camera_local.x as int);
            lemma_square_bounds(camera_local.y as int);
            lemma_square_bounds(self.recenter_distance as int);
        }
        let xx: u128 = ((camera_local.x as i128) * (camera_local.x as i128)) as u128;
        let yy: u128 = ((camera_local.y as i128) * (camera_local.y as i128)) as u128;
        let dd: u128 = ((self.recenter_distance as i128) * (self.recenter_distance as i128))
            as u128;
        if xx + yy <= dd {
            return None;
        }
        let delta = LocalCoords { x: camera_local.x, y: camera_local.y, z: 0 };
        self.mercator_origin = MercatorCoords {
            x: self.mercator_origin.x + camera_local.x,
            y: self.mercator_origin.y + camera_local.y,
            z: self.mercator_origin.z,
        };
        Some(delta)
    }
}

/// Rebases a list of Mercator points onto the first point: returns each
/// point horizontally relative to the first (layering heights unchanged),
/// together with the first point itself as the anchor to place the whole
/// list in the world. An empty list anchors at the world origin.
pub fn points_to_relative(points: &Vec<MercatorCoords>) -> (r: (Vec<LocalCoords>, MercatorCoords))
    requires
        forall|i: int|
            0 <= i < points@.len() ==> {
                let p = #[trigger] points@[i];
                -COORD_LIMIT_NM <= p.x <= COORD_LIMIT_NM && -COORD_LIMIT_NM <= p.y
                    <= COORD_LIMIT_NM
            },
    ensures
        r.1 == if points@.len() == 0 {
            MercatorCoords { x: 0, y: 0, z: 0 }
        } else {
            points@[0]
        },
        r.0@.len() == points@.len(),
        forall|i: int|
            0 <= i < points@.len() ==> {
                let p = #[trigger] points@[i];
                r.0@[i] == (LocalCoords { x: (p.x - r.1.x) as i64, y: (p.y - r.1.y) as i64, z: p.z
                })
            },
{
    if points.len() == 0 {
        let out: Vec<LocalCoords> = Vec::new();
        return (out, MercatorCoords { x: 0, y: 0, z: 0 });
    }
    let first = points[0];
    let mut out: Vec<LocalCoords> = Vec::new();
    let mut i: usize = 0;
    while i < points.len()
        invariant
            i <= points@.len(),
            points@.len() > 0,
            first == points@[0],
            forall|k: int|
                0 <= k < points@.len() ==> {
                    let p = #[trigger] points@[k];
                    -COORD_LIMIT_NM <= p.x <= COORD_LIMIT_NM && -COORD_LIMIT_NM <= p.y
                        <= COORD_LIMIT_NM
                },
            out@.len() == i,
            forall|k: int|
                0 <= k < i ==> {
                    let p = #[trigger] points@[k];
                    out@[k] == (LocalCoords { x: (p.x - first.x) as i64, y: (p.y - first.y) as i64,
                        z: p.z })
                },
        decreases points@.len() - i,
    {
        let p = points[i];
        out.push(LocalCoords { x: p.x - first.x, y: p.y - first.y, z: p.z });
        i = i + 1;
    }
    (out, first)
}

/// Recentring idempotence: when [`LocalOrigin::maybe_recenter`] fires for a
/// camera at local position `cam`, the camera's new local position is
/// exactly `cam` minus the returned delta, that is `(0, 0)` horizontally.
/// Its squared magnitude, zero, is at most the pre-shift squared magnitude
/// and strictly below the squared recentring threshold, so the shift cannot
/// fire again for the same camera position.
pub proof fn lemma_recenter_idempotent(cam: LocalCoords, dist: int)
    requires
        dist >= 1,
        spec_should_recenter(cam.x as int, cam.y as int, dist),
    ensures
        ({
            let new_x = cam.x - cam.x;
            let new_y = cam.y - cam.y;
            &&& new_x == 0 && new_y == 0
            &&& new_x * new_x + new_y * new_y <= cam.x * cam.x + cam.y * cam.y
            &&& !spec_should_recenter(new_x as int, new_y as int, dist)
        }),
{
    lemma_square_bounds(cam.x as int);
    lemma_square_bounds(cam.y as int);
    lemma_mul_nonnegative(dist, dist);
}

} // verus!
