//! Coordinate types and the exact fixed-point conversions between
//! geographic longitude and projected Web Mercator meters.
//!
//! All projected coordinates are stored in integer nanometers so that every
//! conversion in this module is exact rational arithmetic: the Web Mercator
//! half-extent (20037508.342789244 m) is exactly 20_037_508_342_789_244 nm.
//! Longitudes are stored in integer nano-degrees (1e-9 degrees).
use vstd::prelude::*;
use vstd::arithmetic::div_mod::{lemma_fundamental_div_mod, lemma_fundamental_div_mod_converse,
    lemma_div_is_ordered, lemma_div_multiples_vanish};

use crate::WORLD_EXTENT_NM;
use crate::DEGREES_180_ND;

verus! {

/// A position in Web Mercator meters, stored as integer nanometers.
///
/// The `z` component is not used by coordinate conversions; it carries a
/// layering height through the pipeline unchanged.
#[derive(Clone, Copy, Debug, PartialEq, Eq, Structural)]
pub struct MercatorCoords {
    pub x: i64,
    pub y: i64,
    pub z: i64,
}

impl MercatorCoords {
    pub fn new(x: i64, y: i64, z: i64) -> (r: MercatorCoords)
        ensures
            r == (MercatorCoords { x, y, z }),
    {
        MercatorCoords { x, y, z }
    }

    /// Returns the same horizontal position with a new layering height.
    pub fn with_z(self, z: i64) -> (r: MercatorCoords)
        ensures
            r == (MercatorCoords { x: self.x, y: self.y, z }),
    {
        MercatorCoords { x: self.x, y: self.y, z }
    }

    /// The horizontal components.
    pub fn xy(self) -> (r: (i64, i64))
        ensures
            r.0 == self.x,
            r.1 == self.y,
    {
        (self.x, self.y)
    }
}

/// A render-space position relative to the current local origin, in
/// nanometers. It is only meaningful for the origin generation it was
/// derived from: after a recentring shift it must be re-derived.
#[derive(Clone, Copy, Debug, PartialEq, Eq, Structural)]
pub struct LocalCoords {
    pub x: i64,
    pub y: i64,
    pub z: i64,
}

/// An axis-aligned bounding box in Web Mercator nanometers.
#[derive(Clone, Copy, Debug, PartialEq, Eq, Structural)]
pub struct MercatorAabb2d {
    pub min_x: i64,
    pub min_y: i64,
    pub max_x: i64,
    pub max_y: i64,
}

impl MercatorAabb2d {
    /// A box is well formed when each minimum is at or below its maximum.
    pub open spec fn wf(self) -> bool {
        self.min_x <= self.max_x && self.min_y <= self.max_y
    }

    pub fn new(min_x: i64, min_y: i64, max_x: i64, max_y: i64) -> (r: MercatorAabb2d)
        requires
            min_x <= max_x,
            min_y <= max_y,
        ensures
            r == (MercatorAabb2d { min_x, min_y, max_x, max_y }),
            r.wf(),
    {
        MercatorAabb2d { min_x, min_y, max_x, max_y }
    }

    /// The box around the two given corner points, whichever order they
    /// come in.
    pub fn from_corners(a: (i64, i64), b: (i64, i64)) -> (r: MercatorAabb2d)
        ensures
            r.wf(),
            r.min_x == if a.0 <= b.0 { a.0 } else { b.0 },
            r.max_x == if a.0 <= b.0 { b.0 } else { a.0 },
            r.min_y == if a.1 <= b.1 { a.1 } else { b.1 },
            r.max_y == if a.1 <= b.1 { b.1 } else { a.1 },
    {
        let min_x = if a.0 <= b.0 { a.0 } else { b.0 };
        let max_x = if a.0 <= b.0 { b.0 } else { a.0 };
        let min_y = if a.1 <= b.1 { a.1 } else { b.1 };
        let max_y = if a.1 <= b.1 { b.1 } else { a.1 };
        MercatorAabb2d { min_x, min_y, max_x, max_y }
    }

    /// The center, with halves rounded toward the minimum corner.
    pub fn center(&self) -> (r: (i64, i64))
        requires
            self.wf(),
        ensures
            r.0 == self.min_x + (self.max_x - self.min_x) / 2,
            r.1 == self.min_y + (self.max_y - self.min_y) / 2,
    {
        let dx = ((self.max_x as i128 - self.min_x as i128) as u128) / 2;
        let dy = ((self.max_y as i128 - self.min_y as i128) as u128) / 2;
        (self.min_x + (dx as i64), self.min_y + (dy as i64))
    }

    /// The width and height of the box.
    pub fn size(&self) -> (r: (i64, i64))
        requires
            self.wf(),
            self.max_x - self.min_x <= i64::MAX,
            self.max_y - self.min_y <= i64::MAX,
        ensures
            r.0 == self.max_x - self.min_x,
            r.1 == self.max_y - self.min_y,
    {
        (self.max_x - self.min_x, self.max_y - self.min_y)
    }

    /// Half the width and height, rounded down.
    pub fn half_size(&self) -> (r: (i64, i64))
        requires
            self.wf(),
            self.max_x - self.min_x <= i64::MAX,
            self.max_y - self.min_y <= i64::MAX,
        ensures
            r.0 == (self.max_x - self.min_x) / 2,
            r.1 == (self.max_y - self.min_y) / 2,
    {
        let (w, h) = self.size();
        (((w as u64) / 2) as i64, ((h as u64) / 2) as i64)
    }
}

/// The projected easting, in nanometers, of a longitude given in
/// nano-degrees: Web Mercator maps longitude linearly onto the x axis,
/// `x = extent * lon / 180`, rounded down to a whole nanometer.
pub open spec fn spec_lon_to_mercator_x(lon_nd: int) -> int {
    (lon_nd + DEGREES_180_ND as int) * (WORLD_EXTENT_NM as int) / (DEGREES_180_ND as int)
        - WORLD_EXTENT_NM as int
}

/// The longitude, in nano-degrees, whose projected easting is closest from
/// below to the given x coordinate.
pub open spec fn spec_mercator_x_to_lon(x_nm: int) -> int {
    (x_nm + WORLD_EXTENT_NM as int) * (DEGREES_180_ND as int) / (WORLD_EXTENT_NM as int)
        - DEGREES_180_ND as int
}

/// Converts a longitude in nano-degrees to a Web Mercator x coordinate in
/// nanometers, exactly (rounded down to a whole nanometer).
pub fn lon_to_mercator_x(lon_nd: i64) -> (x: i64)
    requires
        -DEGREES_180_ND <= lon_nd <= DEGREES_180_ND,
    ensures
        x == spec_lon_to_mercator_x(lon_nd as int),
        -WORLD_EXTENT_NM <= x <= WORLD_EXTENT_NM,
{
    let u: u128 = (lon_nd + DEGREES_180_ND) as u128;
    let w: u128 = (u * (WORLD_EXTENT_NM as u128)) / (DEGREES_180_ND as u128);
    proof {
        lemma_div_is_ordered(
            (u as int) * (WORLD_EXTENT_NM as int),
            (DEGREES_180_ND as int) * (2 * WORLD_EXTENT_NM),
            DEGREES_180_ND as int,
        );
        lemma_div_multiples_vanish(2 * WORLD_EXTENT_NM, DEGREES_180_ND as int);
    }
    (w as i64) - WORLD_EXTENT_NM
}

/// Converts a Web Mercator x coordinate in nanometers back to a longitude
/// in nano-degrees, exactly (rounded down to a whole nano-degree).
pub fn mercator_x_to_lon(x_nm: i64) -> (lon: i64)
    requires
        -WORLD_EXTENT_NM <= x_nm <= WORLD_EXTENT_NM,
    ensures
        lon == spec_mercator_x_to_lon(x_nm as int),
        -DEGREES_180_ND <= lon <= DEGREES_180_ND,
{
    let w: u128 = (x_nm + WORLD_EXTENT_NM) as u128;
    let u: u128 = (w * (DEGREES_180_ND as u128)) / (WORLD_EXTENT_NM as u128);
    proof {
        lemma_div_is_ordered(
            (w as int) * (DEGREES_180_ND as int),
            (WORLD_EXTENT_NM as int) * (2 * DEGREES_180_ND),
            WORLD_EXTENT_NM as int,
        );
        lemma_div_multiples_vanish(2 * DEGREES_180_ND, WORLD_EXTENT_NM as int);
    }
    (u as i64) - DEGREES_180_ND
}

/// Projection round trip on the longitude axis: converting a longitude to
/// Web Mercator and back loses strictly less than one nano-degree (1e-9
/// degrees). The rounding is always downward, so the result is the exact
/// longitude or the nano-degree just below it.
pub proof fn lemma_lon_round_trip(lon_nd: int)
    requires
        -DEGREES_180_ND <= lon_nd <= DEGREES_180_ND,
    ensures
        lon_nd - 1 <= spec_mercator_x_to_lon(spec_lon_to_mercator_x(lon_nd)) <= lon_nd,
{
    let d = DEGREES_180_ND as int;
    let e = WORLD_EXTENT_NM as int;
    let u = lon_nd + d;
    let w = u * e / d;
    lemma_fundamental_div_mod(u * e, d);
    let r = (u * e) % d;
    assert(w * d == u * e - r);
    assert(spec_lon_to_mercator_x(lon_nd) == w - e);
    assert(spec_mercator_x_to_lon(w - e) == w * d / e - d);
    if r == 0 {
        lemma_fundamental_div_mod_converse(u * e, e, u, 0);
        assert(w * d / e == u);
    } else {
        assert(w * d == e * (u - 1) + (e - r));
        lemma_fundamental_div_mod_converse(w * d, e, u - 1, e - r);
        assert(w * d / e == u - 1);
    }
}

} // verus!
