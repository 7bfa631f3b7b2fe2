//! Tile-index math: converting Web Mercator nanometers to slippy-map tile
//! indices at a zoom level, tile bounding boxes, viewport covering ranges,
//! and the XYZ/TMS fetch-coordinate convention.
//!
//! The world spans `[-WORLD_EXTENT_NM, WORLD_EXTENT_NM]` on each axis and is
//! divided into `2^zoom` by `2^zoom` tiles. A coordinate is mapped to a tile
//! by normalizing against the full world width, scaling by `2^zoom` and
//! rounding down; the x index wraps modulo `2^zoom` at the antimeridian and
//! the y index clamps to the range (there is no pole wraparound). All
//! arithmetic here is exact: the spec functions are the mathematical
//! definitions over unbounded integers.
use vstd::prelude::*;
use vstd::arithmetic::power2::{pow2, lemma_pow2_strictly_increases, lemma_pow2_pos, lemma2_to64};
use vstd::arithmetic::div_mod::{lemma_fundamental_div_mod, lemma_fundamental_div_mod_converse,
    lemma_div_is_ordered, lemma_div_by_multiple, lemma_div_plus_one,
    lemma_mod_division_less_than_divisor};
use vstd::arithmetic::mul::{lemma_mul_inequality, lemma_mul_unary_negation,
    lemma_mul_nonnegative};
use vstd::bits::{lemma_u64_shl_is_mul, lemma_u32_shl_is_mul};

use crate::{FULL_WORLD_NM, MAX_ZOOM, WORLD_EXTENT_NM};
use crate::coords::MercatorAabb2d;

verus! {

/// The address of one raster tile: zoom level and x/y grid position, with
/// the y axis pointing north (toward positive Mercator y).
#[derive(Clone, Copy, Debug, PartialEq, Eq, Structural)]
pub struct TileIndex {
    pub zoom: u8,
    pub x: u32,
    pub y: u32,
}

impl TileIndex {
    /// A tile index is well formed when its zoom is supported and both grid
    /// positions lie inside the `2^zoom` by `2^zoom` grid.
    pub open spec fn wf(self) -> bool {
        &&& self.zoom <= MAX_ZOOM
        &&& (self.x as int) < tile_span(self.zoom as nat)
        &&& (self.y as int) < tile_span(self.zoom as nat)
    }

    pub fn new(zoom: u8, x: u32, y: u32) -> (r: TileIndex)
        ensures
            r == (TileIndex { zoom, x, y }),
    {
        TileIndex { zoom, x, y }
    }
}

/// An inclusive rectangle of tile indices at one zoom level.
#[derive(Clone, Copy, Debug, PartialEq, Eq, Structural)]
pub struct TileBounds {
    pub zoom: u8,
    pub min_x: u32,
    pub min_y: u32,
    pub max_x: u32,
    pub max_y: u32,
}

impl TileBounds {
    /// Well-formed bounds lie inside the grid of their zoom level and are
    /// nonempty.
    pub open spec fn wf(self) -> bool {
        &&& self.zoom <= MAX_ZOOM
        &&& self.min_x <= self.max_x
        &&& self.min_y <= self.max_y
        &&& (self.max_x as int) < tile_span(self.zoom as nat)
        &&& (self.max_y as int) < tile_span(self.zoom as nat)
    }

    /// The inclusive range of x tile coordinates, as `(first, last)`.
    pub fn x_range(&self) -> (r: (u32, u32))
        ensures
            r.0 == self.min_x,
            r.1 == self.max_x,
    {
        (self.min_x, self.max_x)
    }

    /// The inclusive range of y tile coordinates, as `(first, last)`.
    pub fn y_range(&self) -> (r: (u32, u32))
        ensures
            r.0 == self.min_y,
            r.1 == self.max_y,
    {
        (self.min_y, self.max_y)
    }
}

/// True when the tile lies inside the inclusive bounds at the same zoom.
pub open spec fn spec_in_bounds(t: TileIndex, b: TileBounds) -> bool {
    &&& t.zoom == b.zoom
    &&& b.min_x <= t.x <= b.max_x
    &&& b.min_y <= t.y <= b.max_y
}

/// The number of tiles along one axis at a zoom level: `2^zoom`.
pub open spec fn tile_span(zoom: nat) -> int {
    pow2(zoom) as int
}

/// Clamps `v` into the inclusive range `[lo, hi]`.
pub open spec fn spec_clamp(v: int, lo: int, hi: int) -> int {
    if v < lo {
        lo
    } else if v > hi {
        hi
    } else {
        v
    }
}

/// The (unwrapped, unclamped) tile coordinate of a Mercator coordinate:
/// normalize by the world width, scale by `2^zoom`, round down.
pub open spec fn spec_scaled_floor(v_nm: int, zoom: nat) -> int {
    (v_nm + WORLD_EXTENT_NM as int) * tile_span(zoom) / (FULL_WORLD_NM as int)
}

/// As [`spec_scaled_floor`], but rounding up.
pub open spec fn spec_scaled_ceil(v_nm: int, zoom: nat) -> int {
    ((v_nm + WORLD_EXTENT_NM as int) * tile_span(zoom) + FULL_WORLD_NM as int - 1) / (
    FULL_WORLD_NM as int)
}

/// The x tile index of a Mercator x coordinate: the scaled floor, wrapped
/// modulo `2^zoom` across the antimeridian.
pub open spec fn spec_tile_x(x_nm: int, zoom: nat) -> int {
    spec_scaled_floor(x_nm, zoom) % tile_span(zoom)
}

/// The y tile index of a Mercator y coordinate: the scaled floor, clamped
/// into the grid (no pole wraparound).
pub open spec fn spec_tile_y(y_nm: int, zoom: nat) -> int {
    spec_clamp(spec_scaled_floor(y_nm, zoom), 0, tile_span(zoom) - 1)
}

/// The number of tiles along one axis at the given zoom, as a machine
/// integer.
pub fn tile_count(zoom: u8) -> (n: u64)
    requires
        zoom <= MAX_ZOOM,
    ensures
        n as int == tile_span(zoom as nat),
        1 <= n <= 0x40000,
{
    proof {
        lemma2_to64();
        lemma_pow2_pos(zoom as nat);
        if (zoom as nat) < 18 {
            lemma_pow2_strictly_increases(zoom as nat, 18);
        }
        if 0 < (zoom as nat) {
            lemma_pow2_strictly_increases(0, zoom as nat);
        }
        lemma_u64_shl_is_mul(1u64, zoom as u64);
    }
    1u64 << zoom
}

/// Rounding division of a (possibly negative) numerator by the full world
/// width, rounding toward negative infinity.
fn floor_div_world(num: i128) -> (q: i128)
    requires
        -0x1000_0000_0000_0000_0000_0000_0000 <= num <= 0x1000_0000_0000_0000_0000_0000_0000,
    ensures
        q == num as int / FULL_WORLD_NM as int,
{
    let f: u128 = FULL_WORLD_NM as u128;
    if num >= 0 {
        ((num as u128) / f) as i128
    } else {
        let m: u128 = (-num) as u128;
        let qq: u128 = (m + (f - 1)) / f;
        proof {
            lemma_neg_floor_div_world(m as int);
        }
        -(qq as i128)
    }
}

/// Division of a negative number by the world width rounds away from zero:
/// `(-m) / F == -ceil(m / F)` for positive `m`.
proof fn lemma_neg_floor_div_world(m: int)
    requires
        m > 0,
    ensures
        (-m) / (FULL_WORLD_NM as int) == -((m + FULL_WORLD_NM as int - 1) / (FULL_WORLD_NM as int)),
{
    let f = FULL_WORLD_NM as int;
    let q = (m + f - 1) / f;
    lemma_fundamental_div_mod(m + f - 1, f);
    lemma_mod_division_less_than_divisor(m + f - 1, f);
    let s = (m + f - 1) % f;
    assert(m + f - 1 == f * q + s);
    let r = f * q - m;
    assert(r == f - 1 - s);
    assert((-q) * f == -(f * q)) by {
        lemma_mul_unary_negation(q, f);
        assert(q * f == f * q) by (nonlinear_arith);
    }
    lemma_fundamental_div_mod_converse(-m, f, -q, r);
}

/// The Euclidean remainder of a negative number: `q % n` is `0` when `n`
/// divides `q`, and otherwise `n` minus the remainder of `-q`.
proof fn lemma_emod_of_neg(q: int, n: int)
    requires
        q < 0,
        n > 0,
    ensures
        (-q) % n == 0 ==> q % n == 0,
        (-q) % n != 0 ==> q % n == n - ((-q) % n),
{
    let a = -q;
    lemma_fundamental_div_mod(a, n);
    lemma_mod_division_less_than_divisor(a, n);
    let k = a / n;
    let s = a % n;
    assert(a == n * k + s);
    if s == 0 {
        assert(q == (-k) * n + 0) by {
            lemma_mul_unary_negation(k, n);
            assert(k * n == n * k) by (nonlinear_arith);
        }
        lemma_fundamental_div_mod_converse(q, n, -k, 0);
    } else {
        assert(q == (-k - 1) * n + (n - s)) by {
            assert((-k - 1) * n == -(n * k) - n) by (nonlinear_arith);
        }
        lemma_fundamental_div_mod_converse(q, n, -k - 1, n - s);
    }
}

/// The scaled-floor tile coordinate of [`spec_scaled_floor`], computed
/// exactly in 128-bit arithmetic.
fn scaled_floor(v_nm: i64, zoom: u8) -> (q: i128)
    requires
        zoom <= MAX_ZOOM,
    ensures
        q == spec_scaled_floor(v_nm as int, zoom as nat),
        -0x8000_0000_0000_0000_0000_0000 <= q <= 0x8000_0000_0000_0000_0000_0000,
{
    let n: u64 = tile_count(zoom);
    proof {
        lemma_scaled_num_bounds(v_nm as int, n as int);
    }
    let num: i128 = (v_nm as i128 + WORLD_EXTENT_NM as i128) * (n as i128);
    let q = floor_div_world(num);
    proof {
        lemma_div_is_ordered(
            -0x1000_0000_0000_0000_0000_0000_0000,
            num as int,
            FULL_WORLD_NM as int,
        );
        lemma_div_is_ordered(num as int, 0x1000_0000_0000_0000_0000_0000_0000, FULL_WORLD_NM as int);
        assert((-0x1000_0000_0000_0000_0000_0000_0000int) / (FULL_WORLD_NM as int)
            >= -0x8000_0000_0000_0000_0000_0000) by (nonlinear_arith);
        assert(0x1000_0000_0000_0000_0000_0000_0000int / (FULL_WORLD_NM as int)
            <= 0x8000_0000_0000_0000_0000_0000) by (nonlinear_arith);
    }
    q
}

/// As [`scaled_floor`], but rounding up, per [`spec_scaled_ceil`].
fn scaled_ceil(v_nm: i64, zoom: u8) -> (q: i128)
    requires
        zoom <= MAX_ZOOM,
    ensures
        q == spec_scaled_ceil(v_nm as int, zoom as nat),
        -0x8000_0000_0000_0000_0000_0000 <= q <= 0x8000_0000_0000_0000_0000_0000,
{
    let n: u64 = tile_count(zoom);
    proof {
        lemma_scaled_num_bounds(v_nm as int, n as int);
    }
    let num: i128 = (v_nm as i128 + WORLD_EXTENT_NM as i128) * (n as i128) + (FULL_WORLD_NM as i128
        - 1);
    let q = floor_div_world(num);
    proof {
        lemma_div_is_ordered(
            -0x1000_0000_0000_0000_0000_0000_0000,
            num as int,
            FULL_WORLD_NM as int,
        );
        lemma_div_is_ordered(num as int, 0x1000_0000_0000_0000_0000_0000_0000, FULL_WORLD_NM as int);
        assert((-0x1000_0000_0000_0000_0000_0000_0000int) / (FULL_WORLD_NM as int)
            >= -0x8000_0000_0000_0000_0000_0000) by (nonlinear_arith);
        assert(0x1000_0000_0000_0000_0000_0000_0000int / (FULL_WORLD_NM as int)
            <= 0x8000_0000_0000_0000_0000_0000) by (nonlinear_arith);
    }
    q
}

/// The scaled numerator stays far inside the 128-bit range for any `i64`
/// coordinate and any supported zoom.
proof fn lemma_scaled_num_bounds(v: int, n: int)
    requires
        -0x8000_0000_0000_0000 <= v <= 0x7FFF_FFFF_FFFF_FFFF,
        1 <= n <= 0x40000,
    ensures
        -0x800_0000_0000_0000_0000_0000_0000 <= (v + WORLD_EXTENT_NM as int) * n
            <= 0x800_0000_0000_0000_0000_0000_0000,
{
    assert(-0x800_0000_0000_0000_0000_0000_0000 <= (v + WORLD_EXTENT_NM as int) * n
        <= 0x800_0000_0000_0000_0000_0000_0000) by (nonlinear_arith)
        requires
            -0x8000_0000_0000_0000 <= v <= 0x7FFF_FFFF_FFFF_FFFF,
            1 <= n <= 0x40000,
    ;
}

/// Converts a Mercator position to the tile that contains it at the given
/// zoom: the x index wraps modulo `2^zoom`, the y index clamps to the grid.
pub fn mercator_to_tile(x_nm: i64, y_nm: i64, zoom: u8) -> (t: TileIndex)
    requires
        zoom <= MAX_ZOOM,
    ensures
        t.zoom == zoom,
        t.x as int == spec_tile_x(x_nm as int, zoom as nat),
        t.y as int == spec_tile_y(y_nm as int, zoom as nat),
        t.wf(),
{
    let n: u64 = tile_count(zoom);
    let qx: i128 = scaled_floor(x_nm, zoom);
    let tx: u32 = if qx >= 0 {
        proof {
            lemma_mod_division_less_than_divisor(qx as int, n as int);
        }
        ((qx as u128) % (n as u128)) as u32
    } else {
        proof {
            lemma_emod_of_neg(qx as int, n as int);
            lemma_mod_division_less_than_divisor(-(qx as int), n as int);
        }
        let r: u128 = (((-qx) as u128) % (n as u128));
        if r == 0 {
            0
        } else {
            (n - (r as u64)) as u32
        }
    };
    let qy: i128 = scaled_floor(y_nm, zoom);
    let ty: u32 = if qy < 0 {
        0
    } else if qy >= n as i128 {
        (n - 1) as u32
    } else {
        qy as u32
    };
    proof {
        lemma_mod_division_less_than_divisor(spec_scaled_floor(x_nm as int, zoom as nat),
            n as int);
    }
    TileIndex { zoom, x: tx, y: ty }
}

/// The exact Mercator bounding box of a tile, as a value: each edge is the
/// tile's grid line scaled back to nanometers, rounded down to a whole
/// nanometer.
pub open spec fn spec_tile_aabb(t: TileIndex) -> MercatorAabb2d {
    MercatorAabb2d {
        min_x: (spec_tile_min_edge(t.x as int, t.zoom as nat) - WORLD_EXTENT_NM) as i64,
        min_y: (spec_tile_min_edge(t.y as int, t.zoom as nat) - WORLD_EXTENT_NM) as i64,
        max_x: (spec_tile_max_edge(t.x as int, t.zoom as nat) - WORLD_EXTENT_NM) as i64,
        max_y: (spec_tile_max_edge(t.y as int, t.zoom as nat) - WORLD_EXTENT_NM) as i64,
    }
}

/// The west or south edge of tile `k`, as an offset from the world's
/// southwest corner: the grid line `k * world / 2^zoom`, rounded up to the
/// first whole nanometer that belongs to the tile.
pub open spec fn spec_tile_min_edge(k: int, zoom: nat) -> int {
    (k * (FULL_WORLD_NM as int) + tile_span(zoom) - 1) / tile_span(zoom)
}

/// The east or north edge of tile `k`, as an offset from the world's
/// southwest corner: the grid line `(k+1) * world / 2^zoom`, rounded down
/// to the last whole nanometer the tile still reaches.
pub open spec fn spec_tile_max_edge(k: int, zoom: nat) -> int {
    (k + 1) * (FULL_WORLD_NM as int) / tile_span(zoom)
}

/// The exact Mercator bounding box of a tile: the set of whole-nanometer
/// coordinates that map to this tile, so that [`mercator_to_tile`] of any
/// point inside it (and of its minimum corner) gives the tile back, and the
/// boxes of adjacent tiles neither overlap nor leave a gap.
pub fn tile_to_mercator_aabb(t: TileIndex) -> (r: MercatorAabb2d)
    requires
        t.wf(),
    ensures
        r == spec_tile_aabb(t),
        r.min_x as int == spec_tile_min_edge(t.x as int, t.zoom as nat) - WORLD_EXTENT_NM,
        r.max_x as int == spec_tile_max_edge(t.x as int, t.zoom as nat) - WORLD_EXTENT_NM,
        r.min_y as int == spec_tile_min_edge(t.y as int, t.zoom as nat) - WORLD_EXTENT_NM,
        r.max_y as int == spec_tile_max_edge(t.y as int, t.zoom as nat) - WORLD_EXTENT_NM,
        r.wf(),
        -WORLD_EXTENT_NM <= r.min_x < r.max_x <= WORLD_EXTENT_NM,
        -WORLD_EXTENT_NM <= r.min_y < r.max_y <= WORLD_EXTENT_NM,
{
    let n: u64 = tile_count(t.zoom);
    let min_x = tile_min_edge_to_mercator(t.x, n);
    let max_x = tile_max_edge_to_mercator(t.x, n);
    let min_y = tile_min_edge_to_mercator(t.y, n);
    let max_y = tile_max_edge_to_mercator(t.y, n);
    proof {
        lemma_tile_edges_ordered(t.x as int, n as int);
        lemma_tile_edges_ordered(t.y as int, n as int);
    }
    MercatorAabb2d { min_x, min_y, max_x, max_y }
}

/// The west or south edge of a tile, in Mercator nanometers.
fn tile_min_edge_to_mercator(k: u32, n: u64) -> (v: i64)
    requires
        1 <= n <= 0x80000,
        (k as int) < n as int,
    ensures
        v as int == ((k as int) * (FULL_WORLD_NM as int) + n - 1) / (n as int) - WORLD_EXTENT_NM,
{
    proof {
        lemma_mul_inequality(k as int, 0x80000, FULL_WORLD_NM as int);
        lemma_tile_edges_ordered(k as int, n as int);
    }
    let w: u128 = (k as u128) * (FULL_WORLD_NM as u128) + (n as u128 - 1);
    let q: u128 = w / (n as u128);
    (q as i64) - WORLD_EXTENT_NM
}

/// The east or north edge of a tile, in Mercator nanometers.
fn tile_max_edge_to_mercator(k: u32, n: u64) -> (v: i64)
    requires
        1 <= n <= 0x80000,
        (k as int) < n as int,
    ensures
        v as int == (k as int + 1) * (FULL_WORLD_NM as int) / (n as int) - WORLD_EXTENT_NM,
{
    proof {
        lemma_mul_inequality(k as int + 1, 0x80000, FULL_WORLD_NM as int);
        lemma_tile_edges_ordered(k as int, n as int);
    }
    let w: u128 = (k as u128 + 1) * (FULL_WORLD_NM as u128);
    let q: u128 = w / (n as u128);
    (q as i64) - WORLD_EXTENT_NM
}

/// The edges of tile `k` of `n` lie inside the world and in order: the
/// rounded-up west edge stays strictly below the rounded-down east edge,
/// and both stay within the world width.
proof fn lemma_tile_edges_ordered(k: int, n: int)
    requires
        1 <= n <= 0x80000,
        0 <= k < n,
    ensures
        0 <= (k * (FULL_WORLD_NM as int) + n - 1) / n,
        (k * (FULL_WORLD_NM as int) + n - 1) / n < (k + 1) * (FULL_WORLD_NM as int) / n,
        (k + 1) * (FULL_WORLD_NM as int) / n <= FULL_WORLD_NM,
{
    let f = FULL_WORLD_NM as int;
    lemma_mul_nonnegative(k, f);
    lemma_div_is_ordered(0, k * f + n - 1, n);
    lemma_mul_inequality(k + 1, n, f);
    lemma_div_by_multiple(f, n);
    assert(n * f == f * n) by (nonlinear_arith);
    lemma_div_is_ordered((k + 1) * f, n * f, n);
    // the west edge plus one full denominator still fits under the east edge
    assert((k + 1) * f == k * f + f) by (nonlinear_arith);
    lemma_div_plus_one(k * f + n - 1, n);
    lemma_div_is_ordered(k * f + n - 1 + n, k * f + f, n);
}

/// The tile box is the exact inverse of the tile lookup: every Mercator
/// point from the box's minimum corner up to (but excluding) its maximum
/// corner maps back to the tile itself, with no rounding ambiguity.
pub proof fn lemma_tile_aabb_inverse(t: TileIndex, px: int, py: int)
    requires
        t.wf(),
        spec_tile_aabb(t).min_x <= px < spec_tile_aabb(t).max_x,
        spec_tile_aabb(t).min_y <= py < spec_tile_aabb(t).max_y,
    ensures
        spec_tile_x(px, t.zoom as nat) == t.x as int,
        spec_tile_y(py, t.zoom as nat) == t.y as int,
{
    let zoom = t.zoom as nat;
    let n = tile_span(zoom);
    lemma_pow2_pos(zoom);
    lemma2_to64();
    if zoom < 18 {
        lemma_pow2_strictly_increases(zoom, 18);
    }
    lemma_tile_edges_ordered(t.x as int, n);
    lemma_tile_edges_ordered(t.y as int, n);
    lemma_tile_coord_inverse(t.x as int, px + WORLD_EXTENT_NM, n);
    lemma_tile_coord_inverse(t.y as int, py + WORLD_EXTENT_NM, n);
    // x: the coordinate is already inside the grid, so the wrap keeps it
    lemma_fundamental_div_mod_converse(t.x as int, n, 0, t.x as int);
}

/// On one axis: an offset from the world's southwest corner that lies
/// between tile `k`'s rounded-up west edge and strictly below its
/// rounded-down east edge scales back to exactly coordinate `k`.
proof fn lemma_tile_coord_inverse(k: int, v: int, n: int)
    requires
        1 <= n <= 0x40000,
        0 <= k < n,
        (k * (FULL_WORLD_NM as int) + n - 1) / n <= v,
        v < (k + 1) * (FULL_WORLD_NM as int) / n,
    ensures
        v * n / (FULL_WORLD_NM as int) == k,
{
    let f = FULL_WORLD_NM as int;
    let m = (k * f + n - 1) / n;
    let hi = (k + 1) * f / n;
    // the west edge, scaled back up, does not fall below the tile start
    lemma_fundamental_div_mod(k * f + n - 1, n);
    lemma_mod_division_less_than_divisor(k * f + n - 1, n);
    assert(n * m >= k * f);
    // the east edge, scaled back up, does not pass the next tile start
    lemma_fundamental_div_mod((k + 1) * f, n);
    lemma_mod_division_less_than_divisor((k + 1) * f, n);
    assert(n * hi <= (k + 1) * f);
    // squeeze v * n between the two tile starts
    lemma_mul_inequality(m, v, n);
    assert(m * n == n * m) by (nonlinear_arith);
    lemma_mul_inequality(v, hi - 1, n);
    assert((hi - 1) * n == n * hi - n) by (nonlinear_arith);
    assert(k * f <= v * n < (k + 1) * f);
    assert((k + 1) * f == k * f + f) by (nonlinear_arith);
    lemma_fundamental_div_mod_converse(v * n, f, k, v * n - k * f);
}

/// The first tile coordinate covered by a viewport edge: the scaled floor,
/// clamped into the grid.
pub open spec fn spec_bound_lo(v_nm: int, zoom: nat) -> int {
    spec_clamp(spec_scaled_floor(v_nm, zoom), 0, tile_span(zoom) - 1)
}

/// The last tile coordinate covered by a viewport edge: the scaled ceiling
/// minus one, clamped into the grid. A maximum that lands exactly on a tile
/// boundary does not pull in the next tile.
pub open spec fn spec_bound_hi(v_nm: int, zoom: nat) -> int {
    spec_clamp(spec_scaled_ceil(v_nm, zoom) - 1, 0, tile_span(zoom) - 1)
}

/// The covering bounds of a Mercator rectangle at a zoom, as a value: the
/// minimum corner rounds down, the maximum corner rounds up minus one, both
/// clamped into the grid.
pub open spec fn spec_visible_bounds(aabb: MercatorAabb2d, zoom: nat) -> TileBounds {
    TileBounds {
        zoom: zoom as u8,
        min_x: spec_bound_lo(aabb.min_x as int, zoom) as u32,
        min_y: spec_bound_lo(aabb.min_y as int, zoom) as u32,
        max_x: spec_bound_hi(aabb.max_x as int, zoom) as u32,
        max_y: spec_bound_hi(aabb.max_y as int, zoom) as u32,
    }
}

/// Both covering bounds of an edge lie inside the grid of their zoom
/// level, which itself fits comfortably in a tile coordinate.
pub proof fn lemma_bounds_in_grid(v: int, zoom: nat)
    requires
        zoom <= MAX_ZOOM,
    ensures
        0 <= spec_bound_lo(v, zoom) < tile_span(zoom),
        0 <= spec_bound_hi(v, zoom) < tile_span(zoom),
        tile_span(zoom) <= 0x40000,
{
    lemma_pow2_pos(zoom);
    lemma2_to64();
    if zoom < 18 {
        lemma_pow2_strictly_increases(zoom, 18);
    }
}

/// Clamps an unbounded tile coordinate into the `[0, n-1]` grid.
fn clamp_to_grid(q: i128, n: u64) -> (r: u32)
    requires
        1 <= n <= 0x40000,
    ensures
        r as int == spec_clamp(q as int, 0, n as int - 1),
{
    if q < 0 {
        0
    } else if q >= n as i128 {
        (n - 1) as u32
    } else {
        q as u32
    }
}

/// The inclusive range of tiles covering a Mercator rectangle at a zoom:
/// the minimum corner rounds down, the maximum corner rounds up minus one,
/// and both clamp into the grid, so full coverage never includes a tile the
/// rectangle only touches on its boundary line.
pub fn visible_tile_bounds(aabb: &MercatorAabb2d, zoom: u8) -> (r: TileBounds)
    requires
        zoom <= MAX_ZOOM,
        aabb.min_x < aabb.max_x,
        aabb.min_y < aabb.max_y,
    ensures
        r.zoom == zoom,
        r.min_x as int == spec_bound_lo(aabb.min_x as int, zoom as nat),
        r.min_y as int == spec_bound_lo(aabb.min_y as int, zoom as nat),
        r.max_x as int == spec_bound_hi(aabb.max_x as int, zoom as nat),
        r.max_y as int == spec_bound_hi(aabb.max_y as int, zoom as nat),
        r.wf(),
        r == spec_visible_bounds(*aabb, zoom as nat),
{
    let n = tile_count(zoom);
    let min_x = clamp_to_grid(scaled_floor(aabb.min_x, zoom), n);
    let min_y = clamp_to_grid(scaled_floor(aabb.min_y, zoom), n);
    let max_x = clamp_to_grid(scaled_ceil(aabb.max_x, zoom) - 1, n);
    let max_y = clamp_to_grid(scaled_ceil(aabb.max_y, zoom) - 1, n);
    proof {
        lemma_bound_pair_ordered(aabb.min_x as int, aabb.max_x as int, zoom as nat);
        lemma_bound_pair_ordered(aabb.min_y as int, aabb.max_y as int, zoom as nat);
    }
    TileBounds { zoom, min_x, min_y, max_x, max_y }
}

/// For a nonempty edge pair `lo < hi`, the covering range is nonempty: the
/// clamped floor of the minimum never exceeds the clamped ceiling-minus-one
/// of the maximum.
proof fn lemma_bound_pair_ordered(lo: int, hi: int, zoom: nat)
    requires
        lo < hi,
    ensures
        spec_bound_lo(lo, zoom) <= spec_bound_hi(hi, zoom),
{
    let f = FULL_WORLD_NM as int;
    let n = tile_span(zoom);
    lemma_pow2_pos(zoom);
    let a = (lo + WORLD_EXTENT_NM as int) * n;
    let b = (hi + WORLD_EXTENT_NM as int) * n;
    lemma_mul_inequality(lo + WORLD_EXTENT_NM as int, hi + WORLD_EXTENT_NM as int - 1, n);
    assert((hi + WORLD_EXTENT_NM as int - 1) * n == (hi + WORLD_EXTENT_NM as int) * n - n)
        by (nonlinear_arith);
    assert(a <= b - 1);
    lemma_div_plus_one(b - 1, f);
    assert(b + f - 1 == (b - 1) + f);
    lemma_div_is_ordered(a, b - 1, f);
    assert(spec_scaled_floor(lo, zoom) <= spec_scaled_ceil(hi, zoom) - 1);
}

/// Tile covering completeness: every Mercator point inside a viewport
/// rectangle (inclusive of the minimum edges, exclusive of the maximum
/// edges) maps to a tile index inside the bounds that
/// [`visible_tile_bounds`] returns for that rectangle. The rectangle's x
/// extent must lie within the world, where wrapping and clamping agree; the
/// y axis clamps and needs no such restriction.
pub proof fn lemma_covering_complete(aabb: MercatorAabb2d, px: int, py: int, zoom: nat)
    requires
        zoom <= MAX_ZOOM,
        -WORLD_EXTENT_NM <= aabb.min_x,
        aabb.max_x <= WORLD_EXTENT_NM,
        aabb.min_x <= px < aabb.max_x,
        aabb.min_y <= py < aabb.max_y,
    ensures
        spec_bound_lo(aabb.min_x as int, zoom) <= spec_tile_x(px, zoom)
            <= spec_bound_hi(aabb.max_x as int, zoom),
        spec_bound_lo(aabb.min_y as int, zoom) <= spec_tile_y(py, zoom)
            <= spec_bound_hi(aabb.max_y as int, zoom),
{
    let f = FULL_WORLD_NM as int;
    let e = WORLD_EXTENT_NM as int;
    let n = tile_span(zoom);
    lemma_pow2_pos(zoom);
    // x axis: inside the world, the wrap is the identity.
    let ax = (aabb.min_x as int + e) * n;
    let p = (px + e) * n;
    let bx = (aabb.max_x as int + e) * n;
    lemma_mul_nonnegative(aabb.min_x as int + e, n);
    lemma_mul_inequality(aabb.min_x as int + e, px + e, n);
    lemma_mul_inequality(px + e, aabb.max_x as int + e - 1, n);
    assert((aabb.max_x as int + e - 1) * n == (aabb.max_x as int + e) * n - n)
        by (nonlinear_arith);
    lemma_mul_inequality(aabb.max_x as int + e, f, n);
    assert(f * n == n * f) by (nonlinear_arith);
    assert(0 <= ax <= p <= bx - n && bx <= f * n);
    lemma_div_is_ordered(ax, p, f);
    lemma_div_is_ordered(p, bx - 1, f);
    lemma_div_is_ordered(0, ax, f);
    // p / f < n because p <= f*n - 1.
    assert(f * n - 1 == f * (n - 1) + (f - 1)) by (nonlinear_arith);
    lemma_fundamental_div_mod_converse(f * n - 1, f, n - 1, f - 1);
    lemma_div_is_ordered(p, f * n - 1, f);
    assert(0 <= p / f <= n - 1);
    // so the wrap keeps it unchanged
    lemma_fundamental_div_mod_converse(p / f, n, 0, p / f);
    assert(spec_tile_x(px, zoom) == p / f);
    // ceiling minus one of the maximum edge is (bx - 1) / f
    lemma_div_plus_one(bx - 1, f);
    assert(spec_scaled_ceil(aabb.max_x as int, zoom) - 1 == (bx - 1) / f);
    assert(spec_bound_lo(aabb.min_x as int, zoom) <= p / f);
    assert(p / f <= spec_bound_hi(aabb.max_x as int, zoom));
    // y axis: clamping is monotone, so ordering alone is enough.
    let ay = (aabb.min_y as int + e) * n;
    let q = (py + e) * n;
    let by = (aabb.max_y as int + e) * n;
    lemma_mul_inequality(aabb.min_y as int + e, py + e, n);
    lemma_mul_inequality(py + e, aabb.max_y as int + e - 1, n);
    assert((aabb.max_y as int + e - 1) * n == (aabb.max_y as int + e) * n - n)
        by (nonlinear_arith);
    lemma_div_is_ordered(ay, q, f);
    lemma_div_is_ordered(q, by - 1, f);
    lemma_div_plus_one(by - 1, f);
    assert(spec_scaled_ceil(aabb.max_y as int, zoom) - 1 == (by - 1) / f);
}

/// Antimeridian wrap: at any supported zoom, the tile columns of the
/// longitudes 179.999 degrees east and west are the last column and column
/// zero, which are adjacent modulo `2^zoom`.
pub proof fn lemma_antimeridian_adjacent(zoom: nat)
    requires
        1 <= zoom <= MAX_ZOOM,
    ensures
        spec_tile_x(crate::coords::spec_lon_to_mercator_x(179_999_000_000), zoom)
            == tile_span(zoom) - 1,
        spec_tile_x(crate::coords::spec_lon_to_mercator_x(-179_999_000_000), zoom) == 0,
        (spec_tile_x(crate::coords::spec_lon_to_mercator_x(179_999_000_000), zoom) + 1) % tile_span(
            zoom,
        ) == spec_tile_x(crate::coords::spec_lon_to_mercator_x(-179_999_000_000), zoom),
{
    let f = FULL_WORLD_NM as int;
    let e = WORLD_EXTENT_NM as int;
    let d = crate::DEGREES_180_ND as int;
    let n = tile_span(zoom);
    lemma_pow2_pos(zoom);
    lemma2_to64();
    if zoom < 18 {
        lemma_pow2_strictly_increases(zoom, 18);
    }
    assert(1 <= n <= 0x40000);
    // east: the projected easting is 110756... short of the east world edge
    let we = 40074905366087694;
    lemma_fundamental_div_mod_converse(359999000000 * e, d, we, 130756000000);
    assert(crate::coords::spec_lon_to_mercator_x(179_999_000_000) + e == we);
    // its scaled floor at this zoom is the last column
    let c = f - we;
    assert(c == 111319490794);
    lemma_mul_inequality(n, 0x40000, c);
    assert(0x40000 * c <= f);
    assert(n * c <= c * n && c * n == n * c) by (nonlinear_arith);
    assert(we * n == f * (n - 1) + (f - n * c)) by (nonlinear_arith)
        requires
            c == f - we,
    ;
    assert(f - n * c >= 0);
    // remainder bound: f - n*c < f because n*c > 0
    assert(n * c >= 1 * c) by (nonlinear_arith)
        requires
            n >= 1,
            c > 0,
    ;
    lemma_fundamental_div_mod_converse(we * n, f, n - 1, f - n * c);
    assert(spec_scaled_floor(we - e, zoom) == n - 1);
    lemma_fundamental_div_mod_converse(n - 1, n, 0, n - 1);
    assert(spec_tile_x(crate::coords::spec_lon_to_mercator_x(179_999_000_000), zoom) == n - 1);
    // west: the projected easting is just east of the west world edge
    let ww = 111319490793;
    lemma_fundamental_div_mod_converse(1000000 * e, d, ww, 49244000000);
    assert(crate::coords::spec_lon_to_mercator_x(-179_999_000_000) + e == ww);
    lemma_mul_inequality(n, 0x40000, ww);
    assert(ww * n == n * ww) by (nonlinear_arith);
    assert(0x40000 * ww < f);
    lemma_mul_nonnegative(ww, n);
    lemma_fundamental_div_mod_converse(ww * n, f, 0, ww * n);
    assert(spec_scaled_floor(ww - e, zoom) == 0);
    lemma_fundamental_div_mod_converse(0, n, 0, 0);
    assert(spec_tile_x(crate::coords::spec_lon_to_mercator_x(-179_999_000_000), zoom) == 0);
    // adjacency: the two columns differ by one, modulo the row width
    lemma_fundamental_div_mod_converse(n, n, 1, 0);
    assert((n - 1 + 1) % n == 0);
}

/// The zoom level and y coordinate actually used to address a tile at the
/// source: a configurable zoom offset is added (clamping at zero), and in
/// the default XYZ convention (origin top-left) the library's
/// north-positive y is flipped; a source using TMS (origin bottom-left)
/// keeps it.
pub open spec fn spec_fetch_zoom(zoom: u8, zoom_offset: i8) -> int {
    if zoom + zoom_offset < 0 {
        0int
    } else {
        zoom + zoom_offset
    }
}

/// Converts a display tile index into the coordinates used to address the
/// tile source, applying the zoom offset and the Y-axis convention.
pub fn fetch_coords(t: TileIndex, zoom_offset: i8, reverse_y: bool) -> (r: TileIndex)
    requires
        spec_fetch_zoom(t.zoom, zoom_offset) <= 31,
        !reverse_y ==> (t.y as int) < pow2(spec_fetch_zoom(t.zoom, zoom_offset) as nat),
    ensures
        r.zoom as int == spec_fetch_zoom(t.zoom, zoom_offset),
        r.x == t.x,
        reverse_y ==> r.y == t.y,
        !reverse_y ==> r.y as int == pow2(spec_fetch_zoom(t.zoom, zoom_offset) as nat) - 1 - t.y,
{
    let zi: i16 = t.zoom as i16 + zoom_offset as i16;
    let zf: u8 = if zi < 0 {
        0
    } else {
        zi as u8
    };
    let y = if reverse_y {
        t.y
    } else {
        proof {
            lemma2_to64();
            lemma_u32_shl_is_mul(1u32, zf as u32);
            if (zf as nat) < 31 {
                lemma_pow2_strictly_increases(zf as nat, 31);
            }
        }
        let n: u32 = 1u32 << zf;
        (n - 1) - t.y
    };
    TileIndex { zoom: zf, x: t.x, y }
}

/// Enumerates every tile index inside the bounds, row by row: each tile in
/// the covering rectangle appears exactly once.
pub fn tiles_in_bounds(b: &TileBounds) -> (r: Vec<TileIndex>)
    requires
        b.wf(),
    ensures
        forall|t: TileIndex| #[trigger] r@.contains(t) <==> spec_in_bounds(t, *b),
        forall|i: int, j: int| 0 <= i < j < r@.len() ==> r@[i] != r@[j],
        forall|i: int| 0 <= i < r@.len() ==> (#[trigger] r@[i]).wf(),
{
    proof {
        lemma2_to64();
        if (b.zoom as nat) < 18 {
            lemma_pow2_strictly_increases(b.zoom as nat, 18);
        }
    }
    let mut out: Vec<TileIndex> = Vec::new();
    let mut x = b.min_x;
    while x <= b.max_x
        invariant
            b.wf(),
            b.max_x < 0x40000,
            b.max_y < 0x40000,
            b.min_x <= x,
            x as int <= b.max_x as int + 1,
            forall|t: TileIndex| #[trigger] out@.contains(t) <==> (spec_in_bounds(t, *b) && (t.x
                as int) < (x as int)),
            forall|i: int, j: int| 0 <= i < j < out@.len() ==> out@[i] != out@[j],
        decreases b.max_x as int + 1 - x as int,
    {
        let mut y = b.min_y;
        while y <= b.max_y
            invariant
                b.wf(),
                b.max_x < 0x40000,
                b.max_y < 0x40000,
                b.min_x <= x <= b.max_x,
                b.min_y <= y,
                y as int <= b.max_y as int + 1,
                forall|t: TileIndex| #[trigger] out@.contains(t) <==> (spec_in_bounds(t, *b) && ((
                    t.x as int) < (x as int) || (t.x == x && (t.y as int) < (y as int)))),
                forall|i: int, j: int| 0 <= i < j < out@.len() ==> out@[i] != out@[j],
            decreases b.max_y as int + 1 - y as int,
        {
            let tile = TileIndex { zoom: b.zoom, x, y };
            let ghost pre = out@;
            proof {
                broadcast use vstd::seq_lib::group_seq_properties;

                assert(!pre.contains(tile));
            }
            out.push(tile);
            proof {
                broadcast use vstd::seq_lib::group_seq_properties;

                assert(out@ == pre.push(tile));
                assert forall|t: TileIndex|
                    #[trigger] out@.contains(t) <==> (spec_in_bounds(t, *b) && ((t.x as int) < (x
                    as int) || (t.x == x && (t.y as int) < (y as int) + 1))) by {
                    assert(out@.contains(t) <==> (pre.contains(t) || t == tile));
                    if t == tile {
                        assert(spec_in_bounds(t, *b));
                    } else if out@.contains(t) {
                        assert(pre.contains(t));
                    } else {
                        if spec_in_bounds(t, *b) && t.x == x && (t.y as int) == (y as int) {
                            assert(t == tile);
                        }
                    }
                }
                assert forall|i: int, j: int| 0 <= i < j < out@.len() implies out@[i] != out@[j]
                    by {
                    if j < out@.len() - 1 {
                        assert(pre[i] != pre[j]);
                    } else {
                        assert(pre.contains(pre[i]));
                    }
                }
            }
            y = y + 1;
        }
        x = x + 1;
    }
    proof {
        broadcast use vstd::seq_lib::group_seq_properties;

        assert forall|i: int| 0 <= i < out@.len() implies (#[trigger] out@[i]).wf() by {
            assert(out@.contains(out@[i]));
        }
    }
    out
}


} // verus!
