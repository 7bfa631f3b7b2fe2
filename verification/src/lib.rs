//! Slippy-map core logic: Web Mercator coordinate handling in exact
//! fixed-point arithmetic, tile-index math, a recentring local origin,
//! visible-tile resolution, demand diffing with distance-weighted eviction,
//! and the de-duplicating tile fetch state machine.
use vstd::prelude::*;

pub mod coords;
pub mod local_origin;
pub mod demand;
pub mod fetch;
pub mod imaging;
pub mod tiles;

verus! {

/// Half the Web Mercator world extent, in nanometers.
///
/// The projected world spans `[-WORLD_EXTENT_NM, WORLD_EXTENT_NM]` on both
/// axes; the familiar value in meters is 20037508.342789244, which is exactly
/// representable in integer nanometers.
pub const WORLD_EXTENT_NM: i64 = 20_037_508_342_789_244;

/// The full Web Mercator world width, in nanometers: twice
/// [`WORLD_EXTENT_NM`].
pub const FULL_WORLD_NM: i64 = 40_075_016_685_578_488;

/// 180 degrees expressed in nano-degrees, the unit this library stores
/// longitudes in.
pub const DEGREES_180_ND: i64 = 180_000_000_000;

/// The lowest zoom level the library serves tiles for.
pub const MIN_ZOOM: u8 = 1;

/// The highest zoom level the library serves tiles for.
pub const MAX_ZOOM: u8 = 18;

/// Clamps a requested zoom level into the supported range.
pub fn clamp_zoom(zoom: u8) -> (r: u8)
    ensures
        MIN_ZOOM <= r <= MAX_ZOOM,
        zoom < MIN_ZOOM ==> r == MIN_ZOOM,
        zoom > MAX_ZOOM ==> r == MAX_ZOOM,
        MIN_ZOOM <= zoom <= MAX_ZOOM ==> r == zoom,
{
    if zoom < MIN_ZOOM {
        MIN_ZOOM
    } else if zoom > MAX_ZOOM {
        MAX_ZOOM
    } else {
        zoom
    }
}

/// How one zoom level's tile layer relates to the active zoom: the active
/// layer and its two neighbours stay visible (the neighbours behind it, as
/// stand-ins while the active layer streams in); every other layer is
/// hidden.
#[derive(Clone, Copy, Debug, PartialEq, Eq, Structural)]
pub enum ZoomLayer {
    /// The layer of the active zoom level.
    Current,
    /// One zoom level below the active one.
    Below,
    /// One zoom level above the active one.
    Above,
    /// Any other level.
    Hidden,
}

/// Sorts a tile layer's zoom level against the active zoom.
pub fn classify_zoom_level(level: u8, zoom: u8) -> (r: ZoomLayer)
    ensures
        r == ZoomLayer::Current <==> level == zoom,
        r == ZoomLayer::Below <==> level + 1 == zoom,
        r == ZoomLayer::Above <==> (level == zoom + 1 && level != zoom),
        r == ZoomLayer::Hidden <==> (level != zoom && level + 1 != zoom && level != zoom + 1),
{
    if level == zoom {
        ZoomLayer::Current
    } else if zoom > 0 && level == zoom - 1 {
        ZoomLayer::Below
    } else if zoom < 255 && level == zoom + 1 {
        ZoomLayer::Above
    } else {
        ZoomLayer::Hidden
    }
}

/// The tile demand of a camera: the covering tile range of its viewport, or
/// no demand at all when the camera has no well-defined, nonempty viewport
/// (for example before the render surface is sized). A degenerate viewport
/// is never an error: it simply demands nothing.
pub fn demand_for_viewport(
    viewport_local: Option<(coords::LocalCoords, coords::LocalCoords)>,
    origin: &local_origin::LocalOrigin,
    zoom: u8,
) -> (r: Option<tiles::TileBounds>)
    requires
        origin.wf(),
        zoom <= MAX_ZOOM,
    ensures
        match viewport_local {
            None => r is None,
            Some((lo, hi)) => {
                let e = origin.spec_origin();
                if lo.x < hi.x && lo.y < hi.y && crate::local_origin::in_local_range(lo)
                    && crate::local_origin::in_local_range(hi) {
                    r is Some && r->Some_0.wf() && r->Some_0 == tiles::spec_visible_bounds(
                        coords::MercatorAabb2d {
                            min_x: (lo.x + e.x) as i64,
                            min_y: (lo.y + e.y) as i64,
                            max_x: (hi.x + e.x) as i64,
                            max_y: (hi.y + e.y) as i64,
                        },
                        zoom as nat,
                    )
                } else {
                    r is None
                }
            },
        },
{
    match viewport_local {
        None => None,
        Some((lo, hi)) => {
            if lo.x < hi.x && lo.y < hi.y && local_origin::check_local_range(lo)
                && local_origin::check_local_range(hi) {
                let aabb = origin.aabb_to_mercator(lo.x, lo.y, hi.x, hi.y);
                Some(tiles::visible_tile_bounds(&aabb, zoom))
            } else {
                None
            }
        },
    }
}

/// Tile covering completeness for a camera viewport: every render-space
/// point inside the viewport rectangle (inclusive of the minimum edges,
/// exclusive of the maximum edges), translated back to Mercator through the
/// local origin and mapped to its tile, lands inside the bounds that
/// [`demand_for_viewport`] reports for that viewport. The viewport's x
/// extent must lie within the world, where the antimeridian wrap is the
/// identity; the y axis clamps and needs no restriction.
pub proof fn lemma_demand_covering_complete(
    origin: local_origin::LocalOrigin,
    lo: coords::LocalCoords,
    hi: coords::LocalCoords,
    p: coords::LocalCoords,
    zoom: nat,
)
    requires
        origin.wf(),
        zoom <= MAX_ZOOM,
        local_origin::in_local_range(lo),
        local_origin::in_local_range(hi),
        lo.x <= p.x < hi.x,
        lo.y <= p.y < hi.y,
        -WORLD_EXTENT_NM <= lo.x + origin.spec_origin().x,
        hi.x + origin.spec_origin().x <= WORLD_EXTENT_NM,
    ensures
        ({
            let e = origin.spec_origin();
            let b = tiles::spec_visible_bounds(
                coords::MercatorAabb2d {
                    min_x: (lo.x + e.x) as i64,
                    min_y: (lo.y + e.y) as i64,
                    max_x: (hi.x + e.x) as i64,
                    max_y: (hi.y + e.y) as i64,
                },
                zoom,
            );
            &&& b.min_x <= tiles::spec_tile_x(p.x + e.x, zoom) <= b.max_x
            &&& b.min_y <= tiles::spec_tile_y(p.y + e.y, zoom) <= b.max_y
        }),
{
    origin.lemma_wf_bounds();
    let e = origin.spec_origin();
    let aabb = coords::MercatorAabb2d {
        min_x: (lo.x + e.x) as i64,
        min_y: (lo.y + e.y) as i64,
        max_x: (hi.x + e.x) as i64,
        max_y: (hi.y + e.y) as i64,
    };
    tiles::lemma_covering_complete(aabb, p.x + e.x, p.y + e.y, zoom);
    tiles::lemma_bounds_in_grid(aabb.min_x as int, zoom);
    tiles::lemma_bounds_in_grid(aabb.max_x as int, zoom);
    tiles::lemma_bounds_in_grid(aabb.min_y as int, zoom);
    tiles::lemma_bounds_in_grid(aabb.max_y as int, zoom);
}

/// Where a tile stands in render space: the local position of its center
/// (rounded toward the southwest corner, at layering height zero) and its
/// width and height, ready for a transform whose scale stretches a unit
/// square over the tile.
pub fn tile_local_placement(t: tiles::TileIndex, origin: &local_origin::LocalOrigin) -> (r: (
    coords::LocalCoords,
    (i64, i64),
))
    requires
        t.wf(),
        origin.wf(),
    ensures
        ({
            let b = crate::tiles::spec_tile_aabb(t);
            &&& r.0.x == b.min_x + (b.max_x - b.min_x) / 2 - origin.spec_origin().x
            &&& r.0.y == b.min_y + (b.max_y - b.min_y) / 2 - origin.spec_origin().y
            &&& r.0.z == 0
            &&& r.1.0 == b.max_x - b.min_x
            &&& r.1.1 == b.max_y - b.min_y
        }),
{
    let aabb = tiles::tile_to_mercator_aabb(t);
    let center = aabb.center();
    let size = aabb.size();
    let local = origin.to_local(coords::MercatorCoords { x: center.0, y: center.1, z: 0 });
    (local, size)
}

} // verus!
