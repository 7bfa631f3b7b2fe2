//! Tile-index math: covering ranges, the antimeridian, the Berlin
//! end-to-end scenario and the fetch-coordinate conventions.
use geo_tiles::coords::{lon_to_mercator_x, MercatorAabb2d, MercatorCoords};
use geo_tiles::local_origin::LocalOrigin;
use geo_tiles::tiles::{
    fetch_coords, mercator_to_tile, tile_to_mercator_aabb, tiles_in_bounds, visible_tile_bounds,
    TileIndex,
};
use geo_tiles::{clamp_zoom, classify_zoom_level, demand_for_viewport, ZoomLayer, WORLD_EXTENT_NM};
use miniproj::Projection;

/// Web Mercator nanometers of a lon/lat pair, through the real projection.
fn mercator_nm(lon: f64, lat: f64) -> (i64, i64) {
    let proj = miniproj::get_projection(3857).expect("EPSG:3857 is registered");
    let (x, y) = proj.deg_to_projected(lon, lat);
    ((x * 1e9).round() as i64, (y * 1e9).round() as i64)
}

#[test]
fn berlin_viewport_covers_expected_tile() {
    // Viewport centered at (13.4064 E, 52.51977 N), zoom 10: the covering
    // set contains tile (550, 335) in the XYZ convention.
    let (cx, cy) = mercator_nm(13.4064, 52.51977);
    let center = mercator_to_tile(cx, cy, 10);
    assert_eq!(center.x, 550);
    // the library's y axis points north; XYZ flips it
    let xyz = fetch_coords(center, 0, false);
    assert_eq!(xyz.zoom, 10);
    assert_eq!(xyz.x, 550);
    assert_eq!(xyz.y, 335);

    // a 4 km x 4 km viewport around the center covers that tile
    let origin = LocalOrigin::new(MercatorCoords::new(cx, cy, 0));
    let viewport = Some((
        geo_tiles::coords::LocalCoords {
            x: -2_000_000_000_000,
            y: -2_000_000_000_000,
            z: 0,
        },
        geo_tiles::coords::LocalCoords {
            x: 2_000_000_000_000,
            y: 2_000_000_000_000,
            z: 0,
        },
    ));
    let bounds = demand_for_viewport(viewport, &origin, 10).expect("nonempty viewport");
    assert!(bounds.min_x <= center.x && center.x <= bounds.max_x);
    assert!(bounds.min_y <= center.y && center.y <= bounds.max_y);
    let covering = tiles_in_bounds(&bounds);
    assert!(covering.contains(&center));
}

#[test]
fn no_viewport_means_no_demand() {
    let origin = LocalOrigin::new(MercatorCoords::new(0, 0, 0));
    assert!(demand_for_viewport(None, &origin, 10).is_none());
    // a degenerate (zero-area) viewport demands nothing rather than failing
    let p = geo_tiles::coords::LocalCoords { x: 5, y: 5, z: 0 };
    assert!(demand_for_viewport(Some((p, p)), &origin, 10).is_none());
}

#[test]
fn antimeridian_tiles_are_adjacent() {
    // At every zoom, 179.999 E lands in the last column and 179.999 W in
    // column zero: adjacent modulo 2^zoom.
    let east = lon_to_mercator_x(179_999_000_000);
    let west = lon_to_mercator_x(-179_999_000_000);
    for zoom in 1..=18u8 {
        let n = 1u32 << zoom;
        let te = mercator_to_tile(east, 0, zoom);
        let tw = mercator_to_tile(west, 0, zoom);
        assert_eq!(te.x, n - 1, "east at zoom {zoom}");
        assert_eq!(tw.x, 0, "west at zoom {zoom}");
        assert_eq!((te.x + 1) % n, tw.x);
    }
}

#[test]
fn tile_index_wraps_and_clamps() {
    // x wraps modulo 2^zoom; y clamps to the grid without wrapping.
    let t = mercator_to_tile(0, 0, 1);
    assert_eq!((t.x, t.y), (1, 1));
    // the exact east edge wraps to column 0
    let edge = mercator_to_tile(WORLD_EXTENT_NM, WORLD_EXTENT_NM, 3);
    assert_eq!(edge.x, 0);
    assert_eq!(edge.y, 7);
    // beyond the poles the row clamps
    let north = mercator_to_tile(0, i64::MAX, 4);
    assert_eq!(north.y, 15);
    let south = mercator_to_tile(0, i64::MIN, 4);
    assert_eq!(south.y, 0);
}

#[test]
fn tile_aabb_is_exact_and_round_trips() {
    let t = TileIndex::new(10, 550, 688);
    let aabb = tile_to_mercator_aabb(t);
    assert_eq!(aabb.min_x, 1487158822316390);
    assert_eq!(aabb.min_y, 6887893492833803);
    assert_eq!(aabb.max_x, 1526294580798399);
    assert_eq!(aabb.max_y, 6927029251315812);
    // every interior point maps back to the tile
    let mid = mercator_to_tile(
        (aabb.min_x + aabb.max_x) / 2,
        (aabb.min_y + aabb.max_y) / 2,
        10,
    );
    assert_eq!(mid, t);
    let corner = mercator_to_tile(aabb.min_x, aabb.min_y, 10);
    assert_eq!(corner, t);
}

#[test]
fn boundary_on_tile_edge_excludes_next_tile() {
    // A viewport whose maximum lands exactly on a tile boundary must not
    // pull in the next tile: ceil minus one keeps the range tight.
    let t = TileIndex::new(5, 3, 7);
    let aabb = tile_to_mercator_aabb(t);
    let bounds = visible_tile_bounds(&aabb, 5);
    assert_eq!((bounds.min_x, bounds.max_x), (3, 3));
    assert_eq!((bounds.min_y, bounds.max_y), (7, 7));
}

#[test]
fn covering_is_complete_over_sampled_points() {
    // every sampled point of the rectangle maps to a tile inside the
    // covering bounds
    let aabb = MercatorAabb2d::new(
        -3_333_333_333_333,
        -7_777_777_777,
        9_876_543_210_123,
        5_555_555_555_555,
    );
    for zoom in [1u8, 5, 10, 18] {
        let bounds = visible_tile_bounds(&aabb, zoom);
        for i in 0..=20i64 {
            for j in 0..=20i64 {
                let px = aabb.min_x + (aabb.max_x - aabb.min_x) / 20 * i;
                let py = aabb.min_y + (aabb.max_y - aabb.min_y) / 20 * j;
                let t = mercator_to_tile(px, py, zoom);
                assert!(bounds.min_x <= t.x && t.x <= bounds.max_x, "x at zoom {zoom}");
                assert!(bounds.min_y <= t.y && t.y <= bounds.max_y, "y at zoom {zoom}");
            }
        }
    }
}

#[test]
fn covering_enumeration_matches_tile_iterator() {
    let aabb = MercatorAabb2d::new(-1_000_000_000_000, -1_000_000_000_000, 5_000_000_000_000, 1);
    let bounds = visible_tile_bounds(&aabb, 7);
    let ours = tiles_in_bounds(&bounds);
    let (x0, x1) = bounds.x_range();
    let (y0, y1) = bounds.y_range();
    let reference: Vec<tilemath::Tile> =
        tilemath::TileIterator::new(7, x0..=x1, y0..=y1).collect();
    assert_eq!(ours.len(), reference.len());
    for t in &reference {
        assert!(ours
            .iter()
            .any(|o| o.zoom == t.zoom && o.x == t.x && o.y == t.y));
    }
}

#[test]
fn fetch_coords_conventions() {
    let t = TileIndex::new(10, 550, 688);
    // XYZ (default): y flips within the zoom's grid
    let xyz = fetch_coords(t, 0, false);
    assert_eq!((xyz.zoom, xyz.x, xyz.y), (10, 550, 335));
    // TMS: y is kept
    let tms = fetch_coords(t, 0, true);
    assert_eq!((tms.zoom, tms.x, tms.y), (10, 550, 688));
    // a negative zoom offset clamps at zero
    let small = TileIndex::new(2, 1, 1);
    let offset = fetch_coords(small, -3, true);
    assert_eq!(offset.zoom, 0);
    // a positive offset raises the fetch zoom
    let up = fetch_coords(small, 1, true);
    assert_eq!(up.zoom, 3);
}

#[test]
fn zoom_clamping_and_layering() {
    assert_eq!(clamp_zoom(0), 1);
    assert_eq!(clamp_zoom(9), 9);
    assert_eq!(clamp_zoom(200), 18);
    assert_eq!(classify_zoom_level(10, 10), ZoomLayer::Current);
    assert_eq!(classify_zoom_level(9, 10), ZoomLayer::Below);
    assert_eq!(classify_zoom_level(11, 10), ZoomLayer::Above);
    assert_eq!(classify_zoom_level(3, 10), ZoomLayer::Hidden);
}
