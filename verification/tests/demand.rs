//! Demand diffing and the eviction pass.
use geo_tiles::demand::{
    tile_distance, tiles_to_request, MaterializedSet, MaterializedTile, KEEP_UNUSED_TILES,
    ZOOM_DISTANCE_FACTOR,
};
use geo_tiles::tiles::{tile_to_mercator_aabb, visible_tile_bounds, TileIndex};

fn materialized(zoom: u8, x: u32, y: u32, visible: bool) -> MaterializedTile {
    let index = TileIndex::new(zoom, x, y);
    MaterializedTile {
        index,
        bounds: tile_to_mercator_aabb(index),
        last_visible: visible,
    }
}

#[test]
fn request_diff_excludes_materialized() {
    let aabb = tile_to_mercator_aabb(TileIndex::new(3, 2, 2));
    // widen to a 2 x 2 tile area
    let wide = geo_tiles::coords::MercatorAabb2d::new(
        aabb.min_x,
        aabb.min_y,
        aabb.max_x + (aabb.max_x - aabb.min_x),
        aabb.max_y + (aabb.max_y - aabb.min_y),
    );
    let bounds = visible_tile_bounds(&wide, 3);
    assert_eq!((bounds.min_x, bounds.max_x), (2, 3));
    assert_eq!((bounds.min_y, bounds.max_y), (2, 3));

    let mut existing = MaterializedSet::new();
    assert!(existing.add_tile(materialized(3, 2, 2, true)));
    assert!(existing.add_tile(materialized(3, 3, 3, false)));
    // adding the same index again is refused and changes nothing
    assert!(!existing.add_tile(materialized(3, 2, 2, false)));
    assert_eq!(existing.len(), 2);

    let to_request = tiles_to_request(&bounds, &existing);
    assert_eq!(to_request.len(), 2);
    assert!(to_request.contains(&TileIndex::new(3, 2, 3)));
    assert!(to_request.contains(&TileIndex::new(3, 3, 2)));
    assert!(!to_request.contains(&TileIndex::new(3, 2, 2)));
}

#[test]
fn set_membership_and_removal() {
    let mut set = MaterializedSet::new();
    let a = TileIndex::new(5, 1, 1);
    assert!(set.add_tile(materialized(5, 1, 1, true)));
    assert!(set.contains(a));
    assert_eq!(set.get(a).unwrap().index, a);
    assert!(set.set_last_visible(a, false));
    assert!(!set.get(a).unwrap().last_visible);
    assert!(set.remove_tile(a));
    assert!(!set.contains(a));
    assert!(!set.remove_tile(a));
    assert_eq!(set.len(), 0);
}

#[test]
fn distance_metric_weighs_zoom() {
    let center = (100u32, 100u32, 10u8);
    let same_zoom_far = TileIndex::new(10, 104, 100);
    let next_zoom_same_spot = TileIndex::new(11, 100, 100);
    let d_far = tile_distance(same_zoom_far, center.0, center.1, center.2);
    let d_zoom = tile_distance(next_zoom_same_spot, center.0, center.1, center.2);
    assert_eq!(d_far, 4);
    assert_eq!(d_zoom, ZOOM_DISTANCE_FACTOR as u64);
    assert!(d_zoom > d_far);
}

#[test]
fn eviction_removes_exactly_the_excess_farthest() {
    // M = 5 non-visible tiles, cap = 2: exactly 3 are selected and they are
    // the 3 farthest from the center tile.
    let mut set = MaterializedSet::new();
    set.add_tile(materialized(10, 100, 100, false)); // d = 0
    set.add_tile(materialized(10, 101, 100, false)); // d = 1
    set.add_tile(materialized(10, 105, 100, false)); // d = 5
    set.add_tile(materialized(10, 100, 107, false)); // d = 7
    set.add_tile(materialized(12, 100, 100, false)); // d = 20
    // visible tiles are never candidates, however far away
    set.add_tile(materialized(10, 500, 500, true));

    let evicted = set.select_evictions(100, 100, 10, 2);
    assert_eq!(evicted.len(), 3);
    assert!(evicted.contains(&TileIndex::new(10, 105, 100)));
    assert!(evicted.contains(&TileIndex::new(10, 100, 107)));
    assert!(evicted.contains(&TileIndex::new(12, 100, 100)));
    assert!(!evicted.contains(&TileIndex::new(10, 500, 500)));

    // applying the evictions synchronously clears the entries
    for t in &evicted {
        assert!(set.remove_tile(*t));
    }
    assert_eq!(set.len(), 3);
    assert!(set.contains(TileIndex::new(10, 100, 100)));
    assert!(set.contains(TileIndex::new(10, 101, 100)));
}

#[test]
fn eviction_under_cap_selects_nothing() {
    let mut set = MaterializedSet::new();
    set.add_tile(materialized(10, 1, 1, false));
    set.add_tile(materialized(10, 2, 2, false));
    assert!(set.select_evictions(0, 0, 10, 2).is_empty());
    assert!(set.select_evictions(0, 0, 10, KEEP_UNUSED_TILES).is_empty());
}

#[test]
fn eviction_ties_still_remove_exact_count() {
    // four tiles at the same distance, cap 1: exactly 3 go, whichever ones
    let mut set = MaterializedSet::new();
    set.add_tile(materialized(10, 101, 100, false));
    set.add_tile(materialized(10, 99, 100, false));
    set.add_tile(materialized(10, 100, 101, false));
    set.add_tile(materialized(10, 100, 99, false));
    let evicted = set.select_evictions(100, 100, 10, 1);
    assert_eq!(evicted.len(), 3);
    // no duplicates
    for i in 0..evicted.len() {
        for j in (i + 1)..evicted.len() {
            assert_ne!(evicted[i], evicted[j]);
        }
    }
}
