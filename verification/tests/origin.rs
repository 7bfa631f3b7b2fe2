//! The recentring local origin: conversions, the recentring trigger, and
//! rebasing point lists.
use geo_tiles::coords::{LocalCoords, MercatorCoords};
use geo_tiles::local_origin::{points_to_relative, LocalOrigin, DEFAULT_RECENTER_DISTANCE_NM};
use geo_tiles::tile_local_placement;
use geo_tiles::tiles::TileIndex;

#[test]
fn local_conversion_round_trips() {
    let origin = LocalOrigin::new(MercatorCoords::new(1_492_393_621_370_943, 6_894_657_723_928_650, 1));
    let p = MercatorCoords::new(1_492_400_000_000_000, 6_894_000_000_000_000, 5);
    let l = origin.to_local(p);
    assert_eq!(l.x, 6_378_629_057);
    assert_eq!(l.y, -657_723_928_650);
    // the z component is a layering height, never translated
    assert_eq!(l.z, 5);
    let back = origin.to_mercator(l);
    assert_eq!(back, p);
}

#[test]
fn recenter_fires_only_beyond_threshold() {
    // Default threshold is 2500 m; a camera 2 km out does not trigger a
    // shift, a camera 3 km out does, and the shift zeroes the camera.
    let start = MercatorCoords::new(1_000_000_000_000, 2_000_000_000_000, 0);
    let mut origin = LocalOrigin::new(start);
    assert_eq!(origin.recenter_distance(), DEFAULT_RECENTER_DISTANCE_NM);

    let near = LocalCoords { x: 2_000_000_000_000, y: 0, z: 0 };
    assert!(origin.maybe_recenter(near).is_none());
    assert_eq!(origin.mercator_origin(), start);

    let far = LocalCoords { x: 3_000_000_000_000, y: 100, z: 7 };
    let delta = origin.maybe_recenter(far).expect("beyond the threshold");
    // the delta is the camera's old local position, horizontally
    assert_eq!(delta, LocalCoords { x: 3_000_000_000_000, y: 100, z: 0 });
    // the origin moved onto the camera; the camera's new local position,
    // the old one minus the delta, is the origin itself
    let shifted = origin.mercator_origin();
    assert_eq!(shifted.x, start.x + 3_000_000_000_000);
    assert_eq!(shifted.y, start.y + 100);
    assert_eq!(shifted.z, start.z);
    let new_cam = LocalCoords { x: far.x - delta.x, y: far.y - delta.y, z: far.z };
    assert_eq!((new_cam.x, new_cam.y), (0, 0));
    // and the shift cannot fire again for that camera
    assert!(origin.maybe_recenter(new_cam).is_none());
}

#[test]
fn exact_threshold_does_not_fire() {
    let mut origin = LocalOrigin::with_distance(MercatorCoords::new(0, 0, 0), 5);
    assert!(origin.maybe_recenter(LocalCoords { x: 3, y: 4, z: 0 }).is_none());
    assert!(origin.maybe_recenter(LocalCoords { x: 3, y: 5, z: 0 }).is_some());
}

#[test]
fn origin_setters() {
    let mut origin = LocalOrigin::new(MercatorCoords::new(10, 20, 30));
    origin.shift_mercator_origin(MercatorCoords::new(1, 2, 3));
    assert_eq!(origin.mercator_origin(), MercatorCoords::new(11, 22, 33));
    origin.set_mercator_origin(MercatorCoords::new(-5, 0, 0));
    assert_eq!(origin.mercator_origin(), MercatorCoords::new(-5, 0, 0));
}

#[test]
fn points_rebase_on_first_point() {
    let points = vec![
        MercatorCoords::new(100, 200, 9),
        MercatorCoords::new(101, 199, 0),
        MercatorCoords::new(90, 210, 5),
    ];
    let (rel, anchor) = points_to_relative(&points);
    assert_eq!(anchor, points[0]);
    assert_eq!(rel.len(), 3);
    // horizontal components are rebased; layering heights stay as given
    assert_eq!(rel[0], LocalCoords { x: 0, y: 0, z: 9 });
    assert_eq!(rel[1], LocalCoords { x: 1, y: -1, z: 0 });
    assert_eq!(rel[2], LocalCoords { x: -10, y: 10, z: 5 });

    let (rel_empty, anchor_empty) = points_to_relative(&Vec::new());
    assert!(rel_empty.is_empty());
    assert_eq!(anchor_empty, MercatorCoords::new(0, 0, 0));
}

#[test]
fn tile_placement_matches_tile_box() {
    let t = TileIndex::new(10, 550, 688);
    let origin = LocalOrigin::new(MercatorCoords::new(1_492_393_621_370_943, 6_894_657_723_928_650, 1));
    let (center, size) = tile_local_placement(t, &origin);
    // tile box: [1487158822316390, 1526294580798399] x
    //           [6887893492833803, 6927029251315812]
    assert_eq!(size.0, 1526294580798399 - 1487158822316390);
    assert_eq!(size.1, 6927029251315812 - 6887893492833803);
    assert_eq!(center.x, 1487158822316390 + size.0 / 2 - 1_492_393_621_370_943);
    assert_eq!(center.y, 6887893492833803 + size.1 / 2 - 6_894_657_723_928_650);
    assert_eq!(center.z, 0);
}
