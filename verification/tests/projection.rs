//! Projection round trips: the library's exact longitude conversions, and
//! the full Web Mercator projection through miniproj as the tile servers
//! define it.
use geo_tiles::coords::{lon_to_mercator_x, mercator_x_to_lon};
use geo_tiles::{DEGREES_180_ND, WORLD_EXTENT_NM};
use miniproj::Projection;

fn web_mercator() -> &'static dyn Projection {
    miniproj::get_projection(3857).expect("EPSG:3857 is registered")
}

#[test]
fn lonlat_round_trip_within_1e9_degrees() {
    // mercator_to_lonlat(lonlat_to_mercator(p)) stays within 1e-9 degrees
    // for points with |lat| < 85 degrees.
    let proj = web_mercator();
    let points = [
        (13.4064, 52.51977),
        (0.0, 0.0),
        (-179.999, -84.9),
        (179.999, 84.9),
        (-77.0365, 38.8977),
        (151.2093, -33.8688),
    ];
    for (lon, lat) in points {
        let (x, y) = proj.deg_to_projected(lon, lat);
        let (lon2, lat2) = proj.projected_to_deg(x, y);
        assert!((lon2 - lon).abs() < 1e-9, "lon {lon} -> {lon2}");
        assert!((lat2 - lat).abs() < 1e-9, "lat {lat} -> {lat2}");
    }
}

#[test]
fn library_easting_matches_projection() {
    // The library's exact integer easting agrees with the float projection
    // to within a few nanometers.
    let proj = web_mercator();
    for lon in [-179.999f64, -13.25, 0.0, 13.4064, 179.999] {
        let (x_m, _) = proj.deg_to_projected(lon, 0.0);
        let lon_nd = (lon * 1e9).round() as i64;
        let x_nm = lon_to_mercator_x(lon_nd);
        assert!(
            ((x_m * 1e9) - x_nm as f64).abs() < 10.0,
            "easting of {lon}: {x_m} m vs {x_nm} nm"
        );
    }
}

#[test]
fn integer_lon_round_trip_within_one_nanodegree() {
    for lon_nd in [
        -DEGREES_180_ND,
        -179_999_000_000,
        -1,
        0,
        1,
        13_406_400_000,
        179_999_000_000,
        DEGREES_180_ND,
    ] {
        let x = lon_to_mercator_x(lon_nd);
        let back = mercator_x_to_lon(x);
        assert!(
            back == lon_nd || back == lon_nd - 1,
            "lon {lon_nd} -> x {x} -> {back}"
        );
    }
}

#[test]
fn easting_covers_world_extent() {
    assert_eq!(lon_to_mercator_x(DEGREES_180_ND), WORLD_EXTENT_NM);
    assert_eq!(lon_to_mercator_x(-DEGREES_180_ND), -WORLD_EXTENT_NM);
    assert_eq!(lon_to_mercator_x(0), 0);
}
