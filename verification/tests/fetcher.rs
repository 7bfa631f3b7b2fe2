//! The fetch bookkeeping: URL and cache-path formatting, status sorting,
//! waiter coalescing, decoding, and the per-tile state machine.
use geo_tiles::fetch::{
    cache_path, classify_status, format_url, replace_all, u64_to_decimal, TileFetchConfig,
    TileFetchError, TileFetcher, TileState,
};
use geo_tiles::imaging::decode_tile;
use geo_tiles::tiles::TileIndex;

#[test]
fn decimal_rendering() {
    assert_eq!(u64_to_decimal(0).as_str(), "0");
    assert_eq!(u64_to_decimal(7).as_str(), "7");
    assert_eq!(u64_to_decimal(10).as_str(), "10");
    assert_eq!(u64_to_decimal(550).as_str(), "550");
    assert_eq!(u64_to_decimal(u64::MAX).as_str(), "18446744073709551615");
}

#[test]
fn url_template_substitution() {
    let t = TileIndex::new(10, 550, 335);
    let url = format_url("https://tile.openstreetmap.org/{z}/{x}/{y}.png", t);
    assert_eq!(url.as_str(), "https://tile.openstreetmap.org/10/550/335.png");
    // placeholders may repeat and appear in any order
    let odd = format_url("{y}{y}-{x}-{z}", t);
    assert_eq!(odd.as_str(), "335335-550-10");
    // a template without placeholders is returned verbatim
    let plain = format_url("nothing-here", t);
    assert_eq!(plain.as_str(), "nothing-here");
}

#[test]
fn replace_all_scans_left_to_right() {
    assert_eq!(replace_all("ababab", "ab", "x").as_str(), "xxx");
    assert_eq!(replace_all("aaa", "aa", "b").as_str(), "ba");
    assert_eq!(replace_all("", "ab", "x").as_str(), "");
    assert_eq!(replace_all("hello", "ell", "ipp").as_str(), "hippo");
}

#[test]
fn cache_path_is_deterministic() {
    let t = TileIndex::new(10, 550, 335);
    let p = cache_path("/tmp/tiles", t, "png");
    assert_eq!(p.as_str(), "/tmp/tiles/10/550/335.png");
    // the same tile always maps to the same path
    let q = cache_path("/tmp/tiles", t, "png");
    assert_eq!(p.as_str(), q.as_str());
}

#[test]
fn status_classification() {
    assert!(classify_status(200).is_ok());
    assert!(classify_status(204).is_ok());
    assert!(classify_status(299).is_ok());
    for status in [199u16, 300, 304, 404, 500] {
        match classify_status(status) {
            Err(TileFetchError::HttpStatus(s)) => assert_eq!(s, status),
            other => panic!("status {status} sorted as {other:?}"),
        }
    }
}

#[test]
fn concurrent_requests_dispatch_one_fetch() {
    // Two requests for the same tile before the fetch completes: exactly
    // one dispatch, and the single result is delivered to both waiters.
    let tile = TileIndex::new(10, 550, 335);
    let mut fetcher = TileFetcher::new();
    let mut dispatches = 0;
    let mut cache_writes = 0;
    if fetcher.request_tile(1, tile) {
        dispatches += 1;
        cache_writes += 1; // the dispatched task writes the cache file once
    }
    if fetcher.request_tile(2, tile) {
        dispatches += 1;
        cache_writes += 1;
    }
    assert_eq!(dispatches, 1);
    assert_eq!(cache_writes, 1);
    assert!(fetcher.is_pending(tile));
    assert_eq!(fetcher.pending_count(), 1);

    // the one result arrives: both waiters are notified, the entry clears
    let delivered = fetcher.take_waiters(tile);
    assert_eq!(delivered, vec![1, 2]);
    assert!(!fetcher.is_pending(tile));

    // a later explicit re-request starts from scratch
    assert!(fetcher.request_tile(3, tile));
}

#[test]
fn same_waiter_is_registered_once() {
    let tile = TileIndex::new(3, 1, 2);
    let mut fetcher = TileFetcher::new();
    assert!(fetcher.request_tile(9, tile));
    assert!(!fetcher.request_tile(9, tile));
    assert_eq!(fetcher.take_waiters(tile), vec![9]);
}

#[test]
fn results_without_waiters_are_discarded() {
    let mut fetcher = TileFetcher::new();
    let tile = TileIndex::new(4, 0, 0);
    // e.g. the tile was evicted while its fetch was in flight
    assert!(fetcher.take_waiters(tile).is_empty());
}

#[test]
fn requests_for_different_tiles_are_independent() {
    let a = TileIndex::new(5, 1, 1);
    let b = TileIndex::new(5, 2, 2);
    let mut fetcher = TileFetcher::new();
    assert!(fetcher.request_tile(1, a));
    assert!(fetcher.request_tile(2, b));
    assert_eq!(fetcher.pending_count(), 2);
    assert_eq!(fetcher.take_waiters(a), vec![1]);
    assert!(fetcher.is_pending(b));
}

#[test]
fn decode_accepts_png_and_rejects_garbage() {
    // a 1x1 RGB PNG
    let png: Vec<u8> = vec![
        137, 80, 78, 71, 13, 10, 26, 10, 0, 0, 0, 13, 73, 72, 68, 82, 0, 0, 0, 1, 0, 0, 0, 1, 8,
        2, 0, 0, 0, 144, 119, 83, 222, 0, 0, 0, 12, 73, 68, 65, 84, 120, 156, 99, 248, 207, 192,
        0, 0, 3, 1, 1, 0, 201, 254, 146, 239, 0, 0, 0, 0, 73, 69, 78, 68, 174, 66, 96, 130,
    ];
    let image = decode_tile(&png).expect("valid png decodes");
    assert_eq!((image.width, image.height), (1, 1));
    assert_eq!(image.rgba.len(), 4);
    assert_eq!(&image.rgba[..3], &[255, 0, 0]);

    match decode_tile(&[0, 1, 2, 3]) {
        Err(TileFetchError::Decode(msg)) => assert!(!msg.is_empty()),
        other => panic!("garbage decoded as {other:?}"),
    }
}

#[test]
fn tile_state_transitions() {
    let fetching = TileState::Requested.begin_fetch();
    assert!(matches!(fetching, TileState::Fetching));
    // a state other than Requested is left alone
    assert!(matches!(TileState::Idle.begin_fetch(), TileState::Idle));

    let png: Vec<u8> = vec![
        137, 80, 78, 71, 13, 10, 26, 10, 0, 0, 0, 13, 73, 72, 68, 82, 0, 0, 0, 1, 0, 0, 0, 1, 8,
        2, 0, 0, 0, 144, 119, 83, 222, 0, 0, 0, 12, 73, 68, 65, 84, 120, 156, 99, 248, 207, 192,
        0, 0, 3, 1, 1, 0, 201, 254, 146, 239, 0, 0, 0, 0, 73, 69, 78, 68, 174, 66, 96, 130,
    ];
    let cached = fetching.apply_fetch_result(decode_tile(&png));
    assert!(matches!(cached, TileState::Cached(_)));

    let failed =
        TileState::Fetching.apply_fetch_result(Err(TileFetchError::HttpStatus(404)));
    assert!(matches!(failed, TileState::Failed(TileFetchError::HttpStatus(404))));
}

#[test]
fn error_messages_name_their_kind() {
    assert_eq!(
        TileFetchError::HttpStatus(404).message().as_str(),
        "HTTP request failed with status 404"
    );
    assert_eq!(
        TileFetchError::Network("timed out".to_string()).message().as_str(),
        "network error: timed out"
    );
    assert_eq!(
        TileFetchError::Io("denied".to_string()).message().as_str(),
        "io error: denied"
    );
    assert_eq!(
        TileFetchError::Decode("bad magic".to_string()).message().as_str(),
        "decode error: bad magic"
    );
}

#[test]
fn default_config_has_one_user_agent_header() {
    let config = TileFetchConfig::default();
    assert_eq!(config.headers.len(), 1);
    assert_eq!(config.headers[0].0.as_str(), "User-Agent");
    assert!(!config.reverse_y);
    assert_eq!(config.zoom_offset, 0);
    assert_eq!(config.cache_extension.as_str(), "png");
    assert!(config.url_template.contains("{z}"));
}
