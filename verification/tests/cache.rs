use lodtree::cache::{
    cache_path, contains_sub, degrees_string, elevation_url, engine_cache_path,
    on_download_result, plan_fetch, raster_url, vector_response_suspect, vector_url,
    write_leaves_file, CacheIndex, DataKind, FetchDecision, StoreAction, WriteOutcome,
};
use lodtree::location::Location;
use lodtree::text::decimal_string;
use lodtree::tile::{key_code, TileId};

#[test]
fn decimal_strings() {
    assert_eq!(decimal_string(0), "0");
    assert_eq!(decimal_string(7), "7");
    assert_eq!(decimal_string(12_345), "12345");
    assert_eq!(decimal_string(u64::MAX), "18446744073709551615");
}

#[test]
fn cache_paths_follow_the_layout() {
    let t = TileId { x: 140_178, y: 97_411, zoom: 18 };
    assert_eq!(cache_path(t, DataKind::Vector), "assets/cache/osm/18/140178/97411.osm");
    assert_eq!(
        cache_path(t, DataKind::Raster),
        "assets/cache/osm-raster/18/140178/97411.png"
    );
    assert_eq!(
        cache_path(t, DataKind::Elevation),
        "assets/cache/elevation/18/140178/97411.webp"
    );
    assert_eq!(
        engine_cache_path(t, DataKind::Raster),
        "cache/osm-raster/18/140178/97411.png"
    );
}

#[test]
fn remote_addresses() {
    let t = TileId { x: 140_178, y: 97_411, zoom: 18 };
    assert_eq!(elevation_url(t), "https://tiles.mapterhorn.com/18/140178/97411.webp");
    assert_eq!(raster_url(t), "https://tile.openstreetmap.org/18/140178/97411.png");
    let area = Location::MonacoCenter.get_area();
    assert_eq!(
        vector_url(area),
        "https://overpass-api.de/api/map?bbox=7.408480,43.722640,7.433200,43.738640"
    );
}

#[test]
fn degrees_rendering() {
    assert_eq!(degrees_string(43_722_640), "43.722640");
    assert_eq!(degrees_string(-1_234_567), "-1.234567");
    assert_eq!(degrees_string(0), "0.000000");
    assert_eq!(degrees_string(180_000_000), "180.000000");
}

#[test]
fn present_files_are_never_refetched() {
    assert_eq!(plan_fetch(true), FetchDecision::UseCached);
    assert_eq!(plan_fetch(false), FetchDecision::Download);
}

#[test]
fn cache_fetch_is_idempotent() {
    // Two fetches of the same key with nothing deleted in between
    // make at most one request: the second is a pure read.
    let mut index = CacheIndex::new();
    let code = key_code(TileId { x: 140_178, y: 97_411, zoom: 18 });
    let mut downloads: u32 = 0;
    for _ in 0..2 {
        match plan_fetch(index.contains(code)) {
            FetchDecision::Download => {
                downloads += 1;
                index.mark_present(code);
            }
            FetchDecision::UseCached => {}
        }
    }
    assert_eq!(downloads, 1);
}

#[test]
fn failure_policy_per_data_kind() {
    for kind in [DataKind::Elevation, DataKind::Raster, DataKind::Vector] {
        assert_eq!(on_download_result(kind, true), StoreAction::StoreBody);
    }
    assert_eq!(
        on_download_result(DataKind::Elevation, false),
        StoreAction::StorePlaceholder
    );
    assert_eq!(on_download_result(DataKind::Raster, false), StoreAction::LeaveUnloaded);
    assert_eq!(on_download_result(DataKind::Vector, false), StoreAction::Fail);
}

#[test]
fn losing_the_write_race_is_a_cache_hit() {
    assert!(write_leaves_file(WriteOutcome::Created));
    assert!(write_leaves_file(WriteOutcome::AlreadyExists));
    assert!(!write_leaves_file(WriteOutcome::Failed));
}

#[test]
fn substring_search() {
    assert!(contains_sub(b"abcdef", b"cde"));
    assert!(contains_sub(b"abcdef", b""));
    assert!(contains_sub(b"abcdef", b"abcdef"));
    assert!(!contains_sub(b"abcdef", b"cdf"));
    assert!(!contains_sub(b"ab", b"abc"));
}

#[test]
fn overload_responses_are_sniffed() {
    assert!(vector_response_suspect(b"error: rate_limited, try later"));
    assert!(vector_response_suspect(
        b"<html>The server is probably too busy to handle your request.</html>"
    ));
    assert!(!vector_response_suspect(b"<?xml version=\"1.0\"?><osm></osm>"));
}
