use lodtree::location::{GeoRect, Location};

#[test]
fn location_paths() {
    assert_eq!(Location::MonacoCenter.get_path(), "assets/osm/monaco-center/");
    assert_eq!(Location::MonacoFull.get_path(), "assets/osm/monaco-full/");
    assert_eq!(Location::MonacoCenter.get_osm_path(), "assets/osm/monaco-center/map.osm");
    assert_eq!(
        Location::MonacoFull.get_elevation_path(),
        "assets/osm/monaco-full/elevation.json"
    );
}

#[test]
fn location_names() {
    assert_eq!(Location::MonacoCenter.name(), "MonacoCenter");
    assert_eq!(Location::MonacoFull.name(), "MonacoFull");
}

#[test]
fn location_areas_in_microdegrees() {
    let center = Location::MonacoCenter.get_area();
    assert_eq!(
        center,
        GeoRect {
            min_lat: 43_722_640,
            min_lon: 7_408_480,
            max_lat: 43_738_640,
            max_lon: 7_433_200,
        }
    );
    let full = Location::MonacoFull.get_area();
    assert!(full.min_lat < center.min_lat && center.max_lon < full.max_lon);
}

#[test]
fn world_transform_around_the_center() {
    let loc = Location::MonacoCenter;
    assert_eq!(loc.lat_lon_to_meters(), (110, 110));
    // the area's center maps to the origin
    assert_eq!(loc.lat_lon_to_world(43_730_640, 7_420_840), (0, 0));
    // east is +x, north is -y, at 110 millimeters per microdegree
    assert_eq!(loc.lat_lon_to_world(43_730_640, 7_420_841), (110, 0));
    assert_eq!(loc.lat_lon_to_world(43_730_641, 7_420_840), (0, -110));
}
