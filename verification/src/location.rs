//! Named map locations: their geographic area and their on-disk paths.
//!
//! Angles are carried in microdegrees (`1_000_000` per degree), so the
//! published corner coordinates of each area are held exactly.  The
//! linear world transform uses the equator scale of `110_000` meters
//! per degree, which comes to `110` millimeters per microdegree.

use vstd::prelude::*;
use vstd::string::StringExecFns;

verus! {

/// Millimeters of world space per microdegree at the equator
/// (`1.1e5` meters per degree).
pub const MM_PER_MICRODEG: i64 = 110;

/// Microdegrees per degree.
pub const MICRODEG: i64 = 1_000_000;

/// A geographic region in microdegrees of latitude and longitude.
#[derive(Clone, Copy, Debug, PartialEq, Eq, Structural)]
pub struct GeoRect {
    pub min_lat: i64,
    pub min_lon: i64,
    pub max_lat: i64,
    pub max_lon: i64,
}

impl GeoRect {
    pub open spec fn wf(self) -> bool {
        &&& -90 * MICRODEG <= self.min_lat <= self.max_lat <= 90 * MICRODEG
        &&& -180 * MICRODEG <= self.min_lon <= self.max_lon <= 180 * MICRODEG
    }

    pub open spec fn center_lat(self) -> int {
        (self.min_lat + self.max_lat) / 2
    }

    pub open spec fn center_lon(self) -> int {
        (self.min_lon + self.max_lon) / 2
    }

    /// Decides well-formedness, so a caller handed an arbitrary area
    /// can test it before building a request with it.
    pub fn check(&self) -> (r: bool)
        ensures
            r == self.wf(),
    {
        -90 * MICRODEG <= self.min_lat && self.min_lat <= self.max_lat && self.max_lat <= 90
            * MICRODEG && -180 * MICRODEG <= self.min_lon && self.min_lon <= self.max_lon
            && self.max_lon <= 180 * MICRODEG
    }
}

/// A bundled map area the application knows by name.
#[derive(Clone, Copy, Debug, PartialEq, Eq, Hash, Structural)]
pub enum Location {
    MonacoCenter,
    MonacoFull,
}

impl Location {
    pub open spec fn spec_dir(self) -> Seq<char> {
        match self {
            Location::MonacoCenter => "assets/osm/monaco-center/"@,
            Location::MonacoFull => "assets/osm/monaco-full/"@,
        }
    }

    /// The directory all of this location's cached data lives under.
    pub fn get_path(&self) -> (r: &'static str)
        ensures
            r@ == self.spec_dir(),
    {
        match self {
            Location::MonacoCenter => "assets/osm/monaco-center/",
            Location::MonacoFull => "assets/osm/monaco-full/",
        }
    }

    /// Where this location's vector map data is cached.
    pub fn get_osm_path(&self) -> (r: String)
        ensures
            r@ == self.spec_dir() + "map.osm"@,
    {
        let mut s = String::from_str(self.get_path());
        s.append("map.osm");
        s
    }

    /// Where this location's elevation data is cached.
    pub fn get_elevation_path(&self) -> (r: String)
        ensures
            r@ == self.spec_dir() + "elevation.json"@,
    {
        let mut s = String::from_str(self.get_path());
        s.append("elevation.json");
        s
    }

    /// The location's printable name.
    pub fn name(&self) -> (r: &'static str)
        ensures
            (self is MonacoCenter ==> r@ == "MonacoCenter"@),
            (self is MonacoFull ==> r@ == "MonacoFull"@),
    {
        match self {
            Location::MonacoCenter => "MonacoCenter",
            Location::MonacoFull => "MonacoFull",
        }
    }

    pub open spec fn spec_area(self) -> GeoRect {
        match self {
            Location::MonacoCenter => GeoRect {
                min_lat: 43_722_640,
                min_lon: 7_408_480,
                max_lat: 43_738_640,
                max_lon: 7_433_200,
            },
            Location::MonacoFull => GeoRect {
                min_lat: 43_717_950,
                min_lon: 7_387_320,
                max_lat: 43_757_580,
                max_lon: 7_450_830,
            },
        }
    }

    /// The area of the location, in microdegrees of latitude and
    /// longitude.
    pub fn get_area(&self) -> (r: GeoRect)
        ensures
            r == self.spec_area(),
            r.wf(),
    {
        match self {
            Location::MonacoCenter => GeoRect {
                min_lat: 43_722_640,
                min_lon: 7_408_480,
                max_lat: 43_738_640,
                max_lon: 7_433_200,
            },
            Location::MonacoFull => GeoRect {
                min_lat: 43_717_950,
                min_lon: 7_387_320,
                max_lat: 43_757_580,
                max_lon: 7_450_830,
            },
        }
    }

    /// World millimeters per microdegree on each axis, at the equator.
    pub fn lat_lon_to_meters(&self) -> (r: (i64, i64))
        ensures
            r.0 == MM_PER_MICRODEG,
            r.1 == MM_PER_MICRODEG,
    {
        (MM_PER_MICRODEG, MM_PER_MICRODEG)
    }

    /// Maps a geographic point to local world millimeters around the
    /// location's center: east becomes `+x`, and north becomes `-y`
    /// because the renderer's ground plane points its second axis
    /// south.
    pub fn lat_lon_to_world(&self, lat: i64, lon: i64) -> (r: (i64, i64))
        requires
            -180 * MICRODEG <= lat <= 180 * MICRODEG,
            -180 * MICRODEG <= lon <= 180 * MICRODEG,
        ensures
            r.0 == (lon - self.spec_area().center_lon()) * MM_PER_MICRODEG,
            r.1 == -((lat - self.spec_area().center_lat()) * MM_PER_MICRODEG),
    {
        let area = self.get_area();
        let c_lat = (area.min_lat + area.max_lat) / 2;
        let c_lon = (area.min_lon + area.max_lon) / 2;
        ((lon - c_lon) * MM_PER_MICRODEG, -((lat - c_lat) * MM_PER_MICRODEG))
    }
}

} // verus!
