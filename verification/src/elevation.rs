//! Decoding elevation rasters into heights.
//!
//! An elevation tile is a `512 x 512` grid of RGB pixels that encode
//! terrain height as `(red * 256 + green + blue / 256) - 32768` meters;
//! heights here are carried in `1/256` meter steps so the encoding is
//! exact.  A render mesh samples the raster at a coarser `64 x 64`
//! vertex grid, clamping to the border.

use vstd::prelude::*;

verus! {

/// Pixels per side of an elevation tile.
pub const TILE_PIXEL_COUNT: i64 = 512;

/// Mesh vertices per side of a rendered tile.
pub const TILE_VERTEX_COUNT: i64 = 64;

/// Pixels stepped per mesh vertex.
pub const DOWNSAMPLE_FACTOR: i64 = 8;

/// A fixed calibration offset subtracted from every decoded height,
/// in `1/256` meter steps (`130` meters).
pub const HEIGHT_OFFSET_Q8: i64 = 33280;

/// The height a pixel encodes, in `1/256` meter steps: the three
/// channels form a 24-bit sample biased by `32768` meters, and the
/// calibration offset comes off.
pub open spec fn spec_height_q8(red: u8, green: u8, blue: u8) -> int {
    red as int * 65536 + green as int * 256 + blue as int - 8388608 - HEIGHT_OFFSET_Q8
}

/// Decodes one pixel's channels into a height in `1/256` meter steps.
pub fn height_q8(red: u8, green: u8, blue: u8) -> (h: i64)
    ensures
        h == spec_height_q8(red, green, blue),
{
    (red as i64) * 65536 + (green as i64) * 256 + (blue as i64) - 8388608 - HEIGHT_OFFSET_Q8
}

pub open spec fn spec_clamp(v: int, lo: int, hi: int) -> int {
    if v < lo {
        lo
    } else if v > hi {
        hi
    } else {
        v
    }
}

/// The pixel column or row sampled for a mesh vertex coordinate:
/// eight pixels per vertex, clamped to the tile border.
pub open spec fn spec_sample_coord(local: int) -> int {
    spec_clamp(DOWNSAMPLE_FACTOR * local, 0, TILE_PIXEL_COUNT - 1)
}

fn sample_coord(local: i64) -> (r: i64)
    requires
        -0x1000_0000_0000_0000 < local < 0x1000_0000_0000_0000,
    ensures
        r == spec_sample_coord(local as int),
        0 <= r < TILE_PIXEL_COUNT,
{
    let scaled = DOWNSAMPLE_FACTOR * local;
    if scaled < 0 {
        0
    } else if scaled > TILE_PIXEL_COUNT - 1 {
        TILE_PIXEL_COUNT - 1
    } else {
        scaled
    }
}

/// The height sampled for mesh vertex `(x, y)` from a raw elevation
/// raster of `512 x 512` RGB pixels in row-major order.
pub open spec fn spec_sample_height_q8(pixels: Seq<u8>, x: int, y: int) -> int {
    let px = spec_sample_coord(x);
    let py = spec_sample_coord(y);
    let base = 3 * (py * TILE_PIXEL_COUNT + px);
    spec_height_q8(pixels[base], pixels[base + 1], pixels[base + 2])
}

/// Samples the elevation raster at a mesh vertex, in `1/256` meter
/// steps.
pub fn sample_height_q8(pixels: &[u8], x: i64, y: i64) -> (h: i64)
    requires
        pixels@.len() == 3 * TILE_PIXEL_COUNT * TILE_PIXEL_COUNT,
        -0x1000_0000_0000_0000 < x < 0x1000_0000_0000_0000,
        -0x1000_0000_0000_0000 < y < 0x1000_0000_0000_0000,
    ensures
        h == spec_sample_height_q8(pixels@, x as int, y as int),
{
    let px = sample_coord(x);
    let py = sample_coord(y);
    let base = (3 * (py * TILE_PIXEL_COUNT + px)) as usize;
    height_q8(pixels[base], pixels[base + 1], pixels[base + 2])
}

} // verus!
