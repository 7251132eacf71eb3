//! Axis-aligned regions in local world units, and the subdivision metric.
//!
//! World lengths are plain `i64` units; a coordinate that stood for
//! `1.0` in a unit-scaled world is written `1000` here, so the
//! sensitivity factor `k` is likewise carried in thousandths
//! (`K_SCALE`).  All arithmetic is exact.

use vstd::prelude::*;

verus! {

/// Every rectangle corner and reference point the library works with is
/// kept within this bound so that the distance metric below cannot
/// overflow an `i64`.
pub const COORD_LIMIT: i64 = 0x2000_0000_0000;

/// The subdivision sensitivity `k` is a fixed-point value in thousandths:
/// `k == 1100` stands for a factor of `1.1`.
pub const K_SCALE: i64 = 1000;

/// Upper bound on the sensitivity factor, so `k * width` stays in range.
pub const K_LIMIT: i64 = 16384;

/// A point or extent in the horizontal plane.
#[derive(Clone, Copy, Debug, PartialEq, Eq, Structural)]
pub struct Vec2i {
    pub x: i64,
    pub y: i64,
}

/// A reference point; `y` is the vertical (altitude) axis, `x` and `z`
/// span the horizontal plane that rectangles live in.
#[derive(Clone, Copy, Debug, PartialEq, Eq, Structural)]
pub struct Vec3i {
    pub x: i64,
    pub y: i64,
    pub z: i64,
}

/// An axis-aligned region given by its center and half-extents.
#[derive(Clone, Copy, Debug, PartialEq, Eq, Structural)]
pub struct Rect {
    pub center: Vec2i,
    pub half: Vec2i,
}

impl Rect {
    pub open spec fn min_x(self) -> int {
        self.center.x - self.half.x
    }

    pub open spec fn max_x(self) -> int {
        self.center.x + self.half.x
    }

    pub open spec fn min_y(self) -> int {
        self.center.y - self.half.y
    }

    pub open spec fn max_y(self) -> int {
        self.center.y + self.half.y
    }

    pub open spec fn width(self) -> int {
        2 * self.half.x
    }

    pub open spec fn height(self) -> int {
        2 * self.half.y
    }

    /// Non-degenerate and far enough from the representable edge that
    /// the subdivision metric cannot overflow.
    pub open spec fn in_bounds(self) -> bool {
        &&& self.half.x >= 0
        &&& self.half.y >= 0
        &&& -COORD_LIMIT <= self.min_x()
        &&& self.max_x() <= COORD_LIMIT
        &&& -COORD_LIMIT <= self.min_y()
        &&& self.max_y() <= COORD_LIMIT
    }

    /// Membership is half-open, `[min, max)` on both axes, so that the
    /// four children of a subdivided region tile it without gap or
    /// overlap.
    pub open spec fn contains_point(self, px: int, py: int) -> bool {
        &&& self.min_x() <= px < self.max_x()
        &&& self.min_y() <= py < self.max_y()
    }

    /// The region centered at `center` whose sides have length `size`.
    pub fn from_center_size(center: Vec2i, size: Vec2i) -> (r: Rect)
        requires
            size.x >= 0,
            size.y >= 0,
            size.x % 2 == 0,
            size.y % 2 == 0,
        ensures
            r.center == center,
            2 * r.half.x == size.x,
            2 * r.half.y == size.y,
    {
        Rect { center, half: Vec2i { x: size.x / 2, y: size.y / 2 } }
    }

    /// The region spanning `min` to `max` corner to corner.
    pub fn from_corners(min: Vec2i, max: Vec2i) -> (r: Rect)
        requires
            min.x <= max.x,
            min.y <= max.y,
            (min.x + max.x) % 2 == 0,
            (min.y + max.y) % 2 == 0,
            -COORD_LIMIT <= min.x,
            -COORD_LIMIT <= min.y,
            max.x <= COORD_LIMIT,
            max.y <= COORD_LIMIT,
        ensures
            r.min_x() == min.x,
            r.max_x() == max.x,
            r.min_y() == min.y,
            r.max_y() == max.y,
            r.in_bounds(),
    {
        Rect {
            center: Vec2i { x: (min.x + max.x) / 2, y: (min.y + max.y) / 2 },
            half: Vec2i { x: (max.x - min.x) / 2, y: (max.y - min.y) / 2 },
        }
    }
}

pub open spec fn spec_abs(v: int) -> int {
    if v < 0 {
        -v
    } else {
        v
    }
}

pub open spec fn spec_min(a: int, b: int) -> int {
    if a < b {
        a
    } else {
        b
    }
}

pub open spec fn spec_max(a: int, b: int) -> int {
    if a < b {
        b
    } else {
        a
    }
}

/// The distance the subdivision policy compares against the node width:
/// a Chebyshev-style metric in the horizontal plane — for each axis the
/// nearer rectangle edge counts, the farther axis dominates — with the
/// reference point's altitude dominating both.
pub open spec fn spec_view_distance(rect: Rect, ref_point: Vec3i) -> int {
    let d_left = spec_abs(ref_point.x - rect.min_x());
    let d_right = spec_abs(ref_point.x - rect.max_x());
    let d_low = spec_abs(ref_point.z - rect.min_y());
    let d_high = spec_abs(ref_point.z - rect.max_y());
    let d_horiz = spec_max(spec_min(d_left, d_right), spec_min(d_low, d_high));
    spec_max(d_horiz, ref_point.y as int)
}

/// A region wants finer detail exactly when the view distance is below
/// `k` times its width, with `k` in thousandths.
pub open spec fn spec_should_subdivide(rect: Rect, ref_point: Vec3i, k_milli: i64) -> bool {
    K_SCALE * spec_view_distance(rect, ref_point) < k_milli * rect.width()
}

fn abs_i64(v: i64) -> (r: i64)
    requires
        -0x4000_0000_0000_0000 < v,
    ensures
        r == spec_abs(v as int),
{
    if v < 0 {
        -v
    } else {
        v
    }
}

fn max_i64(a: i64, b: i64) -> (r: i64)
    ensures
        r == spec_max(a as int, b as int),
{
    if a < b {
        b
    } else {
        a
    }
}

fn min_i64(a: i64, b: i64) -> (r: i64)
    ensures
        r == spec_min(a as int, b as int),
{
    if a < b {
        a
    } else {
        b
    }
}

/// Decides whether a region is close enough to the reference point to
/// deserve subdividing into four finer regions.
pub fn should_subdivide(rect: Rect, ref_point: Vec3i, k_milli: i64) -> (r: bool)
    requires
        rect.in_bounds(),
        -COORD_LIMIT <= ref_point.x <= COORD_LIMIT,
        -COORD_LIMIT <= ref_point.y <= COORD_LIMIT,
        -COORD_LIMIT <= ref_point.z <= COORD_LIMIT,
        0 < k_milli <= K_LIMIT,
    ensures
        r == spec_should_subdivide(rect, ref_point, k_milli),
{
    let d_left = abs_i64(ref_point.x - (rect.center.x - rect.half.x));
    let d_right = abs_i64(ref_point.x - (rect.center.x + rect.half.x));
    let d_low = abs_i64(ref_point.z - (rect.center.y - rect.half.y));
    let d_high = abs_i64(ref_point.z - (rect.center.y + rect.half.y));
    let d_horiz = max_i64(min_i64(d_left, d_right), min_i64(d_low, d_high));
    let d = max_i64(d_horiz, ref_point.y);
    let w = 2 * rect.half.x;
    assert(0 <= k_milli * w <= K_LIMIT * (2 * COORD_LIMIT)) by (nonlinear_arith)
        requires
            0 < k_milli <= K_LIMIT,
            0 <= w <= 2 * COORD_LIMIT,
    ;
    K_SCALE * d < k_milli * w
}

} // verus!
