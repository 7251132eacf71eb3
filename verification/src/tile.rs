//! Tile addressing on the projected plane.
//!
//! The world is a square plane of `2^WORLD_BITS` fixed-point units per
//! side (the caller's projection maps geographic coordinates onto it).
//! At a given zoom the plane is a grid of `2^zoom` by `2^zoom` square
//! tiles; addressing is pure arithmetic both ways, and the round trip
//! from a point to its tile and back to the tile's area is proved to
//! land on the same point.

use vstd::arithmetic::div_mod::{
    lemma_fundamental_div_mod, lemma_fundamental_div_mod_converse, lemma_multiply_divide_lt,
};
use vstd::arithmetic::mul::lemma_mul_strict_inequality;
use vstd::arithmetic::power2::{lemma2_to64, lemma_pow2_adds, lemma_pow2_pos, pow2};
use vstd::bits::{lemma_u64_pow2_no_overflow, lemma_u64_shl_is_mul};
use vstd::prelude::*;

verus! {

/// The plane is `2^WORLD_BITS` units on a side.
pub const WORLD_BITS: u8 = 32;

/// Deepest addressable subdivision; keeps every tile coordinate well
/// inside 28 bits so identifiers pack into a `u64`.
pub const MAX_ZOOM: u8 = 27;

/// A point on the projected plane, in plane units.
#[derive(Clone, Copy, Debug, PartialEq, Eq, Structural)]
pub struct PlanePoint {
    pub x: u64,
    pub y: u64,
}

impl PlanePoint {
    pub open spec fn wf(self) -> bool {
        &&& self.x < pow2(WORLD_BITS as nat)
        &&& self.y < pow2(WORLD_BITS as nat)
    }
}

/// Names one square tile of the plane at a subdivision depth.
#[derive(Clone, Copy, Debug, PartialEq, Eq, Hash, Structural)]
pub struct TileId {
    pub x: u32,
    pub y: u32,
    pub zoom: u8,
}

impl TileId {
    pub open spec fn wf(self) -> bool {
        &&& self.zoom <= MAX_ZOOM
        &&& (self.x as nat) < pow2(self.zoom as nat)
        &&& (self.y as nat) < pow2(self.zoom as nat)
    }
}

/// The area of one tile: its lowest corner and its side length.
#[derive(Clone, Copy, Debug, PartialEq, Eq, Structural)]
pub struct TileRect {
    pub min_x: u64,
    pub min_y: u64,
    pub side: u64,
}

impl TileRect {
    pub open spec fn contains(self, p: PlanePoint) -> bool {
        &&& self.min_x <= p.x < self.min_x + self.side
        &&& self.min_y <= p.y < self.min_y + self.side
    }
}

/// Side length of a tile at `zoom`, in plane units.
pub open spec fn tile_side(zoom: u8) -> int {
    pow2((WORLD_BITS - zoom) as nat) as int
}

pub open spec fn spec_tile_for_coordinate(p: PlanePoint, zoom: u8) -> TileId {
    TileId {
        x: (p.x as int / tile_side(zoom)) as u32,
        y: (p.y as int / tile_side(zoom)) as u32,
        zoom,
    }
}

pub open spec fn spec_rect_for_tile(t: TileId) -> TileRect {
    TileRect {
        min_x: (t.x as int * tile_side(t.zoom)) as u64,
        min_y: (t.y as int * tile_side(t.zoom)) as u64,
        side: tile_side(t.zoom) as u64,
    }
}

/// `2^e` as a machine word.
pub fn pow2_u64(e: u8) -> (r: u64)
    requires
        e < 64,
    ensures
        r == pow2(e as nat),
        r >= 1,
{
    proof {
        lemma_u64_pow2_no_overflow(e as nat);
        lemma_u64_shl_is_mul(1u64, e as u64);
        lemma_pow2_pos(e as nat);
    }
    1u64 << (e as u64)
}

proof fn lemma_tile_coord_bounds(v: u64, zoom: u8)
    requires
        v < pow2(WORLD_BITS as nat),
        zoom <= MAX_ZOOM,
    ensures
        0 <= v as int / tile_side(zoom) < pow2(zoom as nat),
        tile_side(zoom) >= 1,
{
    lemma_pow2_adds((WORLD_BITS - zoom) as nat, zoom as nat);
    lemma_pow2_pos((WORLD_BITS - zoom) as nat);
    lemma_pow2_pos(zoom as nat);
    lemma_multiply_divide_lt(v as int, tile_side(zoom), pow2(zoom as nat) as int);
}

/// The tile whose area contains `p` at depth `zoom`.
pub fn tile_for_coordinate(p: PlanePoint, zoom: u8) -> (t: TileId)
    requires
        p.wf(),
        zoom <= MAX_ZOOM,
    ensures
        t == spec_tile_for_coordinate(p, zoom),
        t.wf(),
{
    proof {
        lemma_tile_coord_bounds(p.x, zoom);
        lemma_tile_coord_bounds(p.y, zoom);
        lemma2_to64();
        assert(pow2(zoom as nat) <= pow2(27) <= u32::MAX) by {
            if zoom < 27 {
                vstd::arithmetic::power2::lemma_pow2_strictly_increases(zoom as nat, 27);
            }
        }
    }
    let side = pow2_u64(WORLD_BITS - zoom);
    TileId { x: (p.x / side) as u32, y: (p.y / side) as u32, zoom }
}

proof fn lemma_tile_corner_bounds(c: u32, zoom: u8)
    requires
        zoom <= MAX_ZOOM,
        (c as nat) < pow2(zoom as nat),
    ensures
        0 <= c as int * tile_side(zoom),
        (c as int + 1) * tile_side(zoom) <= pow2(WORLD_BITS as nat),
        tile_side(zoom) >= 1,
{
    lemma_pow2_adds((WORLD_BITS - zoom) as nat, zoom as nat);
    lemma_pow2_pos((WORLD_BITS - zoom) as nat);
    vstd::arithmetic::mul::lemma_mul_inequality(
        c as int + 1,
        pow2(zoom as nat) as int,
        tile_side(zoom),
    );
    vstd::arithmetic::mul::lemma_mul_is_commutative(c as int + 1, tile_side(zoom));
    vstd::arithmetic::mul::lemma_mul_is_commutative(pow2(zoom as nat) as int, tile_side(zoom));
    vstd::arithmetic::mul::lemma_mul_is_distributive_add(tile_side(zoom), c as int, 1);
}

/// The lowest corner of tile `t`: the point addressing maps back to.
pub fn coordinate_for_tile(t: TileId) -> (p: PlanePoint)
    requires
        t.wf(),
    ensures
        p.x == t.x as int * tile_side(t.zoom),
        p.y == t.y as int * tile_side(t.zoom),
        p.wf(),
{
    proof {
        lemma2_to64();
        lemma_tile_corner_bounds(t.x, t.zoom);
        lemma_tile_corner_bounds(t.y, t.zoom);
        lemma_pow2_pos((WORLD_BITS - t.zoom) as nat);
        assert(t.x as int * tile_side(t.zoom) < (t.x as int + 1) * tile_side(t.zoom)) by {
            lemma_mul_strict_inequality(
                t.x as int,
                t.x as int + 1,
                tile_side(t.zoom),
            );
            vstd::arithmetic::mul::lemma_mul_is_commutative(t.x as int, tile_side(t.zoom));
            vstd::arithmetic::mul::lemma_mul_is_commutative(t.x as int + 1, tile_side(t.zoom));
        }
        assert(t.y as int * tile_side(t.zoom) < (t.y as int + 1) * tile_side(t.zoom)) by {
            lemma_mul_strict_inequality(
                t.y as int,
                t.y as int + 1,
                tile_side(t.zoom),
            );
            vstd::arithmetic::mul::lemma_mul_is_commutative(t.y as int, tile_side(t.zoom));
            vstd::arithmetic::mul::lemma_mul_is_commutative(t.y as int + 1, tile_side(t.zoom));
        }
    }
    let side = pow2_u64(WORLD_BITS - t.zoom);
    PlanePoint { x: (t.x as u64) * side, y: (t.y as u64) * side }
}

/// The area covered by tile `t`, corner plus side length.
pub fn rect_for_tile(t: TileId) -> (r: TileRect)
    requires
        t.wf(),
    ensures
        r == spec_rect_for_tile(t),
        r.min_x + r.side <= pow2(WORLD_BITS as nat),
        r.min_y + r.side <= pow2(WORLD_BITS as nat),
{
    proof {
        lemma2_to64();
        lemma_tile_corner_bounds(t.x, t.zoom);
        lemma_tile_corner_bounds(t.y, t.zoom);
        vstd::arithmetic::mul::lemma_mul_is_distributive_add_other_way(
            tile_side(t.zoom),
            t.x as int,
            1,
        );
        vstd::arithmetic::mul::lemma_mul_is_distributive_add_other_way(
            tile_side(t.zoom),
            t.y as int,
            1,
        );
    }
    let corner = coordinate_for_tile(t);
    let side = pow2_u64(WORLD_BITS - t.zoom);
    TileRect { min_x: corner.x, min_y: corner.y, side }
}

/// Addressing a point and mapping the tile back to its area lands on
/// the area that contains the point: the round trip loses at most one
/// tile cell of precision, never more.
pub proof fn lemma_tile_round_trip(p: PlanePoint, zoom: u8)
    requires
        p.wf(),
        zoom <= MAX_ZOOM,
    ensures
        spec_tile_for_coordinate(p, zoom).wf(),
        spec_rect_for_tile(spec_tile_for_coordinate(p, zoom)).contains(p),
{
    let side = tile_side(zoom);
    lemma2_to64();
    assert(pow2(zoom as nat) <= pow2(27)) by {
        if zoom < 27 {
            vstd::arithmetic::power2::lemma_pow2_strictly_increases(zoom as nat, 27);
        }
    }
    lemma_tile_coord_bounds(p.x, zoom);
    lemma_tile_coord_bounds(p.y, zoom);
    lemma_fundamental_div_mod(p.x as int, side);
    lemma_fundamental_div_mod(p.y as int, side);
    vstd::arithmetic::div_mod::lemma_remainder_lower(p.x as int, side);
    vstd::arithmetic::div_mod::lemma_remainder_upper(p.x as int, side);
    vstd::arithmetic::div_mod::lemma_remainder_lower(p.y as int, side);
    vstd::arithmetic::div_mod::lemma_remainder_upper(p.y as int, side);
    let t = spec_tile_for_coordinate(p, zoom);
    lemma_tile_corner_bounds(t.x, zoom);
    lemma_tile_corner_bounds(t.y, zoom);
    vstd::arithmetic::mul::lemma_mul_is_commutative(t.x as int, side);
    vstd::arithmetic::mul::lemma_mul_is_commutative(t.y as int, side);
}

/// A tile identifier packed into one word: zoom in the top bits, then
/// the column, then the row.  Distinct tiles get distinct codes.
pub open spec fn spec_key_code(t: TileId) -> int {
    t.zoom as int * 0x100_0000_0000_0000 + t.x as int * 0x1000_0000 + t.y as int
}

/// Packs a tile identifier into a cache key.
pub fn key_code(t: TileId) -> (code: u64)
    requires
        t.wf(),
    ensures
        code == spec_key_code(t),
{
    proof {
        lemma2_to64();
        assert(pow2(t.zoom as nat) <= pow2(27)) by {
            if t.zoom < 27 {
                vstd::arithmetic::power2::lemma_pow2_strictly_increases(t.zoom as nat, 27);
            }
        }
    }
    (t.zoom as u64) * 0x100_0000_0000_0000 + (t.x as u64) * 0x1000_0000 + (t.y as u64)
}

/// Packing is injective on well-formed identifiers: equal codes name
/// the same tile.
pub proof fn lemma_key_code_injective(a: TileId, b: TileId)
    requires
        a.wf(),
        b.wf(),
        spec_key_code(a) == spec_key_code(b),
    ensures
        a == b,
{
    lemma2_to64();
    assert(pow2(a.zoom as nat) <= pow2(27)) by {
        if a.zoom < 27 {
            vstd::arithmetic::power2::lemma_pow2_strictly_increases(a.zoom as nat, 27);
        }
    }
    assert(pow2(b.zoom as nat) <= pow2(27)) by {
        if b.zoom < 27 {
            vstd::arithmetic::power2::lemma_pow2_strictly_increases(b.zoom as nat, 27);
        }
    }
    let ra = a.x as int * 0x1000_0000 + a.y as int;
    let rb = b.x as int * 0x1000_0000 + b.y as int;
    assert(0 <= ra < 0x100_0000_0000_0000);
    assert(0 <= rb < 0x100_0000_0000_0000);
    lemma_fundamental_div_mod_converse(
        spec_key_code(a),
        0x100_0000_0000_0000,
        a.zoom as int,
        ra,
    );
    lemma_fundamental_div_mod_converse(
        spec_key_code(b),
        0x100_0000_0000_0000,
        b.zoom as int,
        rb,
    );
    lemma_fundamental_div_mod_converse(ra, 0x1000_0000, a.x as int, a.y as int);
    lemma_fundamental_div_mod_converse(rb, 0x1000_0000, b.x as int, b.y as int);
}

} // verus!
