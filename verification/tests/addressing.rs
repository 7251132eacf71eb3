use lodtree::tile::{
    coordinate_for_tile, key_code, pow2_u64, rect_for_tile, tile_for_coordinate, PlanePoint,
    TileId,
};

#[test]
fn pow2_values() {
    assert_eq!(pow2_u64(0), 1);
    assert_eq!(pow2_u64(5), 32);
    assert_eq!(pow2_u64(32), 0x1_0000_0000);
    assert_eq!(pow2_u64(63), 1 << 63);
}

#[test]
fn zoom_zero_is_one_world_tile() {
    let p = PlanePoint { x: 0xdead_beef, y: 0x1234_5678 };
    let t = tile_for_coordinate(p, 0);
    assert_eq!((t.x, t.y, t.zoom), (0, 0, 0));
    let r = rect_for_tile(t);
    assert_eq!(r.min_x, 0);
    assert_eq!(r.min_y, 0);
    assert_eq!(r.side, 0x1_0000_0000);
}

#[test]
fn addressing_round_trip_lands_in_the_same_tile() {
    let p = PlanePoint { x: 123_456_789, y: 987_654_321 };
    let t = tile_for_coordinate(p, 10);
    assert_eq!((t.x, t.y), (29, 235));
    let r = rect_for_tile(t);
    assert!(r.min_x <= p.x && p.x < r.min_x + r.side);
    assert!(r.min_y <= p.y && p.y < r.min_y + r.side);
    assert_eq!(r.side, 1 << 22);
    let corner = coordinate_for_tile(t);
    assert_eq!(corner.x, 29 << 22);
    assert_eq!(corner.y, 235 << 22);
    assert_eq!(tile_for_coordinate(corner, 10), t);
}

#[test]
fn tile_corner_maps_back_to_itself() {
    let t = TileId { x: 140_178, y: 97_411, zoom: 18 };
    let corner = coordinate_for_tile(t);
    assert_eq!(tile_for_coordinate(corner, 18), t);
}

#[test]
fn key_codes_are_distinct() {
    let a = TileId { x: 5, y: 7, zoom: 3 };
    assert_eq!(key_code(a), 3 * (1 << 56) + 5 * (1 << 28) + 7);
    let others = [
        TileId { x: 7, y: 5, zoom: 3 },
        TileId { x: 5, y: 7, zoom: 4 },
        TileId { x: 5, y: 8, zoom: 3 },
        TileId { x: 0, y: 0, zoom: 0 },
    ];
    for b in others {
        assert_ne!(key_code(a), key_code(b));
    }
}
