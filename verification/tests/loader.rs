use lodtree::loader::PendingLoads;
use lodtree::tile::TileId;

fn tile(x: u32, y: u32, zoom: u8) -> TileId {
    TileId { x, y, zoom }
}

#[test]
fn completions_drain_in_completion_order() {
    let mut loads = PendingLoads::new();
    let a = tile(0, 0, 3);
    let b = tile(1, 0, 3);
    let c = tile(2, 2, 3);
    loads.spawn(a);
    loads.spawn(b);
    loads.spawn(c);
    assert_eq!(loads.pending.len(), 3);

    // two sibling chunks may finish in either order; draining follows
    // the completion order, not the spawn order
    loads.note_complete(c);
    loads.note_complete(a);
    let drained = loads.drain();
    assert_eq!(drained, vec![c, a]);
    assert_eq!(loads.pending.len(), 1);
}

#[test]
fn a_completion_is_delivered_exactly_once() {
    let mut loads = PendingLoads::new();
    let a = tile(4, 5, 6);
    loads.spawn(a);
    loads.note_complete(a);
    assert_eq!(loads.drain(), vec![a]);
    assert_eq!(loads.drain(), Vec::<TileId>::new());
    assert!(!loads.is_tracked(a));
}

#[test]
fn spawning_a_tracked_tile_changes_nothing() {
    let mut loads = PendingLoads::new();
    let a = tile(7, 7, 7);
    loads.spawn(a);
    loads.spawn(a);
    assert_eq!(loads.pending.len(), 1);
    loads.note_complete(a);
    loads.spawn(a);
    assert_eq!(loads.pending.len(), 0, "a completed load is not respawned");
    assert_eq!(loads.completed.len(), 1);
}
