use lodtree::loader::PendingLoads;
use lodtree::pool::ResourcePool;
use lodtree::quadtree::{QuadTree, QuadTreeConfig, QuadTreeNode};
use lodtree::rect::{should_subdivide, Rect, Vec2i, Vec3i};
use lodtree::driver::{drain_completed, frame_update, update_quadtree};

fn far_point() -> Vec3i {
    Vec3i { x: 200_000, y: 200_000, z: 200_000 }
}

fn near_point() -> Vec3i {
    Vec3i { x: 0, y: 0, z: 0 }
}

#[test]
fn test_target_lod() {
    // World lengths are thousandths: a unit square around the origin,
    // a reference point 1.6 (then 1.59) away, and k = 1.1.
    assert!(!should_subdivide(
        Rect::from_center_size(Vec2i { x: 0, y: 0 }, Vec2i { x: 1000, y: 1000 }),
        Vec3i { x: 0, y: 0, z: 1600 },
        1100,
    ));
    assert!(should_subdivide(
        Rect::from_center_size(Vec2i { x: 0, y: 0 }, Vec2i { x: 1000, y: 1000 }),
        Vec3i { x: 0, y: 0, z: 1590 },
        1100,
    ));
}

#[test]
fn fresh_root_is_a_bare_leaf() {
    let config = QuadTreeConfig { k_milli: 1100, min_lod: 2, max_lod: 5, size: 6400 };
    let tree = QuadTree::new(&config, Vec2i { x: 0, y: 0 });
    assert!(tree.root.children.is_none());
    assert!(tree.root.resource.is_none());
    assert!(!tree.root.loaded);
    assert_eq!(tree.root.lod, 0);
    assert_eq!(tree.root.count_nodes(), 1);
    assert_eq!(tree.root.count_resources(), 0);
}

#[test]
fn far_reference_point_subdivides_to_min_lod() {
    // A fresh root under min_lod 2 / max_lod 5, reference point far
    // away: one driver run yields 1 + 4 + 16 nodes, resources only at
    // the sixteen depth-two leaves, all pending their load.
    let config = QuadTreeConfig { k_milli: 1100, min_lod: 2, max_lod: 5, size: 6400 };
    let mut tree = QuadTree::new(&config, Vec2i { x: 0, y: 0 });
    let mut pool = ResourcePool::new();
    let mut loader = PendingLoads::new();
    frame_update(&mut tree, &config, &mut pool, &mut loader, far_point());

    assert_eq!(tree.root.count_nodes(), 21);
    assert_eq!(tree.root.count_resources(), 16);
    assert!(tree.root.resource.is_none());
    let c = tree.root.children.as_ref().expect("root must be subdivided");
    for child in [&c.nw, &c.ne, &c.sw, &c.se] {
        assert!(child.resource.is_none(), "no resource at depth one");
        let cc = child.children.as_ref().expect("depth one must be subdivided");
        for leaf in [&cc.nw, &cc.ne, &cc.sw, &cc.se] {
            assert_eq!(leaf.lod, 2);
            assert!(leaf.children.is_none());
            assert!(leaf.resource.is_some(), "each depth-two leaf shows a resource");
            assert!(!leaf.loaded, "content is still pending");
        }
    }
    assert_eq!(loader.pending.len(), 16);
    assert_eq!(pool.next_id, 16);
    assert_eq!(pool.free.len(), 0);
}

#[test]
fn near_reference_point_subdivides_to_max_lod() {
    let config = QuadTreeConfig { k_milli: 1100, min_lod: 0, max_lod: 2, size: 6400 };
    let mut tree = QuadTree::new(&config, Vec2i { x: 0, y: 0 });
    let mut pool = ResourcePool::new();
    let mut loader = PendingLoads::new();
    frame_update(&mut tree, &config, &mut pool, &mut loader, near_point());

    assert_eq!(tree.root.count_nodes(), 21);
    assert_eq!(tree.root.count_resources(), 16);
    assert_eq!(loader.pending.len(), 16);
}

#[test]
fn no_premature_collapse_while_children_load() {
    // A subdivided tree whose leaves have not loaded must not collapse
    // when the reference point leaves: every subtree survives.
    let config = QuadTreeConfig { k_milli: 1100, min_lod: 0, max_lod: 2, size: 6400 };
    let mut tree = QuadTree::new(&config, Vec2i { x: 0, y: 0 });
    let mut pool = ResourcePool::new();
    let mut loader = PendingLoads::new();
    frame_update(&mut tree, &config, &mut pool, &mut loader, near_point());
    assert_eq!(tree.root.count_nodes(), 21);

    frame_update(&mut tree, &config, &mut pool, &mut loader, far_point());
    assert_eq!(tree.root.count_nodes(), 21, "nothing may collapse yet");
    assert_eq!(tree.root.count_resources(), 16);
    assert_eq!(pool.next_id, 16, "no churn either");
}

#[test]
fn collapse_after_loads_complete_recycles_resources() {
    let config = QuadTreeConfig { k_milli: 1100, min_lod: 0, max_lod: 2, size: 6400 };
    let mut tree = QuadTree::new(&config, Vec2i { x: 0, y: 0 });
    let mut pool = ResourcePool::new();
    let mut loader = PendingLoads::new();
    frame_update(&mut tree, &config, &mut pool, &mut loader, near_point());

    // the background workers finish every outstanding load
    let pending: Vec<_> = loader.pending.clone();
    for t in pending {
        loader.note_complete(t);
    }
    drain_completed(&mut tree, &mut loader);

    // with every leaf ready and the reference point far away, the
    // whole tree collapses back to one leaf and the sixteen released
    // renderables wait in the pool
    update_quadtree(&mut tree, &config, &mut pool, &mut loader, far_point());
    assert_eq!(tree.root.count_nodes(), 1);
    assert_eq!(tree.root.count_resources(), 1);
    assert!(tree.root.children.is_none());
    assert!(tree.root.resource.is_some());
    assert!(!tree.root.loaded, "the collapsed root reloads its own tile");
    assert_eq!(pool.next_id, 16, "no new renderable was created");
    assert_eq!(pool.free.len(), 15, "the root reuses the oldest released renderable");
    assert_eq!(tree.root.resource, Some(0));
}

#[test]
fn applying_a_completed_load_marks_only_its_leaf() {
    let config = QuadTreeConfig { k_milli: 1100, min_lod: 1, max_lod: 3, size: 6400 };
    let mut tree = QuadTree::new(&config, Vec2i { x: 0, y: 0 });
    let mut pool = ResourcePool::new();
    let mut loader = PendingLoads::new();
    frame_update(&mut tree, &config, &mut pool, &mut loader, far_point());

    let t = loader.pending[0];
    loader.note_complete(t);
    drain_completed(&mut tree, &mut loader);

    let c = tree.root.children.as_ref().unwrap();
    let loaded: Vec<&QuadTreeNode> = [&c.nw, &c.ne, &c.sw, &c.se]
        .into_iter()
        .filter(|n| n.loaded)
        .collect();
    assert_eq!(loaded.len(), 1);
    assert_eq!(loaded[0].lod, t.zoom);
    assert_eq!(loaded[0].x, t.x);
    assert_eq!(loaded[0].y, t.y);

    // a second application of the same completion changes nothing
    tree.root.apply_loaded(t);
    let c = tree.root.children.as_ref().unwrap();
    let still: Vec<&QuadTreeNode> =
        [&c.nw, &c.ne, &c.sw, &c.se].into_iter().filter(|n| n.loaded).collect();
    assert_eq!(still.len(), 1);
}

#[test]
fn children_tile_the_parent_exactly() {
    let config = QuadTreeConfig { k_milli: 1100, min_lod: 1, max_lod: 2, size: 6400 };
    let mut tree = QuadTree::new(&config, Vec2i { x: 0, y: 0 });
    let mut pool = ResourcePool::new();
    let mut loader = PendingLoads::new();
    frame_update(&mut tree, &config, &mut pool, &mut loader, far_point());

    let parent = &tree.root;
    let c = parent.children.as_ref().unwrap();
    for child in [&c.nw, &c.ne, &c.sw, &c.se] {
        assert_eq!(2 * child.rect.half.x, parent.rect.half.x);
        assert_eq!(2 * child.rect.half.y, parent.rect.half.y);
    }
    assert_eq!(c.nw.rect.center, Vec2i { x: -1600, y: -1600 });
    assert_eq!(c.ne.rect.center, Vec2i { x: 1600, y: -1600 });
    assert_eq!(c.sw.rect.center, Vec2i { x: -1600, y: 1600 });
    assert_eq!(c.se.rect.center, Vec2i { x: 1600, y: 1600 });
    assert_eq!((c.nw.x, c.nw.y), (0, 0));
    assert_eq!((c.ne.x, c.ne.y), (1, 0));
    assert_eq!((c.sw.x, c.sw.y), (0, 1));
    assert_eq!((c.se.x, c.se.y), (1, 1));
    for child in [&c.nw, &c.ne, &c.sw, &c.se] {
        assert_eq!(child.lod, 1);
        assert!(child.resource.is_none() || child.children.is_none());
    }
}
