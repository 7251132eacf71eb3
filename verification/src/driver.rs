//! The per-frame update driver.
//!
//! Once per frame, on the main thread: first every completed
//! background load is drained and its deferred mutation applied to
//! the tree, in completion order; then the tree is walked around the
//! camera's reference point; and finally a background load is started
//! for every tile the walk requested.  Workers never touch the tree
//! or the pool — they only report completions between frames.

use vstd::prelude::*;

use crate::loader::PendingLoads;
use crate::pool::{Handle, ResourcePool};
use crate::quadtree::{
    cap4, mark_rel, spawned_requests, step_rel, QuadTree, QuadTreeConfig, QuadTreeNode,
};
use crate::rect::{COORD_LIMIT, Vec3i};
use crate::tile::TileId;

verus! {

/// Chains the deferred-mutation relation over a list of completed
/// tiles, in order.
pub open spec fn drain_rel(pre: QuadTreeNode, post: QuadTreeNode, ts: Seq<TileId>) -> bool
    decreases ts.len(),
{
    if ts.len() == 0 {
        post == pre
    } else {
        exists|mid: QuadTreeNode|
            #[trigger] mark_rel(pre, mid, ts[0]) && drain_rel(mid, post, ts.drop_first())
    }
}

proof fn lemma_drain_snoc(
    a: QuadTreeNode,
    b: QuadTreeNode,
    c: QuadTreeNode,
    ts: Seq<TileId>,
    t: TileId,
)
    requires
        drain_rel(a, b, ts),
        mark_rel(b, c, t),
    ensures
        drain_rel(a, c, ts.push(t)),
    decreases ts.len(),
{
    if ts.len() == 0 {
        assert(ts.push(t)[0] == t);
        assert(ts.push(t).drop_first() =~= Seq::<TileId>::empty());
        assert(mark_rel(a, c, ts.push(t)[0]) && drain_rel(c, c, ts.push(t).drop_first()));
    } else {
        let mid = choose|mid: QuadTreeNode|
            #[trigger] mark_rel(a, mid, ts[0]) && drain_rel(mid, b, ts.drop_first());
        lemma_drain_snoc(mid, b, c, ts.drop_first(), t);
        assert(ts.push(t)[0] == ts[0]);
        assert(ts.push(t).drop_first() =~= ts.drop_first().push(t));
        assert(mark_rel(a, mid, ts.push(t)[0]) && drain_rel(mid, c, ts.push(t).drop_first()));
    }
}

/// Drains every completed background load and applies each one's
/// deferred mutation to the tree, in completion order.  Resources are
/// untouched; only loaded flags can change.
pub fn drain_completed(tree: &mut QuadTree, loader: &mut PendingLoads)
    requires
        old(loader).wf(),
    ensures
        final(loader).wf(),
        final(loader).completed@ == Seq::<TileId>::empty(),
        final(loader).pending@ == old(loader).pending@,
        drain_rel(old(tree).root, final(tree).root, old(loader).completed@),
        forall|g: Handle| final(tree).root.res_in(g) == old(tree).root.res_in(g),
        final(tree).root.res_count() == old(tree).root.res_count(),
        old(tree).root.res_distinct() ==> final(tree).root.res_distinct(),
        forall|c: QuadTreeConfig| old(tree).wf(c) ==> final(tree).wf(c),
{
    let done = loader.drain();
    let ghost ts = done@;
    let mut i: usize = 0;
    while i < done.len()
        invariant
            0 <= i <= ts.len(),
            done@ == ts,
            drain_rel(old(tree).root, tree.root, ts.take(i as int)),
            forall|g: Handle| tree.root.res_in(g) == old(tree).root.res_in(g),
            tree.root.res_count() == old(tree).root.res_count(),
            old(tree).root.res_distinct() ==> tree.root.res_distinct(),
            tree.root.lod == old(tree).root.lod,
            tree.root.x == old(tree).root.x,
            tree.root.y == old(tree).root.y,
            forall|c: QuadTreeConfig| old(tree).root.wf(c) ==> tree.root.wf(c),
        decreases ts.len() - i,
    {
        let ghost pre = tree.root;
        let t = done[i];
        tree.root.apply_loaded(t);
        proof {
            lemma_drain_snoc(old(tree).root, pre, tree.root, ts.take(i as int), t);
            assert(ts.take(i as int).push(t) =~= ts.take(i as int + 1));
        }
        i = i + 1;
    }
    proof {
        assert(ts.take(ts.len() as int) =~= ts);
    }
}

/// Walks the tree around the reference point and starts a background
/// load for every tile the walk requested, in walk order.
pub fn update_quadtree(
    tree: &mut QuadTree,
    config: &QuadTreeConfig,
    pool: &mut ResourcePool,
    loader: &mut PendingLoads,
    ref_point: Vec3i,
)
    requires
        config.wf(),
        old(tree).wf(*config),
        old(pool).wf(),
        old(loader).wf(),
        old(tree).root.res_ok(*old(pool)),
        old(tree).root.res_distinct(),
        -COORD_LIMIT <= ref_point.x <= COORD_LIMIT,
        -COORD_LIMIT <= ref_point.y <= COORD_LIMIT,
        -COORD_LIMIT <= ref_point.z <= COORD_LIMIT,
        old(pool).next_id + cap4(config.max_lod as nat) <= u64::MAX,
    ensures
        final(tree).wf(*config),
        final(pool).wf(),
        final(loader).wf(),
        final(tree).root.res_ok(*final(pool)),
        final(tree).root.res_distinct(),
        step_rel(old(tree).root, final(tree).root, *config, ref_point),
        final(pool).live_count() - old(pool).live_count()
            == final(tree).root.res_count() - old(tree).root.res_count(),
        forall|g: Handle|
            old(pool).is_live(g) && !old(tree).root.res_in(g) ==> final(pool).is_live(g)
                && !final(tree).root.res_in(g),
        forall|g: Handle|
            final(pool).is_live(g) ==> old(pool).is_live(g) || final(tree).root.res_in(g),
        final(loader).completed@ == old(loader).completed@,
        forall|u: TileId| old(loader).tracks(u) ==> final(loader).tracks(u),
        forall|u: TileId|
            final(loader).tracks(u) ==> old(loader).tracks(u) || spawned_requests(
                old(tree).root,
                *config,
                ref_point,
            ).contains(u),
        forall|i: int|
            0 <= i < spawned_requests(old(tree).root, *config, ref_point).len()
                ==> final(loader).tracks(spawned_requests(old(tree).root, *config, ref_point)[i]),
{
    let mut loads: Vec<TileId> = Vec::new();
    tree.root.build_around_point(config, pool, &mut loads, ref_point);
    let ghost reqs = spawned_requests(old(tree).root, *config, ref_point);
    proof {
        assert(loads@ =~= reqs);
        assert(tree.root.lod == old(tree).root.lod && tree.root.x == old(tree).root.x
            && tree.root.y == old(tree).root.y) by {
            reveal(step_rel);
        }
    }
    let mut i: usize = 0;
    while i < loads.len()
        invariant
            loads@ == reqs,
            0 <= i <= reqs.len(),
            loader.wf(),
            loader.completed@ == old(loader).completed@,
            forall|u: TileId| old(loader).tracks(u) ==> loader.tracks(u),
            forall|u: TileId|
                loader.tracks(u) ==> old(loader).tracks(u) || reqs.contains(u),
            forall|k: int| 0 <= k < i ==> loader.tracks(reqs[k]),
        decreases reqs.len() - i,
    {
        loader.spawn(loads[i]);
        proof {
            assert(reqs[i as int] == loads@[i as int]);
        }
        i = i + 1;
    }
}

/// One full frame: drain and apply completed loads, walk the tree,
/// start the requested loads.  The tree passes through an intermediate
/// shape — the drained tree — that the walk then transforms.
pub fn frame_update(
    tree: &mut QuadTree,
    config: &QuadTreeConfig,
    pool: &mut ResourcePool,
    loader: &mut PendingLoads,
    ref_point: Vec3i,
)
    requires
        config.wf(),
        old(tree).wf(*config),
        old(pool).wf(),
        old(loader).wf(),
        old(tree).root.res_ok(*old(pool)),
        old(tree).root.res_distinct(),
        -COORD_LIMIT <= ref_point.x <= COORD_LIMIT,
        -COORD_LIMIT <= ref_point.y <= COORD_LIMIT,
        -COORD_LIMIT <= ref_point.z <= COORD_LIMIT,
        old(pool).next_id + cap4(config.max_lod as nat) <= u64::MAX,
    ensures
        final(tree).wf(*config),
        final(pool).wf(),
        final(loader).wf(),
        final(tree).root.res_ok(*final(pool)),
        final(tree).root.res_distinct(),
        exists|mid: QuadTreeNode|
            #[trigger] drain_rel(old(tree).root, mid, old(loader).completed@) && step_rel(
                mid,
                final(tree).root,
                *config,
                ref_point,
            ),
        final(loader).completed@ == Seq::<TileId>::empty(),
{
    drain_completed(tree, loader);
    let ghost mid = tree.root;
    update_quadtree(tree, config, pool, loader, ref_point);
    proof {
        assert(drain_rel(old(tree).root, mid, old(loader).completed@) && step_rel(
            mid,
            tree.root,
            *config,
            ref_point,
        ));
    }
}

} // verus!
