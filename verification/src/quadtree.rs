//! The adaptive level-of-detail quadtree.
//!
//! A node covers a square region; it either stands alone as a leaf —
//! optionally showing one pooled renderable while its tile data loads —
//! or is split into exactly four children covering its quarters.  Each
//! update walk subdivides the nodes the reference point is close to,
//! collapses the ones it has left once their replacement content is
//! ready, and requests background loads for the leaves it equips.  A
//! node's identity `(lod, x, y)` addresses its tile and never changes;
//! only the children, the resource and the loaded flag move.

use vstd::arithmetic::div_mod::{lemma_div_multiples_vanish, lemma_fundamental_div_mod};
use vstd::arithmetic::power2::{
    lemma2_to64, lemma_pow2_adds, lemma_pow2_pos, lemma_pow2_strictly_increases, pow2,
};
use vstd::prelude::*;

use crate::pool::{Handle, ResourcePool};
use crate::rect::{
    COORD_LIMIT, K_LIMIT, K_SCALE, Rect, Vec2i, Vec3i, should_subdivide, spec_should_subdivide,
};
use crate::tile::{MAX_ZOOM, TileId};

verus! {

/// The per-root tuning of one quadtree: the subdivision sensitivity
/// `k` (in thousandths, and above one so the subdivide and collapse
/// thresholds cannot sit astride a node boundary), the forced and
/// maximal subdivision depths, and the root's side length in world
/// units.  The side length is a multiple of `2^(max_lod + 1)` so that
/// every half-extent down to the deepest level is an exact integer.
#[derive(Clone, Copy, Debug, PartialEq, Eq, Structural)]
pub struct QuadTreeConfig {
    pub k_milli: i64,
    pub min_lod: u8,
    pub max_lod: u8,
    pub size: i64,
}

impl QuadTreeConfig {
    pub open spec fn wf(self) -> bool {
        &&& K_SCALE < self.k_milli <= K_LIMIT
        &&& self.min_lod <= self.max_lod
        &&& self.max_lod <= MAX_ZOOM
        &&& self.size as int % (pow2((self.max_lod + 1) as nat) as int) == 0
        &&& pow2((self.max_lod + 1) as nat) <= self.size
        &&& self.size <= COORD_LIMIT
    }

    /// Half the side length of a node at depth `lod`.
    pub open spec fn half_extent(self, lod: int) -> int {
        self.size as int / (pow2((lod + 1) as nat) as int)
    }

    /// Decides well-formedness, so a caller handed an arbitrary
    /// configuration can test it before running a tree with it.
    pub fn check(&self) -> (r: bool)
        ensures
            r == self.wf(),
    {
        if !(crate::rect::K_SCALE < self.k_milli && self.k_milli <= crate::rect::K_LIMIT
            && self.min_lod <= self.max_lod && self.max_lod <= MAX_ZOOM) {
            return false;
        }
        let step_u = crate::tile::pow2_u64(self.max_lod + 1);
        proof {
            lemma2_to64();
            assert(pow2((self.max_lod + 1) as nat) <= pow2(28)) by {
                if ((self.max_lod + 1) as nat) < 28 {
                    lemma_pow2_strictly_increases((self.max_lod + 1) as nat, 28);
                }
            }
        }
        let step = step_u as i64;
        step <= self.size && self.size % step == 0 && self.size <= COORD_LIMIT
    }
}

/// Half-extents halve exactly from each depth to the next, down to a
/// last depth where they are still positive.
pub proof fn lemma_half_extent(config: QuadTreeConfig, lod: int)
    requires
        config.wf(),
        0 <= lod <= config.max_lod,
    ensures
        1 <= config.half_extent(lod),
        2 * config.half_extent(0) == config.size,
        lod < config.max_lod ==> config.half_extent(lod) == 2 * config.half_extent(lod + 1),
{
    let p_all = pow2((config.max_lod + 1) as nat) as int;
    let m = config.size as int / p_all;
    lemma_pow2_pos((config.max_lod + 1) as nat);
    lemma_fundamental_div_mod(config.size as int, p_all);
    assert(config.size == p_all * m);
    assert(m >= 1) by (nonlinear_arith)
        requires
            config.size == p_all * m,
            p_all <= config.size,
            p_all > 0,
    ;
    lemma_half_extent_value(config, lod);
    let d = (config.max_lod - lod) as nat;
    lemma_pow2_pos(d);
    assert(config.half_extent(lod) == m * pow2(d));
    assert(m * pow2(d) >= 1) by (nonlinear_arith)
        requires
            m >= 1,
            pow2(d) >= 1,
    ;
    lemma_half_extent_value(config, 0);
    assert(config.half_extent(0) == m * pow2(config.max_lod as nat));
    lemma_pow2_adds(config.max_lod as nat, 1);
    assert(pow2(1) == 2) by {
        lemma2_to64();
    }
    assert(2 * (m * pow2(config.max_lod as nat) as int) == p_all * m) by (nonlinear_arith)
        requires
            p_all == pow2(config.max_lod as nat) * 2,
    ;
    if lod < config.max_lod {
        lemma_half_extent_value(config, lod + 1);
        let d1 = (config.max_lod - lod - 1) as nat;
        lemma_pow2_adds(d1, 1);
        assert(pow2(d) == pow2(d1) * 2);
        assert(m * pow2(d) == 2 * (m * pow2(d1) as int)) by (nonlinear_arith)
            requires
                pow2(d) == pow2(d1) * 2,
        ;
    }
}

proof fn lemma_half_extent_value(config: QuadTreeConfig, lod: int)
    requires
        config.wf(),
        0 <= lod <= config.max_lod,
    ensures
        config.half_extent(lod) == (config.size as int / (pow2((config.max_lod + 1) as nat) as int))
            * (pow2((config.max_lod - lod) as nat) as int),
{
    let p_all = pow2((config.max_lod + 1) as nat) as int;
    let p_lo = pow2((lod + 1) as nat) as int;
    let p_hi = pow2((config.max_lod - lod) as nat) as int;
    let m = config.size as int / p_all;
    lemma_pow2_pos((config.max_lod + 1) as nat);
    lemma_pow2_pos((lod + 1) as nat);
    lemma_pow2_pos((config.max_lod - lod) as nat);
    lemma_pow2_adds((lod + 1) as nat, (config.max_lod - lod) as nat);
    assert(p_all == p_lo * p_hi);
    lemma_fundamental_div_mod(config.size as int, p_all);
    assert(config.size == p_all * m);
    assert(config.size == p_lo * (m * p_hi)) by (nonlinear_arith)
        requires
            config.size == p_all * m,
            p_all == p_lo * p_hi,
    ;
    lemma_div_multiples_vanish(m * p_hi, p_lo);
}

/// The four quarters of a subdivided node, named for the map-tile
/// convention: `x` grows east, `y` grows south.
pub struct QuadTreeChildren {
    pub nw: QuadTreeNode,
    pub ne: QuadTreeNode,
    pub sw: QuadTreeNode,
    pub se: QuadTreeNode,
}

/// One region of the tree.
pub struct QuadTreeNode {
    pub rect: Rect,
    pub lod: u8,
    pub x: u32,
    pub y: u32,
    /// The pooled renderable currently showing this region, if any.
    pub resource: Option<Handle>,
    /// Whether the renderable has received its loaded tile content.
    pub loaded: bool,
    /// Exactly zero or four children ever exist.
    pub children: Option<Box<QuadTreeChildren>>,
}

/// How a child's identity and placement derive from its parent:
/// depth one deeper, grid coordinates doubled plus the quarter bit,
/// and the center shifted a quarter of the parent's side.
pub open spec fn child_frame(parent: QuadTreeNode, child: QuadTreeNode, bx: int, by: int) -> bool {
    &&& child.lod == parent.lod + 1
    &&& child.x == 2 * parent.x + bx
    &&& child.y == 2 * parent.y + by
    &&& 2 * child.rect.half.x == parent.rect.half.x
    &&& 2 * child.rect.half.y == parent.rect.half.y
    &&& child.rect.center.x == (if bx == 0 {
        parent.rect.center.x - child.rect.half.x
    } else {
        parent.rect.center.x + child.rect.half.x
    })
    &&& child.rect.center.y == (if by == 0 {
        parent.rect.center.y - child.rect.half.y
    } else {
        parent.rect.center.y + child.rect.half.y
    })
}

/// The leaf a subdivision creates for one quarter of `parent`.
pub open spec fn fresh_child(parent: QuadTreeNode, bx: int, by: int) -> QuadTreeNode {
    QuadTreeNode {
        rect: Rect {
            center: Vec2i {
                x: (if bx == 0 {
                    parent.rect.center.x - parent.rect.half.x / 2
                } else {
                    parent.rect.center.x + parent.rect.half.x / 2
                }) as i64,
                y: (if by == 0 {
                    parent.rect.center.y - parent.rect.half.y / 2
                } else {
                    parent.rect.center.y + parent.rect.half.y / 2
                }) as i64,
            },
            half: Vec2i { x: (parent.rect.half.x / 2) as i64, y: (parent.rect.half.y / 2) as i64 },
        },
        lod: (parent.lod + 1) as u8,
        x: (2 * parent.x + bx) as u32,
        y: (2 * parent.y + by) as u32,
        resource: None,
        loaded: false,
        children: None,
    }
}

impl QuadTreeNode {
    /// Structural soundness against `config`: depth in range, extents
    /// exact for the depth, grid coordinates in range, no node both
    /// split and showing a resource, and children placed exactly on
    /// the parent's quarters.
    pub open spec fn wf(self, config: QuadTreeConfig) -> bool
        decreases self,
    {
        &&& self.lod <= config.max_lod
        &&& self.rect.half.x == config.half_extent(self.lod as int)
        &&& self.rect.half.y == config.half_extent(self.lod as int)
        &&& self.rect.in_bounds()
        &&& (self.x as nat) < pow2(self.lod as nat)
        &&& (self.y as nat) < pow2(self.lod as nat)
        &&& (self.loaded ==> self.resource is Some)
        &&& match self.children {
            None => true,
            Some(c) => {
                &&& self.resource is None
                &&& self.lod < config.max_lod
                &&& child_frame(self, c.nw, 0, 0)
                &&& child_frame(self, c.ne, 1, 0)
                &&& child_frame(self, c.sw, 0, 1)
                &&& child_frame(self, c.se, 1, 1)
                &&& c.nw.wf(config)
                &&& c.ne.wf(config)
                &&& c.sw.wf(config)
                &&& c.se.wf(config)
            },
        }
    }

    /// The tile this node's content comes from, in the tree's own
    /// addressing: depth for zoom, grid coordinates for position.
    pub open spec fn spec_tile(self) -> TileId {
        TileId { x: self.x, y: self.y, zoom: self.lod }
    }

    /// A region reports ready when its own renderable has loaded
    /// content, or, if split, when all four quarters do.
    pub open spec fn ready(self) -> bool
        decreases self,
    {
        match self.children {
            Some(c) => c.nw.ready() && c.ne.ready() && c.sw.ready() && c.se.ready(),
            None => self.resource is Some && self.loaded,
        }
    }

    /// The subtree holds handle `h`.
    pub open spec fn res_in(self, h: Handle) -> bool
        decreases self,
    {
        ||| self.resource == Some(h)
        ||| match self.children {
            Some(c) => c.nw.res_in(h) || c.ne.res_in(h) || c.sw.res_in(h) || c.se.res_in(h),
            None => false,
        }
    }

    /// How many resources the subtree holds.
    pub open spec fn res_count(self) -> int
        decreases self,
    {
        (if self.resource is Some {
            1int
        } else {
            0int
        }) + match self.children {
            Some(c) => c.nw.res_count() + c.ne.res_count() + c.sw.res_count() + c.se.res_count(),
            None => 0int,
        }
    }

    /// Every handle the subtree holds is live in `pool`.
    pub open spec fn res_ok(self, pool: ResourcePool) -> bool {
        forall|h: Handle| #[trigger] self.res_in(h) ==> pool.is_live(h)
    }

    /// No handle appears twice in the subtree.
    pub open spec fn res_distinct(self) -> bool
        decreases self,
    {
        match self.children {
            None => true,
            Some(c) => {
                &&& forall|h: Handle|
                    #[trigger] self.resource == Some(h)
                        ==> !(c.nw.res_in(h) || c.ne.res_in(h) || c.sw.res_in(h) || c.se.res_in(
                        h,
                    ))
                &&& forall|h: Handle| #[trigger] c.nw.res_in(h) ==> !c.ne.res_in(h)
                &&& forall|h: Handle| #[trigger] c.nw.res_in(h) ==> !c.sw.res_in(h)
                &&& forall|h: Handle| #[trigger] c.nw.res_in(h) ==> !c.se.res_in(h)
                &&& forall|h: Handle| #[trigger] c.ne.res_in(h) ==> !c.sw.res_in(h)
                &&& forall|h: Handle| #[trigger] c.ne.res_in(h) ==> !c.se.res_in(h)
                &&& forall|h: Handle| #[trigger] c.sw.res_in(h) ==> !c.se.res_in(h)
                &&& c.nw.res_distinct()
                &&& c.ne.res_distinct()
                &&& c.sw.res_distinct()
                &&& c.se.res_distinct()
            },
        }
    }

    /// A fresh root leaf at depth zero around `center`.
    pub fn new(config: &QuadTreeConfig, center: Vec2i) -> (n: QuadTreeNode)
        requires
            config.wf(),
            -COORD_LIMIT / 2 <= center.x <= COORD_LIMIT / 2,
            -COORD_LIMIT / 2 <= center.y <= COORD_LIMIT / 2,
        ensures
            n.wf(*config),
            n.lod == 0,
            n.x == 0,
            n.y == 0,
            n.rect.center == center,
            n.children is None,
            n.resource is None,
            !n.loaded,
            !n.ready(),
            n.res_count() == 0,
            forall|h: Handle| !n.res_in(h),
            n.res_distinct(),
    {
        proof {
            lemma_half_extent(*config, 0);
            lemma_pow2_pos(0);
        }
        let half = (config.size / 2) as i64;
        proof {
            assert(half == config.half_extent(0));
        }
        QuadTreeNode {
            rect: Rect { center, half: Vec2i { x: half, y: half } },
            lod: 0,
            x: 0,
            y: 0,
            resource: None,
            loaded: false,
            children: None,
        }
    }

    /// Splits a bare leaf into its four quarters, all fresh unloaded
    /// leaves; nothing else about the node changes.
    fn subdivide(&mut self, config: &QuadTreeConfig)
        requires
            config.wf(),
            old(self).wf(*config),
            old(self).children is None,
            old(self).resource is None,
            old(self).lod < config.max_lod,
        ensures
            final(self).wf(*config),
            final(self).rect == old(self).rect,
            final(self).lod == old(self).lod,
            final(self).x == old(self).x,
            final(self).y == old(self).y,
            final(self).resource is None,
            final(self).loaded == old(self).loaded,
            final(self).children matches Some(c) && {
                &&& c.nw == fresh_child(*old(self), 0, 0)
                &&& c.ne == fresh_child(*old(self), 1, 0)
                &&& c.sw == fresh_child(*old(self), 0, 1)
                &&& c.se == fresh_child(*old(self), 1, 1)
            },
            !final(self).ready(),
            final(self).res_count() == old(self).res_count(),
            forall|h: Handle| final(self).res_in(h) == old(self).res_in(h),
            final(self).res_distinct(),
    {
        proof {
            lemma_half_extent(*config, self.lod as int);
            lemma_half_extent(*config, self.lod as int + 1);
            lemma_pow2_adds(self.lod as nat, 1);
            lemma2_to64();
            assert(pow2((self.lod + 1) as nat) == pow2(self.lod as nat) * 2);
            assert(pow2(self.lod as nat) <= pow2(26)) by {
                if (self.lod as nat) < 26 {
                    lemma_pow2_strictly_increases(self.lod as nat, 26);
                }
            }
        }
        let hx = self.rect.half.x / 2;
        let hy = self.rect.half.y / 2;
        proof {
            let he1 = config.half_extent(self.lod as int + 1);
            lemma_div_multiples_vanish(he1, 2);
            assert(self.rect.half.x == 2 * he1);
            assert(hx == (2 * he1) / 2);
            assert(hx == he1);
            assert(hy == he1);
        }
        let cx = self.rect.center.x;
        let cy = self.rect.center.y;
        let lod = self.lod + 1;
        let nw = QuadTreeNode {
            rect: Rect { center: Vec2i { x: cx - hx, y: cy - hy }, half: Vec2i { x: hx, y: hy } },
            lod,
            x: 2 * self.x,
            y: 2 * self.y,
            resource: None,
            loaded: false,
            children: None,
        };
        let ne = QuadTreeNode {
            rect: Rect { center: Vec2i { x: cx + hx, y: cy - hy }, half: Vec2i { x: hx, y: hy } },
            lod,
            x: 2 * self.x + 1,
            y: 2 * self.y,
            resource: None,
            loaded: false,
            children: None,
        };
        let sw = QuadTreeNode {
            rect: Rect { center: Vec2i { x: cx - hx, y: cy + hy }, half: Vec2i { x: hx, y: hy } },
            lod,
            x: 2 * self.x,
            y: 2 * self.y + 1,
            resource: None,
            loaded: false,
            children: None,
        };
        let se = QuadTreeNode {
            rect: Rect { center: Vec2i { x: cx + hx, y: cy + hy }, half: Vec2i { x: hx, y: hy } },
            lod,
            x: 2 * self.x + 1,
            y: 2 * self.y + 1,
            resource: None,
            loaded: false,
            children: None,
        };
        self.children = Some(Box::new(QuadTreeChildren { nw, ne, sw, se }));
        proof {
            let cc = self.children.unwrap();
            assert(child_frame(*self, cc.nw, 0, 0));
            assert(child_frame(*self, cc.ne, 1, 0));
            assert(child_frame(*self, cc.sw, 0, 1));
            assert(child_frame(*self, cc.se, 1, 1));
            assert(cc.nw.wf(*config));
            assert(cc.ne.wf(*config));
            assert(cc.sw.wf(*config));
            assert(cc.se.wf(*config));
            assert(self.wf(*config));
            assert(cc.nw == fresh_child(*old(self), 0, 0));
            assert(cc.ne == fresh_child(*old(self), 1, 0));
            assert(cc.sw == fresh_child(*old(self), 0, 1));
            assert(cc.se == fresh_child(*old(self), 1, 1));
            assert(!cc.nw.ready() && !cc.ne.ready() && !cc.sw.ready() && !cc.se.ready());
            assert(!self.ready());
            assert(cc.nw.res_count() == 0 && cc.ne.res_count() == 0 && cc.sw.res_count() == 0
                && cc.se.res_count() == 0);
            assert(self.res_count() == old(self).res_count());
            assert forall|h: Handle| self.res_in(h) == old(self).res_in(h) by {
                assert(!cc.nw.res_in(h));
                assert(!cc.ne.res_in(h));
                assert(!cc.sw.res_in(h));
                assert(!cc.se.res_in(h));
            }
            assert(cc.nw.res_distinct() && cc.ne.res_distinct() && cc.sw.res_distinct()
                && cc.se.res_distinct());
            assert(self.res_distinct());
        }
    }

    /// Releases every resource in the subtree back to the pool — the
    /// node's own first, then each quarter's — and drops the children,
    /// reverting the node to a bare unloaded leaf.  Exactly the
    /// subtree's handles leave the live set; every other live handle
    /// is untouched.
    pub fn destruct(&mut self, pool: &mut ResourcePool)
        requires
            old(pool).wf(),
            old(self).res_ok(*old(pool)),
            old(self).res_distinct(),
        ensures
            final(pool).wf(),
            final(self).rect == old(self).rect,
            final(self).lod == old(self).lod,
            final(self).x == old(self).x,
            final(self).y == old(self).y,
            final(self).children is None,
            final(self).resource is None,
            !final(self).loaded,
            final(pool).next_id == old(pool).next_id,
            forall|g: Handle|
                final(pool).is_live(g) <==> (old(pool).is_live(g) && !old(self).res_in(g)),
            final(pool).live_count() == old(pool).live_count() - old(self).res_count(),
        decreases *old(self),
    {
        proof {
            assert(old(self).res_count() >= 0) by {
                lemma_res_count_nonneg(*old(self));
            }
        }
        if let Some(h) = self.resource {
            proof {
                assert(old(self).res_in(h));
            }
            pool.release(h);
            self.resource = None;
        }
        self.loaded = false;
        let ghost p1 = *pool;
        if let Some(mut c) = self.children.take() {
            let ghost c0 = *c;
            proof {
                assert(c == old(self).children.unwrap());
                assert(old(self).res_distinct());
                assert forall|g: Handle| c.nw.res_in(g) implies p1.is_live(g) by {
                    assert(old(self).res_in(g));
                }
            }
            c.nw.destruct(pool);
            let ghost p2 = *pool;
            proof {
                assert forall|g: Handle| c.ne.res_in(g) implies p2.is_live(g) by {
                    assert(old(self).res_in(g));
                    assert(!c.nw.res_in(g));
                }
            }
            c.ne.destruct(pool);
            let ghost p3 = *pool;
            proof {
                assert forall|g: Handle| c.sw.res_in(g) implies p3.is_live(g) by {
                    assert(old(self).res_in(g));
                    assert(!c.nw.res_in(g));
                    assert(!c.ne.res_in(g));
                }
            }
            c.sw.destruct(pool);
            let ghost p4 = *pool;
            proof {
                assert forall|g: Handle| c.se.res_in(g) implies p4.is_live(g) by {
                    assert(old(self).res_in(g));
                    assert(!c.nw.res_in(g));
                    assert(!c.ne.res_in(g));
                    assert(!c.sw.res_in(g));
                }
            }
            c.se.destruct(pool);
            proof {
                assert forall|g: Handle|
                    pool.is_live(g) <==> (old(pool).is_live(g) && !old(self).res_in(g)) by {
                    assert(old(self).res_in(g) == (old(self).resource == Some(g) || c0.nw.res_in(
                        g,
                    ) || c0.ne.res_in(g) || c0.sw.res_in(g) || c0.se.res_in(g)));
                }
            }
        } else {
            proof {
                assert forall|g: Handle|
                    pool.is_live(g) <==> (old(pool).is_live(g) && !old(self).res_in(g)) by {
                    assert(old(self).res_in(g) == (old(self).resource == Some(g)));
                }
            }
        }
    }
}

impl QuadTreeNode {
    /// Whether the walk wants this region one level finer: the view
    /// distance test, capped at the maximal depth, or the forced
    /// minimum depth.
    pub open spec fn increase_lod(self, config: QuadTreeConfig, ref_point: Vec3i) -> bool {
        (spec_should_subdivide(self.rect, ref_point, config.k_milli) && (self.lod as int)
            < config.max_lod) || (self.lod as int) < config.min_lod
    }

    /// The tile this node addresses.
    pub fn tile(&self) -> (t: TileId)
        ensures
            t == self.spec_tile(),
    {
        TileId { x: self.x, y: self.y, zoom: self.lod }
    }

    /// Whether the subtree reports itself fully loaded.
    pub fn is_ready(&self) -> (r: bool)
        ensures
            r == self.ready(),
        decreases *self,
    {
        match &self.children {
            Some(c) => c.nw.is_ready() && c.ne.is_ready() && c.sw.is_ready() && c.se.is_ready(),
            None => self.resource.is_some() && self.loaded,
        }
    }
}

/// Most nodes a walk starting at depth-distance `d` from the deepest
/// level can touch: one per level of the densest possible subtree.
pub open spec fn cap4(d: nat) -> nat
    decreases d,
{
    if d == 0 {
        1
    } else {
        1 + 4 * cap4((d - 1) as nat)
    }
}

pub proof fn lemma_cap4_pos(d: nat)
    ensures
        cap4(d) >= 1,
{
    if d == 0 {
        assert(cap4(0) == 1);
    } else {
        assert(cap4(d) == 1 + 4 * cap4((d - 1) as nat));
    }
}

/// How the walk grows a freshly created bare leaf: it either keeps
/// subdividing toward the reference point — every quarter again a
/// fresh leaf — or acquires a resource and stays a leaf.
#[verifier::opaque]
pub open spec fn grow_rel(
    pre: QuadTreeNode,
    post: QuadTreeNode,
    config: QuadTreeConfig,
    ref_point: Vec3i,
) -> bool
    decreases config.max_lod - pre.lod,
{
    let inc = pre.increase_lod(config, ref_point);
    &&& post.rect == pre.rect
    &&& post.lod == pre.lod
    &&& post.x == pre.x
    &&& post.y == pre.y
    &&& if inc && (pre.lod as int) < config.max_lod {
        &&& post.resource is None
        &&& !post.loaded
        &&& match post.children {
            Some(qc) => {
                &&& grow_rel(fresh_child(pre, 0, 0), qc.nw, config, ref_point)
                &&& grow_rel(fresh_child(pre, 1, 0), qc.ne, config, ref_point)
                &&& grow_rel(fresh_child(pre, 0, 1), qc.sw, config, ref_point)
                &&& grow_rel(fresh_child(pre, 1, 1), qc.se, config, ref_point)
            },
            None => false,
        }
    } else {
        &&& post.children is None
        &&& post.resource is Some
        &&& !post.loaded
    }
}

/// The load requests growing a fresh bare leaf produces, in walk
/// order.
#[verifier::opaque]
pub open spec fn grow_requests(
    pre: QuadTreeNode,
    config: QuadTreeConfig,
    ref_point: Vec3i,
) -> Seq<TileId>
    decreases config.max_lod - pre.lod,
{
    let inc = pre.increase_lod(config, ref_point);
    if inc && (pre.lod as int) < config.max_lod {
        grow_requests(fresh_child(pre, 0, 0), config, ref_point) + grow_requests(
            fresh_child(pre, 1, 0),
            config,
            ref_point,
        ) + grow_requests(fresh_child(pre, 0, 1), config, ref_point) + grow_requests(
            fresh_child(pre, 1, 1),
            config,
            ref_point,
        )
    } else {
        seq![pre.spec_tile()]
    }
}

/// How one update walk transforms a node: the exact relation between
/// the tree before and after.  Subdividing releases the node's own
/// resource and steps into all four quarters (fresh ones if the node
/// was a leaf); a subdivided node whose quarters are not all ready
/// stays subdivided and steps into them; one whose quarters are all
/// ready collapses back to a leaf and re-acquires its own resource;
/// a leaf keeps its resource or acquires one.  Everything except the
/// identity of newly acquired handles is pinned.
#[verifier::opaque]
pub open spec fn step_rel(
    pre: QuadTreeNode,
    post: QuadTreeNode,
    config: QuadTreeConfig,
    ref_point: Vec3i,
) -> bool
    decreases pre,
{
    let inc = pre.increase_lod(config, ref_point);
    &&& post.rect == pre.rect
    &&& post.lod == pre.lod
    &&& post.x == pre.x
    &&& post.y == pre.y
    &&& if inc && (pre.lod as int) < config.max_lod {
        &&& post.resource is None
        &&& !post.loaded
        &&& match (pre.children, post.children) {
            (Some(pc), Some(qc)) => {
                &&& step_rel(pc.nw, qc.nw, config, ref_point)
                &&& step_rel(pc.ne, qc.ne, config, ref_point)
                &&& step_rel(pc.sw, qc.sw, config, ref_point)
                &&& step_rel(pc.se, qc.se, config, ref_point)
            },
            (None, Some(qc)) => {
                &&& grow_rel(fresh_child(pre, 0, 0), qc.nw, config, ref_point)
                &&& grow_rel(fresh_child(pre, 1, 0), qc.ne, config, ref_point)
                &&& grow_rel(fresh_child(pre, 0, 1), qc.sw, config, ref_point)
                &&& grow_rel(fresh_child(pre, 1, 1), qc.se, config, ref_point)
            },
            _ => false,
        }
    } else if pre.children is Some && !pre.ready() {
        &&& post.resource is None
        &&& !post.loaded
        &&& match (pre.children, post.children) {
            (Some(pc), Some(qc)) => {
                &&& step_rel(pc.nw, qc.nw, config, ref_point)
                &&& step_rel(pc.ne, qc.ne, config, ref_point)
                &&& step_rel(pc.sw, qc.sw, config, ref_point)
                &&& step_rel(pc.se, qc.se, config, ref_point)
            },
            _ => false,
        }
    } else if pre.children is Some && pre.ready() {
        &&& post.children is None
        &&& post.resource is Some
        &&& !post.loaded
    } else {
        &&& post.children is None
        &&& if pre.resource is Some {
            post.resource == pre.resource && post.loaded == pre.loaded
        } else {
            post.resource is Some && !post.loaded
        }
    }
}

/// The tiles one update walk requests background loads for, in walk
/// order: one request for every leaf it equips with a resource,
/// including the nodes it collapses back into leaves.
#[verifier::opaque]
pub open spec fn spawned_requests(
    pre: QuadTreeNode,
    config: QuadTreeConfig,
    ref_point: Vec3i,
) -> Seq<TileId>
    decreases pre,
{
    let inc = pre.increase_lod(config, ref_point);
    if inc && (pre.lod as int) < config.max_lod {
        match pre.children {
            Some(pc) => spawned_requests(pc.nw, config, ref_point) + spawned_requests(
                pc.ne,
                config,
                ref_point,
            ) + spawned_requests(pc.sw, config, ref_point) + spawned_requests(
                pc.se,
                config,
                ref_point,
            ),
            None => grow_requests(fresh_child(pre, 0, 0), config, ref_point) + grow_requests(
                fresh_child(pre, 1, 0),
                config,
                ref_point,
            ) + grow_requests(fresh_child(pre, 0, 1), config, ref_point) + grow_requests(
                fresh_child(pre, 1, 1),
                config,
                ref_point,
            ),
        }
    } else if pre.children is Some && !pre.ready() {
        match pre.children {
            Some(pc) => spawned_requests(pc.nw, config, ref_point) + spawned_requests(
                pc.ne,
                config,
                ref_point,
            ) + spawned_requests(pc.sw, config, ref_point) + spawned_requests(
                pc.se,
                config,
                ref_point,
            ),
            None => Seq::empty(),
        }
    } else if pre.children is Some && pre.ready() {
        seq![pre.spec_tile()]
    } else if pre.resource is Some {
        Seq::empty()
    } else {
        seq![pre.spec_tile()]
    }
}

/// On a bare unloaded leaf the walk relation and the growth relation
/// agree, and so do their request lists.
pub proof fn lemma_bare_step_is_grow(
    pre: QuadTreeNode,
    post: QuadTreeNode,
    config: QuadTreeConfig,
    ref_point: Vec3i,
)
    requires
        config.wf(),
        pre.lod <= config.max_lod,
        pre.children is None,
        pre.resource is None,
        !pre.loaded,
        step_rel(pre, post, config, ref_point),
    ensures
        grow_rel(pre, post, config, ref_point),
        spawned_requests(pre, config, ref_point) == grow_requests(pre, config, ref_point),
{
    reveal(step_rel);
    reveal(grow_rel);
    reveal(spawned_requests);
    reveal(grow_requests);
    let inc = pre.increase_lod(config, ref_point);
    if inc {
        assert((pre.lod as int) < config.max_lod);
    } else {
        assert(!pre.ready());
    }
}

/// A subtree never holds negatively many resources.
pub proof fn lemma_res_count_nonneg(node: QuadTreeNode)
    ensures
        node.res_count() >= 0,
    decreases node,
{
    match node.children {
        Some(c) => {
            lemma_res_count_nonneg(c.nw);
            lemma_res_count_nonneg(c.ne);
            lemma_res_count_nonneg(c.sw);
            lemma_res_count_nonneg(c.se);
        },
        None => {},
    }
}

impl QuadTreeNode {
    /// Steps the walk into all four quarters in order, leaving the
    /// node itself untouched.
    fn step_children(
        &mut self,
        config: &QuadTreeConfig,
        pool: &mut ResourcePool,
        loads: &mut Vec<TileId>,
        ref_point: Vec3i,
    )
        requires
            config.wf(),
            old(self).wf(*config),
            old(self).children is Some,
            old(self).resource is None,
            old(pool).wf(),
            old(self).res_ok(*old(pool)),
            old(self).res_distinct(),
            -COORD_LIMIT <= ref_point.x <= COORD_LIMIT,
            -COORD_LIMIT <= ref_point.y <= COORD_LIMIT,
            -COORD_LIMIT <= ref_point.z <= COORD_LIMIT,
            old(pool).next_id + 4 * cap4((config.max_lod - old(self).lod - 1) as nat)
                <= u64::MAX,
        ensures
            final(self).wf(*config),
            final(pool).wf(),
            final(self).res_ok(*final(pool)),
            final(self).res_distinct(),
            final(self).rect == old(self).rect,
            final(self).lod == old(self).lod,
            final(self).x == old(self).x,
            final(self).y == old(self).y,
            final(self).resource is None,
            final(self).loaded == old(self).loaded,
            final(self).children is Some,
            ({
                let pc = old(self).children.unwrap();
                let qc = final(self).children.unwrap();
                &&& step_rel(pc.nw, qc.nw, *config, ref_point)
                &&& step_rel(pc.ne, qc.ne, *config, ref_point)
                &&& step_rel(pc.sw, qc.sw, *config, ref_point)
                &&& step_rel(pc.se, qc.se, *config, ref_point)
            }),
            ({
                let pc = old(self).children.unwrap();
                final(loads)@ == old(loads)@ + spawned_requests(pc.nw, *config, ref_point)
                    + spawned_requests(pc.ne, *config, ref_point) + spawned_requests(
                    pc.sw,
                    *config,
                    ref_point,
                ) + spawned_requests(pc.se, *config, ref_point)
            }),
            forall|g: Handle|
                old(pool).is_live(g) && !old(self).res_in(g) ==> final(pool).is_live(g)
                    && !final(self).res_in(g),
            forall|g: Handle|
                final(pool).is_live(g) ==> old(pool).is_live(g) || final(self).res_in(g),
            forall|g: Handle|
                final(self).res_in(g) ==> old(self).res_in(g) || !old(pool).is_live(g),
            final(pool).live_count() - old(pool).live_count() == final(self).res_count() - old(
                self,
            ).res_count(),
            old(pool).next_id <= final(pool).next_id,
            final(pool).next_id <= old(pool).next_id + 4 * cap4(
                (config.max_lod - old(self).lod - 1) as nat,
            ),
        decreases (config.max_lod - old(self).lod) as int, 0int,
    {
        let ghost p0 = *old(pool);
        let ghost l0 = old(loads)@;
        proof {
            assert(old(self).lod < config.max_lod);
        }
        if let Some(mut c) = self.children.take() {
            let ghost c0 = *c;
            proof {
                assert(c == old(self).children.unwrap());
                assert forall|g: Handle|
                    old(self).res_in(g) == (c0.nw.res_in(g) || c0.ne.res_in(g) || c0.sw.res_in(
                        g,
                    ) || c0.se.res_in(g)) by {}
                assert forall|g: Handle| c0.nw.res_in(g) implies pool.is_live(g) by {
                    assert(old(self).res_in(g));
                }
            }
            c.nw.build_around_point(config, pool, loads, ref_point);
            let ghost p1 = *pool;
            let ghost q1 = c.nw;
            proof {
                assert forall|g: Handle| c0.ne.res_in(g) implies p1.is_live(g)
                    && !q1.res_in(g) by {
                    assert(old(self).res_in(g));
                    assert(p0.is_live(g));
                    assert(!c0.nw.res_in(g));
                }
            }
            c.ne.build_around_point(config, pool, loads, ref_point);
            let ghost p2 = *pool;
            let ghost q2 = c.ne;
            proof {
                assert forall|g: Handle| c0.sw.res_in(g) implies p2.is_live(g)
                    && !q2.res_in(g) by {
                    assert(old(self).res_in(g));
                    assert(p0.is_live(g));
                    assert(!c0.nw.res_in(g));
                    assert(!c0.ne.res_in(g));
                    assert(p1.is_live(g) && !q1.res_in(g));
                }
            }
            c.sw.build_around_point(config, pool, loads, ref_point);
            let ghost p3 = *pool;
            let ghost q3 = c.sw;
            proof {
                assert forall|g: Handle| c0.se.res_in(g) implies p3.is_live(g)
                    && !q3.res_in(g) by {
                    assert(old(self).res_in(g));
                    assert(p0.is_live(g));
                    assert(!c0.nw.res_in(g));
                    assert(!c0.ne.res_in(g));
                    assert(!c0.sw.res_in(g));
                    assert(p1.is_live(g) && !q1.res_in(g));
                    assert(p2.is_live(g) && !q2.res_in(g));
                }
            }
            c.se.build_around_point(config, pool, loads, ref_point);
            let ghost p4 = *pool;
            let ghost q4 = c.se;
            self.children = Some(c);
            proof {
                assert(self.children.unwrap().nw == q1);
                assert forall|g: Handle|
                    self.res_in(g) == (q1.res_in(g) || q2.res_in(g) || q3.res_in(g)
                        || q4.res_in(g)) by {}
                // a handle settled by an earlier quarter stays live and
                // out of the later quarters
                assert forall|g: Handle| q1.res_in(g) implies p4.is_live(g) && !q2.res_in(g)
                    && !q3.res_in(g) && !q4.res_in(g) by {
                    assert(p1.is_live(g));
                    assert(!c0.ne.res_in(g)) by {
                        if c0.ne.res_in(g) {
                            assert(p0.is_live(g));
                            assert(c0.nw.res_in(g) || !p0.is_live(g));
                            assert(false);
                        }
                    }
                    assert(p2.is_live(g) && !q2.res_in(g));
                    assert(!c0.sw.res_in(g)) by {
                        if c0.sw.res_in(g) {
                            assert(p0.is_live(g));
                            assert(c0.nw.res_in(g) || !p0.is_live(g));
                            assert(false);
                        }
                    }
                    assert(p3.is_live(g) && !q3.res_in(g));
                    assert(!c0.se.res_in(g)) by {
                        if c0.se.res_in(g) {
                            assert(p0.is_live(g));
                            assert(c0.nw.res_in(g) || !p0.is_live(g));
                            assert(false);
                        }
                    }
                    assert(p4.is_live(g) && !q4.res_in(g));
                }
                assert forall|g: Handle| q2.res_in(g) implies p4.is_live(g) && !q3.res_in(g)
                    && !q4.res_in(g) by {
                    assert(p2.is_live(g));
                    assert(!c0.sw.res_in(g)) by {
                        if c0.sw.res_in(g) {
                            assert(p0.is_live(g));
                            assert(!c0.nw.res_in(g));
                            assert(p1.is_live(g));
                            assert(c0.ne.res_in(g) || !p1.is_live(g));
                            assert(false);
                        }
                    }
                    assert(p3.is_live(g) && !q3.res_in(g));
                    assert(!c0.se.res_in(g)) by {
                        if c0.se.res_in(g) {
                            assert(p0.is_live(g));
                            assert(!c0.nw.res_in(g));
                            assert(p1.is_live(g));
                            assert(c0.ne.res_in(g) || !p1.is_live(g));
                            assert(false);
                        }
                    }
                    assert(p4.is_live(g) && !q4.res_in(g));
                }
                assert forall|g: Handle| q3.res_in(g) implies p4.is_live(g)
                    && !q4.res_in(g) by {
                    assert(p3.is_live(g));
                    assert(!c0.se.res_in(g)) by {
                        if c0.se.res_in(g) {
                            assert(p0.is_live(g));
                            assert(!c0.nw.res_in(g));
                            assert(!c0.ne.res_in(g));
                            assert(p1.is_live(g));
                            assert(p2.is_live(g));
                            assert(c0.sw.res_in(g) || !p2.is_live(g));
                            assert(false);
                        }
                    }
                    assert(p4.is_live(g) && !q4.res_in(g));
                }
                assert(self.res_ok(*pool));
                assert(self.res_distinct());
                assert forall|g: Handle|
                    p0.is_live(g) && !old(self).res_in(g) implies pool.is_live(g)
                        && !self.res_in(g) by {
                    assert(!c0.nw.res_in(g) && !c0.ne.res_in(g) && !c0.sw.res_in(g)
                        && !c0.se.res_in(g));
                    assert(p1.is_live(g) && !q1.res_in(g));
                    assert(p2.is_live(g) && !q2.res_in(g));
                    assert(p3.is_live(g) && !q3.res_in(g));
                    assert(p4.is_live(g) && !q4.res_in(g));
                }
                assert forall|g: Handle|
                    pool.is_live(g) implies p0.is_live(g) || self.res_in(g) by {
                    if !q4.res_in(g) && p3.is_live(g) {
                        if !q3.res_in(g) && p2.is_live(g) {
                            if !q2.res_in(g) && p1.is_live(g) {
                            }
                        }
                    }
                }
                assert forall|g: Handle|
                    self.res_in(g) implies old(self).res_in(g) || !p0.is_live(g) by {
                    if p0.is_live(g) && !old(self).res_in(g) {
                        assert(p1.is_live(g) && !q1.res_in(g));
                        assert(p2.is_live(g) && !q2.res_in(g));
                        assert(p3.is_live(g) && !q3.res_in(g));
                        assert(p4.is_live(g) && !q4.res_in(g));
                    }
                }
                assert(self.res_count() == q1.res_count() + q2.res_count() + q3.res_count()
                    + q4.res_count());
                assert(old(self).res_count() == c0.nw.res_count() + c0.ne.res_count()
                    + c0.sw.res_count() + c0.se.res_count());
                assert(q1.rect == c0.nw.rect && q1.lod == c0.nw.lod && q1.x == c0.nw.x
                    && q1.y == c0.nw.y) by {
                    reveal(step_rel);
                }
                assert(q2.rect == c0.ne.rect && q2.lod == c0.ne.lod && q2.x == c0.ne.x
                    && q2.y == c0.ne.y) by {
                    reveal(step_rel);
                }
                assert(q3.rect == c0.sw.rect && q3.lod == c0.sw.lod && q3.x == c0.sw.x
                    && q3.y == c0.sw.y) by {
                    reveal(step_rel);
                }
                assert(q4.rect == c0.se.rect && q4.lod == c0.se.lod && q4.x == c0.se.x
                    && q4.y == c0.se.y) by {
                    reveal(step_rel);
                }
                assert(child_frame(*self, q1, 0, 0));
                assert(child_frame(*self, q2, 1, 0));
                assert(child_frame(*self, q3, 0, 1));
                assert(child_frame(*self, q4, 1, 1));
                assert(self.wf(*config));
            }
        } else {
            proof {
                assert(false);
            }
        }
    }
}

impl QuadTreeNode {
    /// One update walk over the subtree: subdivides toward the
    /// reference point, collapses what it has left behind once the
    /// replacement content is ready, keeps loaned resources exactly
    /// where the policy says, and appends one load request for every
    /// leaf it newly equips.  The whole transformation is pinned by
    /// `step_rel` and `spawned_requests`; the pool loses exactly the
    /// released handles and gains exactly the newly acquired ones.
    pub fn build_around_point(
        &mut self,
        config: &QuadTreeConfig,
        pool: &mut ResourcePool,
        loads: &mut Vec<TileId>,
        ref_point: Vec3i,
    )
        requires
            config.wf(),
            old(self).wf(*config),
            old(pool).wf(),
            old(self).res_ok(*old(pool)),
            old(self).res_distinct(),
            -COORD_LIMIT <= ref_point.x <= COORD_LIMIT,
            -COORD_LIMIT <= ref_point.y <= COORD_LIMIT,
            -COORD_LIMIT <= ref_point.z <= COORD_LIMIT,
            old(pool).next_id + cap4((config.max_lod - old(self).lod) as nat) <= u64::MAX,
        ensures
            final(self).wf(*config),
            final(pool).wf(),
            final(self).res_ok(*final(pool)),
            final(self).res_distinct(),
            step_rel(*old(self), *final(self), *config, ref_point),
            final(loads)@ == old(loads)@ + spawned_requests(*old(self), *config, ref_point),
            forall|g: Handle|
                old(pool).is_live(g) && !old(self).res_in(g) ==> final(pool).is_live(g)
                    && !final(self).res_in(g),
            forall|g: Handle|
                final(pool).is_live(g) ==> old(pool).is_live(g) || final(self).res_in(g),
            forall|g: Handle|
                final(self).res_in(g) ==> old(self).res_in(g) || !old(pool).is_live(g),
            final(pool).live_count() - old(pool).live_count() == final(self).res_count() - old(
                self,
            ).res_count(),
            old(pool).next_id <= final(pool).next_id,
            final(pool).next_id <= old(pool).next_id + cap4(
                (config.max_lod - old(self).lod) as nat,
            ),
        decreases (config.max_lod - old(self).lod) as int, 3int,
    {
        let inc = (should_subdivide(self.rect, ref_point, config.k_milli) && self.lod
            < config.max_lod) || self.lod < config.min_lod;
        proof {
            assert(inc == old(self).increase_lod(*config, ref_point));
        }
        if inc {
            self.walk_finer(config, pool, loads, ref_point);
        } else {
            self.walk_keep(config, pool, loads, ref_point);
        }
    }

    /// The walk on a node that wants finer detail: sheds its own
    /// resource, splits if needed, and steps into the quarters.
    #[verifier::rlimit(100)]
    fn walk_finer(
        &mut self,
        config: &QuadTreeConfig,
        pool: &mut ResourcePool,
        loads: &mut Vec<TileId>,
        ref_point: Vec3i,
    )
        requires
            config.wf(),
            old(self).wf(*config),
            old(pool).wf(),
            old(self).res_ok(*old(pool)),
            old(self).res_distinct(),
            -COORD_LIMIT <= ref_point.x <= COORD_LIMIT,
            -COORD_LIMIT <= ref_point.y <= COORD_LIMIT,
            -COORD_LIMIT <= ref_point.z <= COORD_LIMIT,
            old(pool).next_id + cap4((config.max_lod - old(self).lod) as nat) <= u64::MAX,
            old(self).increase_lod(*config, ref_point),
        ensures
            final(self).wf(*config),
            final(pool).wf(),
            final(self).res_ok(*final(pool)),
            final(self).res_distinct(),
            step_rel(*old(self), *final(self), *config, ref_point),
            final(loads)@ == old(loads)@ + spawned_requests(*old(self), *config, ref_point),
            forall|g: Handle|
                old(pool).is_live(g) && !old(self).res_in(g) ==> final(pool).is_live(g)
                    && !final(self).res_in(g),
            forall|g: Handle|
                final(pool).is_live(g) ==> old(pool).is_live(g) || final(self).res_in(g),
            forall|g: Handle|
                final(self).res_in(g) ==> old(self).res_in(g) || !old(pool).is_live(g),
            final(pool).live_count() - old(pool).live_count() == final(self).res_count() - old(
                self,
            ).res_count(),
            old(pool).next_id <= final(pool).next_id,
            final(pool).next_id <= old(pool).next_id + cap4(
                (config.max_lod - old(self).lod) as nat,
            ),
        decreases (config.max_lod - old(self).lod) as int, 2int,
    {
        let ghost l0 = old(loads)@;
        let ghost d = (config.max_lod - old(self).lod) as nat;
        proof {
            lemma_cap4_pos(d);
            assert(self.lod < config.max_lod);
        }
        if self.children.is_some() {
            proof {
                assert(cap4(d) == 1 + 4 * cap4((d - 1) as nat));
                assert(old(self).resource is None);
            }
            self.step_children(config, pool, loads, ref_point);
            proof {
                reveal(step_rel);
                reveal(spawned_requests);
                assert(step_rel(*old(self), *self, *config, ref_point));
                assert(loads@ == l0 + spawned_requests(*old(self), *config, ref_point));
            }
        } else {
            self.walk_grow(config, pool, loads, ref_point);
        }
    }

    /// The walk on a leaf that wants finer detail: it sheds its own
    /// resource, splits into four fresh quarters and grows them.
    #[verifier::rlimit(100)]
    fn walk_grow(
        &mut self,
        config: &QuadTreeConfig,
        pool: &mut ResourcePool,
        loads: &mut Vec<TileId>,
        ref_point: Vec3i,
    )
        requires
            config.wf(),
            old(self).wf(*config),
            old(pool).wf(),
            old(self).res_ok(*old(pool)),
            old(self).res_distinct(),
            -COORD_LIMIT <= ref_point.x <= COORD_LIMIT,
            -COORD_LIMIT <= ref_point.y <= COORD_LIMIT,
            -COORD_LIMIT <= ref_point.z <= COORD_LIMIT,
            old(pool).next_id + cap4((config.max_lod - old(self).lod) as nat) <= u64::MAX,
            old(self).increase_lod(*config, ref_point),
            old(self).children is None,
        ensures
            final(self).wf(*config),
            final(pool).wf(),
            final(self).res_ok(*final(pool)),
            final(self).res_distinct(),
            step_rel(*old(self), *final(self), *config, ref_point),
            final(loads)@ == old(loads)@ + spawned_requests(*old(self), *config, ref_point),
            forall|g: Handle|
                old(pool).is_live(g) && !old(self).res_in(g) ==> final(pool).is_live(g)
                    && !final(self).res_in(g),
            forall|g: Handle|
                final(pool).is_live(g) ==> old(pool).is_live(g) || final(self).res_in(g),
            forall|g: Handle|
                final(self).res_in(g) ==> old(self).res_in(g) || !old(pool).is_live(g),
            final(pool).live_count() - old(pool).live_count() == final(self).res_count() - old(
                self,
            ).res_count(),
            old(pool).next_id <= final(pool).next_id,
            final(pool).next_id <= old(pool).next_id + cap4(
                (config.max_lod - old(self).lod) as nat,
            ),
        decreases (config.max_lod - old(self).lod) as int, 1int,
    {
        let ghost p0 = *old(pool);
        let ghost l0 = old(loads)@;
        let ghost d = (config.max_lod - old(self).lod) as nat;
        proof {
            lemma_cap4_pos(d);
            assert(old(self).lod < config.max_lod);
            assert(cap4(d) == 1 + 4 * cap4((d - 1) as nat));
        }
        if let Some(h) = self.resource {
            proof {
                assert(old(self).res_in(h));
            }
            pool.release(h);
            self.resource = None;
            self.loaded = false;
        }
        let ghost pr = *pool;
        let ghost sr = *self;
        proof {
            assert forall|g: Handle| sr.res_in(g) implies pr.is_live(g) by {
                assert(old(self).res_in(g));
                assert(old(self).resource != Some(g));
            }
            assert(sr.res_distinct());
            assert(sr.wf(*config));
        }
            self.subdivide(config);
            let ghost sd = *self;
            proof {
                assert(sd.wf(*config));
                assert forall|g: Handle| sd.res_in(g) implies pr.is_live(g) by {
                    assert(sr.res_in(g));
                }
            }
            self.step_children(config, pool, loads, ref_point);
            proof {
                reveal(step_rel);
                reveal(spawned_requests);
                let cc = sd.children.unwrap();
                let qc = self.children.unwrap();
                assert(cc.nw == fresh_child(*old(self), 0, 0));
                assert(cc.ne == fresh_child(*old(self), 1, 0));
                assert(cc.sw == fresh_child(*old(self), 0, 1));
                assert(cc.se == fresh_child(*old(self), 1, 1));
                lemma_bare_step_is_grow(cc.nw, qc.nw, *config, ref_point);
                lemma_bare_step_is_grow(cc.ne, qc.ne, *config, ref_point);
                lemma_bare_step_is_grow(cc.sw, qc.sw, *config, ref_point);
                lemma_bare_step_is_grow(cc.se, qc.se, *config, ref_point);
                assert(step_rel(*old(self), *self, *config, ref_point));
                assert(spawned_requests(*old(self), *config, ref_point) == grow_requests(
                    cc.nw,
                    *config,
                    ref_point,
                ) + grow_requests(cc.ne, *config, ref_point) + grow_requests(
                    cc.sw,
                    *config,
                    ref_point,
                ) + grow_requests(cc.se, *config, ref_point));
                assert(loads@ == l0 + spawned_requests(*old(self), *config, ref_point));
                assert forall|g: Handle|
                    p0.is_live(g) && !old(self).res_in(g) implies pool.is_live(g)
                        && !self.res_in(g) by {
                    assert(pr.is_live(g) && !sd.res_in(g));
                }
                assert forall|g: Handle|
                    self.res_in(g) implies old(self).res_in(g) || !p0.is_live(g) by {
                    if p0.is_live(g) {
                        assert(sd.res_in(g) || !pr.is_live(g));
                        if !pr.is_live(g) {
                            assert(old(self).resource == Some(g));
                        }
                    }
                }
                assert(sd.res_count() == 0) by {
                    assert(cc.nw.res_count() == 0);
                    assert(cc.ne.res_count() == 0);
                    assert(cc.sw.res_count() == 0);
                    assert(cc.se.res_count() == 0);
                }
            }
    }

    /// The walk on a node the reference point has left: collapse once
    /// the quarters are ready, hold position otherwise, and make sure
    /// a leaf has its resource.
    #[verifier::rlimit(100)]
    fn walk_keep(
        &mut self,
        config: &QuadTreeConfig,
        pool: &mut ResourcePool,
        loads: &mut Vec<TileId>,
        ref_point: Vec3i,
    )
        requires
            config.wf(),
            old(self).wf(*config),
            old(pool).wf(),
            old(self).res_ok(*old(pool)),
            old(self).res_distinct(),
            -COORD_LIMIT <= ref_point.x <= COORD_LIMIT,
            -COORD_LIMIT <= ref_point.y <= COORD_LIMIT,
            -COORD_LIMIT <= ref_point.z <= COORD_LIMIT,
            old(pool).next_id + cap4((config.max_lod - old(self).lod) as nat) <= u64::MAX,
            !old(self).increase_lod(*config, ref_point),
        ensures
            final(self).wf(*config),
            final(pool).wf(),
            final(self).res_ok(*final(pool)),
            final(self).res_distinct(),
            step_rel(*old(self), *final(self), *config, ref_point),
            final(loads)@ == old(loads)@ + spawned_requests(*old(self), *config, ref_point),
            forall|g: Handle|
                old(pool).is_live(g) && !old(self).res_in(g) ==> final(pool).is_live(g)
                    && !final(self).res_in(g),
            forall|g: Handle|
                final(pool).is_live(g) ==> old(pool).is_live(g) || final(self).res_in(g),
            forall|g: Handle|
                final(self).res_in(g) ==> old(self).res_in(g) || !old(pool).is_live(g),
            final(pool).live_count() - old(pool).live_count() == final(self).res_count() - old(
                self,
            ).res_count(),
            old(pool).next_id <= final(pool).next_id,
            final(pool).next_id <= old(pool).next_id + cap4(
                (config.max_lod - old(self).lod) as nat,
            ),
        decreases (config.max_lod - old(self).lod) as int, 2int,
    {
        let ghost p0 = *old(pool);
        let ghost l0 = old(loads)@;
        let ghost d = (config.max_lod - old(self).lod) as nat;
        proof {
            lemma_cap4_pos(d);
        }
            let has_children = self.children.is_some();
            if has_children {
                let ready = self.is_ready();
                if ready {
                    self.destruct(pool);
                    let ghost pd = *pool;
                    let h = pool.acquire(self.rect);
                    self.resource = Some(h);
                    self.loaded = false;
                    let t = self.tile();
                    loads.push(t);
                    proof {
                        reveal(step_rel);
                        reveal(spawned_requests);
                        assert(step_rel(*old(self), *self, *config, ref_point));
                        assert(loads@ =~= l0 + spawned_requests(
                            *old(self),
                            *config,
                            ref_point,
                        ));
                        assert forall|g: Handle|
                            self.res_in(g) == (g == h) by {}
                        assert(self.res_ok(*pool));
                        assert(self.res_distinct());
                        assert(self.wf(*config));
                        assert forall|g: Handle|
                            p0.is_live(g) && !old(self).res_in(g) implies pool.is_live(g)
                                && !self.res_in(g) by {
                            assert(pd.is_live(g));
                        }
                        assert forall|g: Handle|
                            self.res_in(g) implies old(self).res_in(g) || !p0.is_live(g) by {
                            assert(g == h);
                            assert(!pd.is_live(h));
                        }
                        assert(self.res_count() == 1);
                        assert(old(self).res_count() >= 0) by {
                            lemma_res_count_nonneg(*old(self));
                        }
                    }
                } else {
                    self.step_children(config, pool, loads, ref_point);
                    proof {
                        reveal(step_rel);
                        reveal(spawned_requests);
                        assert(cap4(d) == 1 + 4 * cap4((d - 1) as nat));
                        assert(step_rel(*old(self), *self, *config, ref_point));
                        assert(loads@ == l0 + spawned_requests(
                            *old(self),
                            *config,
                            ref_point,
                        ));
                    }
                }
            } else {
                if self.resource.is_none() {
                    let h = pool.acquire(self.rect);
                    self.resource = Some(h);
                    self.loaded = false;
                    let t = self.tile();
                    loads.push(t);
                    proof {
                        reveal(step_rel);
                        reveal(spawned_requests);
                        assert(step_rel(*old(self), *self, *config, ref_point));
                        assert(loads@ =~= l0 + spawned_requests(
                            *old(self),
                            *config,
                            ref_point,
                        ));
                        assert forall|g: Handle|
                            self.res_in(g) == (g == h) by {}
                        assert(self.res_ok(*pool));
                        assert(self.wf(*config));
                    }
                } else {
                    proof {
                        reveal(step_rel);
                        reveal(spawned_requests);
                        assert(step_rel(*old(self), *self, *config, ref_point));
                        assert(loads@ =~= l0 + spawned_requests(
                            *old(self),
                            *config,
                            ref_point,
                        ));
                    }
                }
            }
        }
    }

/// How applying one completed load's deferred mutation transforms the
/// tree: the leaf that still addresses `t` and still holds a resource
/// becomes loaded; every other node is untouched.  Applying it to a
/// node that meanwhile subdivided or collapsed is a harmless no-op.
pub open spec fn mark_rel(pre: QuadTreeNode, post: QuadTreeNode, t: TileId) -> bool
    decreases pre,
{
    &&& post.rect == pre.rect
    &&& post.lod == pre.lod
    &&& post.x == pre.x
    &&& post.y == pre.y
    &&& match (pre.children, post.children) {
        (None, None) => {
            if pre.spec_tile() == t && pre.resource is Some {
                &&& post.resource == pre.resource
                &&& post.loaded
            } else {
                post == pre
            }
        },
        (Some(pc), Some(qc)) => {
            &&& post.resource == pre.resource
            &&& post.loaded == pre.loaded
            &&& mark_rel(pc.nw, qc.nw, t)
            &&& mark_rel(pc.ne, qc.ne, t)
            &&& mark_rel(pc.sw, qc.sw, t)
            &&& mark_rel(pc.se, qc.se, t)
        },
        _ => false,
    }
}

/// Applying the same completed load twice changes nothing the second
/// time: the deferred mutation is idempotent.
pub proof fn lemma_mark_idempotent(a: QuadTreeNode, b: QuadTreeNode, c: QuadTreeNode, t: TileId)
    requires
        mark_rel(a, b, t),
        mark_rel(b, c, t),
    ensures
        c == b,
    decreases a,
{
    match (a.children, b.children, c.children) {
        (Some(ac), Some(bc), Some(cc)) => {
            lemma_mark_idempotent(ac.nw, bc.nw, cc.nw, t);
            lemma_mark_idempotent(ac.ne, bc.ne, cc.ne, t);
            lemma_mark_idempotent(ac.sw, bc.sw, cc.sw, t);
            lemma_mark_idempotent(ac.se, bc.se, cc.se, t);
            assert(*c.children.unwrap() == *b.children.unwrap());
        },
        _ => {},
    }
}

impl QuadTreeNode {
    /// Applies a completed load for tile `t`: marks the leaf that
    /// still addresses `t` — if it still is a leaf and still holds its
    /// resource — as loaded, and changes nothing else.
    pub fn apply_loaded(&mut self, t: TileId)
        ensures
            mark_rel(*old(self), *final(self), t),
            forall|g: Handle| final(self).res_in(g) == old(self).res_in(g),
            final(self).res_count() == old(self).res_count(),
            old(self).res_distinct() ==> final(self).res_distinct(),
            forall|c: QuadTreeConfig| old(self).wf(c) ==> final(self).wf(c),
            old(self).ready() ==> final(self).ready(),
        decreases *old(self),
    {
        if self.children.is_none() {
            if self.lod == t.zoom && self.x == t.x && self.y == t.y && self.resource.is_some() {
                self.loaded = true;
            }
        } else {
            if let Some(mut c) = self.children.take() {
                let ghost c0 = *c;
                c.nw.apply_loaded(t);
                c.ne.apply_loaded(t);
                c.sw.apply_loaded(t);
                c.se.apply_loaded(t);
                self.children = Some(c);
                proof {
                    let qc = self.children.unwrap();
                    assert forall|g: Handle| self.res_in(g) == old(self).res_in(g) by {
                        assert(qc.nw.res_in(g) == c0.nw.res_in(g));
                        assert(qc.ne.res_in(g) == c0.ne.res_in(g));
                        assert(qc.sw.res_in(g) == c0.sw.res_in(g));
                        assert(qc.se.res_in(g) == c0.se.res_in(g));
                    }
                    if old(self).res_distinct() {
                        assert forall|h: Handle| #[trigger] qc.nw.res_in(h) implies !qc.ne.res_in(
                            h,
                        ) by {
                            assert(c0.nw.res_in(h));
                        }
                        assert forall|h: Handle| #[trigger] qc.nw.res_in(h) implies !qc.sw.res_in(
                            h,
                        ) by {
                            assert(c0.nw.res_in(h));
                        }
                        assert forall|h: Handle| #[trigger] qc.nw.res_in(h) implies !qc.se.res_in(
                            h,
                        ) by {
                            assert(c0.nw.res_in(h));
                        }
                        assert forall|h: Handle| #[trigger] qc.ne.res_in(h) implies !qc.sw.res_in(
                            h,
                        ) by {
                            assert(c0.ne.res_in(h));
                        }
                        assert forall|h: Handle| #[trigger] qc.ne.res_in(h) implies !qc.se.res_in(
                            h,
                        ) by {
                            assert(c0.ne.res_in(h));
                        }
                        assert forall|h: Handle| #[trigger] qc.sw.res_in(h) implies !qc.se.res_in(
                            h,
                        ) by {
                            assert(c0.sw.res_in(h));
                        }
                        assert(self.res_distinct());
                    }
                    assert forall|cfg: QuadTreeConfig| old(self).wf(cfg) implies self.wf(
                        cfg,
                    ) by {
                        assert(child_frame(*self, qc.nw, 0, 0));
                        assert(child_frame(*self, qc.ne, 1, 0));
                        assert(child_frame(*self, qc.sw, 0, 1));
                        assert(child_frame(*self, qc.se, 1, 1));
                        assert(qc.nw.wf(cfg));
                        assert(qc.ne.wf(cfg));
                        assert(qc.sw.wf(cfg));
                        assert(qc.se.wf(cfg));
                    }
                }
            } else {
                proof {
                    assert(false);
                }
            }
        }
    }

    /// How many nodes the subtree has.
    pub open spec fn node_count(self) -> int
        decreases self,
    {
        1 + match self.children {
            Some(c) => c.nw.node_count() + c.ne.node_count() + c.sw.node_count()
                + c.se.node_count(),
            None => 0int,
        }
    }

    /// Counts the subtree's nodes.
    pub fn count_nodes(&self) -> (n: u64)
        requires
            self.node_count() <= u64::MAX,
        ensures
            n == self.node_count(),
        decreases *self,
    {
        proof {
            lemma_node_count_pos(*self);
        }
        match &self.children {
            Some(c) => {
                proof {
                    lemma_node_count_pos(c.nw);
                    lemma_node_count_pos(c.ne);
                    lemma_node_count_pos(c.sw);
                    lemma_node_count_pos(c.se);
                }
                1 + c.nw.count_nodes() + c.ne.count_nodes() + c.sw.count_nodes()
                    + c.se.count_nodes()
            },
            None => 1,
        }
    }

    /// Counts the resources held across the subtree.
    pub fn count_resources(&self) -> (n: u64)
        requires
            self.node_count() <= u64::MAX,
        ensures
            n == self.res_count(),
        decreases *self,
    {
        proof {
            lemma_res_count_nonneg(*self);
            lemma_node_count_pos(*self);
            lemma_res_count_le_nodes(*self);
        }
        let own: u64 = if self.resource.is_some() {
            1
        } else {
            0
        };
        match &self.children {
            Some(c) => {
                proof {
                    lemma_node_count_pos(c.nw);
                    lemma_node_count_pos(c.ne);
                    lemma_node_count_pos(c.sw);
                    lemma_node_count_pos(c.se);
                    lemma_res_count_nonneg(c.nw);
                    lemma_res_count_nonneg(c.ne);
                    lemma_res_count_nonneg(c.sw);
                    lemma_res_count_nonneg(c.se);
                    lemma_res_count_le_nodes(c.nw);
                    lemma_res_count_le_nodes(c.ne);
                    lemma_res_count_le_nodes(c.sw);
                    lemma_res_count_le_nodes(c.se);
                }
                own + c.nw.count_resources() + c.ne.count_resources() + c.sw.count_resources()
                    + c.se.count_resources()
            },
            None => own,
        }
    }
}

/// Every subtree has at least its own node.
pub proof fn lemma_node_count_pos(node: QuadTreeNode)
    ensures
        node.node_count() >= 1,
    decreases node,
{
    match node.children {
        Some(c) => {
            lemma_node_count_pos(c.nw);
            lemma_node_count_pos(c.ne);
            lemma_node_count_pos(c.sw);
            lemma_node_count_pos(c.se);
        },
        None => {},
    }
}

/// A subtree holds at most one resource per node.
pub proof fn lemma_res_count_le_nodes(node: QuadTreeNode)
    ensures
        node.res_count() <= node.node_count(),
    decreases node,
{
    match node.children {
        Some(c) => {
            lemma_res_count_le_nodes(c.nw);
            lemma_res_count_le_nodes(c.ne);
            lemma_res_count_le_nodes(c.sw);
            lemma_res_count_le_nodes(c.se);
        },
        None => {},
    }
}

/// The four quarters of a subdivided region tile it exactly: every
/// point of the parent lies in exactly one child, each child lies
/// inside the parent, and each child's half-extents are exactly half
/// the parent's.
pub proof fn lemma_children_partition(node: QuadTreeNode, config: QuadTreeConfig)
    requires
        node.wf(config),
        node.children is Some,
    ensures
        ({
            let c = node.children.unwrap();
            &&& 2 * c.nw.rect.half.x == node.rect.half.x
            &&& 2 * c.nw.rect.half.y == node.rect.half.y
            &&& 2 * c.ne.rect.half.x == node.rect.half.x
            &&& 2 * c.ne.rect.half.y == node.rect.half.y
            &&& 2 * c.sw.rect.half.x == node.rect.half.x
            &&& 2 * c.sw.rect.half.y == node.rect.half.y
            &&& 2 * c.se.rect.half.x == node.rect.half.x
            &&& 2 * c.se.rect.half.y == node.rect.half.y
            &&& forall|px: int, py: int|
                #![trigger node.rect.contains_point(px, py)]
                node.rect.contains_point(px, py) <==> (c.nw.rect.contains_point(px, py)
                    || c.ne.rect.contains_point(px, py) || c.sw.rect.contains_point(px, py)
                    || c.se.rect.contains_point(px, py))
            &&& forall|px: int, py: int|
                #![trigger c.nw.rect.contains_point(px, py), c.ne.rect.contains_point(px, py)]
                !(c.nw.rect.contains_point(px, py) && c.ne.rect.contains_point(px, py))
            &&& forall|px: int, py: int|
                #![trigger c.nw.rect.contains_point(px, py), c.sw.rect.contains_point(px, py)]
                !(c.nw.rect.contains_point(px, py) && c.sw.rect.contains_point(px, py))
            &&& forall|px: int, py: int|
                #![trigger c.nw.rect.contains_point(px, py), c.se.rect.contains_point(px, py)]
                !(c.nw.rect.contains_point(px, py) && c.se.rect.contains_point(px, py))
            &&& forall|px: int, py: int|
                #![trigger c.ne.rect.contains_point(px, py), c.sw.rect.contains_point(px, py)]
                !(c.ne.rect.contains_point(px, py) && c.sw.rect.contains_point(px, py))
            &&& forall|px: int, py: int|
                #![trigger c.ne.rect.contains_point(px, py), c.se.rect.contains_point(px, py)]
                !(c.ne.rect.contains_point(px, py) && c.se.rect.contains_point(px, py))
            &&& forall|px: int, py: int|
                #![trigger c.sw.rect.contains_point(px, py), c.se.rect.contains_point(px, py)]
                !(c.sw.rect.contains_point(px, py) && c.se.rect.contains_point(px, py))
        }),
{
    let c = node.children.unwrap();
    assert(child_frame(node, c.nw, 0, 0));
    assert(child_frame(node, c.ne, 1, 0));
    assert(child_frame(node, c.sw, 0, 1));
    assert(child_frame(node, c.se, 1, 1));
}

/// A region is never both split into children and showing its own
/// resource: the exclusivity every operation preserves.
pub proof fn lemma_leaf_resource_exclusive(node: QuadTreeNode, config: QuadTreeConfig)
    requires
        node.wf(config),
    ensures
        !(node.children is Some && node.resource is Some),
{
}

/// A subdivided region whose quarters are not all loaded is not
/// collapsed by a walk that no longer wants it subdivided: every
/// quarter survives with its identity intact.
pub proof fn lemma_no_premature_collapse(
    pre: QuadTreeNode,
    post: QuadTreeNode,
    config: QuadTreeConfig,
    ref_point: Vec3i,
)
    requires
        step_rel(pre, post, config, ref_point),
        pre.children is Some,
        !pre.increase_lod(config, ref_point),
        !pre.ready(),
    ensures
        post.children is Some,
        ({
            let pc = pre.children.unwrap();
            let qc = post.children.unwrap();
            &&& qc.nw.lod == pc.nw.lod && qc.nw.x == pc.nw.x && qc.nw.y == pc.nw.y
                && qc.nw.rect == pc.nw.rect
            &&& qc.ne.lod == pc.ne.lod && qc.ne.x == pc.ne.x && qc.ne.y == pc.ne.y
                && qc.ne.rect == pc.ne.rect
            &&& qc.sw.lod == pc.sw.lod && qc.sw.x == pc.sw.x && qc.sw.y == pc.sw.y
                && qc.sw.rect == pc.sw.rect
            &&& qc.se.lod == pc.se.lod && qc.se.x == pc.se.x && qc.se.y == pc.se.y
                && qc.se.rect == pc.se.rect
        }),
{
    reveal(step_rel);
    let pc = pre.children.unwrap();
    let qc = post.children.unwrap();
    assert(step_rel(pc.nw, qc.nw, config, ref_point));
    assert(step_rel(pc.ne, qc.ne, config, ref_point));
    assert(step_rel(pc.sw, qc.sw, config, ref_point));
    assert(step_rel(pc.se, qc.se, config, ref_point));
    assert(qc.nw.rect == pc.nw.rect && qc.nw.lod == pc.nw.lod && qc.nw.x == pc.nw.x && qc.nw.y
        == pc.nw.y);
    assert(qc.ne.rect == pc.ne.rect && qc.ne.lod == pc.ne.lod && qc.ne.x == pc.ne.x && qc.ne.y
        == pc.ne.y);
    assert(qc.sw.rect == pc.sw.rect && qc.sw.lod == pc.sw.lod && qc.sw.x == pc.sw.x && qc.sw.y
        == pc.sw.y);
    assert(qc.se.rect == pc.se.rect && qc.se.lod == pc.se.lod && qc.se.x == pc.se.x && qc.se.y
        == pc.se.y);
}

/// A quadtree: one root region, subdivided on demand.
pub struct QuadTree {
    pub root: QuadTreeNode,
}

impl QuadTree {
    pub open spec fn wf(self, config: QuadTreeConfig) -> bool {
        &&& self.root.wf(config)
        &&& self.root.lod == 0
        &&& self.root.x == 0
        &&& self.root.y == 0
    }

    /// A fresh tree: a single unloaded root leaf around `center`.
    pub fn new(config: &QuadTreeConfig, center: Vec2i) -> (t: QuadTree)
        requires
            config.wf(),
            -COORD_LIMIT / 2 <= center.x <= COORD_LIMIT / 2,
            -COORD_LIMIT / 2 <= center.y <= COORD_LIMIT / 2,
        ensures
            t.wf(*config),
            t.root.children is None,
            t.root.resource is None,
            !t.root.loaded,
            t.root.rect.center == center,
            t.root.res_count() == 0,
            forall|h: Handle| !t.root.res_in(h),
            t.root.res_distinct(),
    {
        QuadTree { root: QuadTreeNode::new(config, center) }
    }
}

} // verus!