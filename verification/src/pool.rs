//! A recycling pool of renderable handles.
//!
//! The pool hands out integer handles that stand for renderable scene
//! objects (a mesh instance with its transform and visibility).  A
//! handle is *live* between `acquire` and `release`; released handles
//! wait, hidden, on a FIFO free list and are reused oldest-first, so
//! rapid level-of-detail churn recycles objects instead of allocating.
//! Attaching, positioning and hiding the actual renderable is the
//! renderer's concern; the pool owns only the identities, and its
//! contracts pin down that no handle is ever live twice and none leaks.

use std::collections::VecDeque;

use vstd::prelude::*;

use crate::rect::Rect;

verus! {

/// Identifies one pooled renderable.
pub type Handle = u64;

pub struct ResourcePool {
    /// Handles currently inactive, oldest release first.
    pub free: VecDeque<Handle>,
    /// Handles `0 .. next_id` have been created so far.
    pub next_id: u64,
}

impl ResourcePool {
    /// Every pooled handle was created, and none is pooled twice.
    pub open spec fn wf(self) -> bool {
        &&& forall|i: int| 0 <= i < self.free@.len() ==> self.free@[i] < self.next_id
        &&& forall|i: int, j: int|
            0 <= i < j < self.free@.len() ==> self.free@[i] != self.free@[j]
    }

    /// A handle is live when it has been created and is not pooled:
    /// exactly the handles currently attached to the scene.
    pub open spec fn is_live(self, h: Handle) -> bool {
        h < self.next_id && !self.free@.contains(h)
    }

    /// How many handles are live: created minus pooled.
    pub open spec fn live_count(self) -> int {
        self.next_id - self.free@.len()
    }

    pub fn new() -> (p: ResourcePool)
        ensures
            p.wf(),
            p.free@ == Seq::<Handle>::empty(),
            p.next_id == 0,
            p.live_count() == 0,
            forall|h: Handle| !p.is_live(h),
    {
        let p = ResourcePool { free: VecDeque::new(), next_id: 0 };
        proof {
            assert(forall|h: Handle| !p.free@.contains(h));
        }
        p
    }

    /// Hands out a free handle if one is pooled — the oldest released
    /// one first — and otherwise creates a fresh one.  The handle
    /// returned is live afterwards and was not live before; no other
    /// handle changes state.  The caller re-attaches and re-positions
    /// the underlying renderable to `_rect`.
    pub fn acquire(&mut self, _rect: Rect) -> (h: Handle)
        requires
            old(self).wf(),
            old(self).next_id < u64::MAX,
        ensures
            final(self).wf(),
            !old(self).is_live(h),
            final(self).is_live(h),
            forall|g: Handle| old(self).is_live(g) ==> final(self).is_live(g),
            forall|g: Handle| final(self).is_live(g) ==> old(self).is_live(g) || g == h,
            final(self).live_count() == old(self).live_count() + 1,
            old(self).free@.len() > 0 ==> {
                &&& h == old(self).free@[0]
                &&& final(self).free@ == old(self).free@.drop_first()
                &&& final(self).next_id == old(self).next_id
            },
            old(self).free@.len() == 0 ==> {
                &&& h == old(self).next_id
                &&& final(self).free@ == old(self).free@
                &&& final(self).next_id == old(self).next_id + 1
            },
            final(self).next_id >= old(self).next_id,
            acquire_step(*old(self), *final(self), h),
    {
        match self.free.pop_front() {
            Some(h) => {
                proof {
                    assert(old(self).free@[0] == h);
                    assert(old(self).free@.contains(h));
                    assert forall|g: Handle| old(self).is_live(g) implies self.is_live(g) by {
                        if self.free@.contains(g) {
                            let i = choose|i: int|
                                0 <= i < self.free@.len() && self.free@[i] == g;
                            assert(old(self).free@[i + 1] == g);
                        }
                    }
                    assert forall|g: Handle| self.is_live(g) && g != h implies old(
                        self).is_live(g) by {
                        if old(self).free@.contains(g) {
                            let i = choose|i: int|
                                0 <= i < old(self).free@.len() && old(self).free@[i] == g;
                            assert(i != 0);
                            assert(self.free@[i - 1] == g);
                        }
                    }
                    assert(!self.free@.contains(h)) by {
                        if self.free@.contains(h) {
                            let i = choose|i: int|
                                0 <= i < self.free@.len() && self.free@[i] == h;
                            assert(old(self).free@[i + 1] == h);
                        }
                    }
                }
                h
            },
            None => {
                let h = self.next_id;
                self.next_id = self.next_id + 1;
                h
            },
        }
    }

    /// Takes a live handle back: it goes to the rear of the free list
    /// and stops being live; every other live handle stays live.  The
    /// caller hides and detaches the underlying renderable; nothing is
    /// destroyed.
    pub fn release(&mut self, h: Handle)
        requires
            old(self).wf(),
            old(self).is_live(h),
        ensures
            final(self).wf(),
            !final(self).is_live(h),
            final(self).free@ == old(self).free@.push(h),
            final(self).next_id == old(self).next_id,
            forall|g: Handle| old(self).is_live(g) && g != h ==> final(self).is_live(g),
            forall|g: Handle| final(self).is_live(g) ==> old(self).is_live(g) && g != h,
            final(self).live_count() == old(self).live_count() - 1,
            release_step(*old(self), *final(self), h),
    {
        self.free.push_back(h);
        proof {
            assert(self.free@.last() == h);
            assert(self.free@.contains(h));
            assert forall|g: Handle| old(self).is_live(g) && g != h implies self.is_live(
                g) by {
                if self.free@.contains(g) {
                    let i = choose|i: int|
                        0 <= i < self.free@.len() && self.free@[i] == g;
                    assert(i < old(self).free@.len() ==> old(self).free@[i] == g);
                }
            }
            assert forall|g: Handle| self.is_live(g) implies old(self).is_live(g) && g
                != h by {
                if old(self).free@.contains(g) {
                    let i = choose|i: int|
                        0 <= i < old(self).free@.len() && old(self).free@[i] == g;
                    assert(self.free@[i] == g);
                }
            }
        }
    }
}

/// The observable effect of one acquisition: the handle handed out
/// was not live, is live afterwards, and nothing else changes state.
pub open spec fn acquire_step(pre: ResourcePool, post: ResourcePool, h: Handle) -> bool {
    &&& !pre.is_live(h)
    &&& post.is_live(h)
    &&& forall|g: Handle| pre.is_live(g) ==> post.is_live(g)
    &&& forall|g: Handle| post.is_live(g) ==> pre.is_live(g) || g == h
    &&& post.live_count() == pre.live_count() + 1
}

/// The observable effect of one release: the handle stops being live,
/// and nothing else changes state.
pub open spec fn release_step(pre: ResourcePool, post: ResourcePool, h: Handle) -> bool {
    &&& pre.is_live(h)
    &&& !post.is_live(h)
    &&& forall|g: Handle| pre.is_live(g) && g != h ==> post.is_live(g)
    &&& forall|g: Handle| post.is_live(g) ==> pre.is_live(g) && g != h
    &&& post.live_count() == pre.live_count() - 1
}

/// One call against the pool, with the handle it returned or took.
#[derive(Clone, Copy, Debug, PartialEq, Eq, Structural)]
pub enum PoolOp {
    Acquire(Handle),
    Release(Handle),
}

pub open spec fn pool_step(pre: ResourcePool, post: ResourcePool, op: PoolOp) -> bool {
    match op {
        PoolOp::Acquire(h) => acquire_step(pre, post, h),
        PoolOp::Release(h) => release_step(pre, post, h),
    }
}

/// `states` is a run of the pool under `ops`: one state around every
/// operation.
pub open spec fn trace_ok(states: Seq<ResourcePool>, ops: Seq<PoolOp>) -> bool {
    &&& states.len() == ops.len() + 1
    &&& forall|i: int|
        0 <= i < ops.len() ==> pool_step(states[i], states[i + 1], #[trigger] ops[i])
}

pub open spec fn acquire_count(ops: Seq<PoolOp>) -> int
    decreases ops.len(),
{
    if ops.len() == 0 {
        0
    } else {
        (if ops[0] is Acquire {
            1int
        } else {
            0int
        }) + acquire_count(ops.drop_first())
    }
}

pub open spec fn release_count(ops: Seq<PoolOp>) -> int
    decreases ops.len(),
{
    if ops.len() == 0 {
        0
    } else {
        (if ops[0] is Release {
            1int
        } else {
            0int
        }) + release_count(ops.drop_first())
    }
}

/// Over any sequence of acquire and release calls, the number of live
/// handles moves by exactly acquisitions minus releases: nothing is
/// duplicated and nothing leaks.
pub proof fn lemma_pool_conservation(states: Seq<ResourcePool>, ops: Seq<PoolOp>)
    requires
        trace_ok(states, ops),
    ensures
        states.last().live_count() == states[0].live_count() + acquire_count(ops)
            - release_count(ops),
    decreases ops.len(),
{
    if ops.len() == 0 {
    } else {
        assert(pool_step(states[0], states[1], ops[0]));
        assert(trace_ok(states.drop_first(), ops.drop_first())) by {
            assert forall|i: int| 0 <= i < ops.drop_first().len() implies #[trigger] pool_step(
                states.drop_first()[i],
                states.drop_first()[i + 1],
                ops.drop_first()[i],
            ) by {
                assert(pool_step(states[i + 1], states[i + 2], ops[i + 1]));
            }
        }
        lemma_pool_conservation(states.drop_first(), ops.drop_first());
        assert(states.drop_first().last() == states.last());
        assert(states.drop_first()[0] == states[1]);
    }
}

/// Two acquisitions with no release of the first in between hand out
/// different handles: a handle is never live twice over.
pub proof fn lemma_no_double_issue(
    p0: ResourcePool,
    p1: ResourcePool,
    p2: ResourcePool,
    h1: Handle,
    h2: Handle,
)
    requires
        acquire_step(p0, p1, h1),
        acquire_step(p1, p2, h2),
    ensures
        h1 != h2,
{
}

} // verus!