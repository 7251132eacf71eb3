//! Bookkeeping for background tile loads.
//!
//! Loading work runs off the main update path; the main loop only
//! records which tiles are in flight, hears which have finished, and
//! drains the finished ones once per frame, in the order they
//! completed.  A tile is tracked at most once at a time, and a drained
//! completion is delivered exactly once — draining again without a new
//! completion yields nothing.

use std::collections::VecDeque;
use std::ops::Index;

use vstd::prelude::*;

use crate::tile::TileId;

verus! {

/// The in-flight and completed background loads, identified by tile.
pub struct PendingLoads {
    /// Tiles whose load has been started and has not finished.
    pub pending: Vec<TileId>,
    /// Tiles whose load has finished, in completion order, waiting to
    /// be drained on the main thread.
    pub completed: VecDeque<TileId>,
}

impl PendingLoads {
    /// No tile appears twice, and no tile is both in flight and
    /// waiting to be drained.
    pub open spec fn wf(self) -> bool {
        &&& forall|i: int, j: int|
            0 <= i < j < self.pending@.len() ==> self.pending@[i] != self.pending@[j]
        &&& forall|i: int, j: int|
            0 <= i < j < self.completed@.len() ==> self.completed@[i] != self.completed@[j]
        &&& forall|i: int, j: int|
            0 <= i < self.pending@.len() && 0 <= j < self.completed@.len()
                ==> self.pending@[i] != self.completed@[j]
    }

    /// The tile is somewhere in the pipeline: in flight or undrained.
    pub open spec fn tracks(self, t: TileId) -> bool {
        self.pending@.contains(t) || self.completed@.contains(t)
    }

    pub fn new() -> (l: PendingLoads)
        ensures
            l.wf(),
            l.pending@ == Seq::<TileId>::empty(),
            l.completed@ == Seq::<TileId>::empty(),
            forall|t: TileId| !l.tracks(t),
    {
        let l = PendingLoads { pending: Vec::new(), completed: VecDeque::new() };
        proof {
            assert(forall|t: TileId| !l.pending@.contains(t) && !l.completed@.contains(t));
        }
        l
    }

    fn find_pending(&self, t: TileId) -> (r: Option<usize>)
        ensures
            match r {
                Some(i) => i < self.pending@.len() && self.pending@[i as int] == t,
                None => !self.pending@.contains(t),
            },
    {
        let mut i: usize = 0;
        while i < self.pending.len()
            invariant
                0 <= i <= self.pending@.len(),
                forall|k: int| 0 <= k < i ==> self.pending@[k] != t,
            decreases self.pending@.len() - i,
        {
            if self.pending[i] == t {
                return Some(i);
            }
            i = i + 1;
        }
        proof {
            if self.pending@.contains(t) {
                let k = choose|k: int|
                    0 <= k < self.pending@.len() && self.pending@[k] == t;
            }
        }
        None
    }

    fn find_completed(&self, t: TileId) -> (r: bool)
        ensures
            r == self.completed@.contains(t),
    {
        let mut i: usize = 0;
        while i < self.completed.len()
            invariant
                0 <= i <= self.completed@.len(),
                forall|k: int| 0 <= k < i ==> self.completed@[k] != t,
            decreases self.completed@.len() - i,
        {
            if *self.completed.index(i) == t {
                proof {
                    assert(self.completed@[i as int] == t);
                }
                return true;
            }
            i = i + 1;
        }
        proof {
            if self.completed@.contains(t) {
                let k = choose|k: int|
                    0 <= k < self.completed@.len() && self.completed@[k] == t;
            }
        }
        false
    }

    /// Whether a load for `t` is already somewhere in the pipeline.
    pub fn is_tracked(&self, t: TileId) -> (r: bool)
        ensures
            r == self.tracks(t),
    {
        let p = self.find_pending(t);
        match p {
            Some(_) => true,
            None => self.find_completed(t),
        }
    }

    /// Starts tracking a load for `t`.  A tile already in the pipeline
    /// is left alone: the in-flight work will serve it.
    pub fn spawn(&mut self, t: TileId)
        requires
            old(self).wf(),
        ensures
            final(self).wf(),
            final(self).tracks(t),
            final(self).completed@ == old(self).completed@,
            old(self).tracks(t) ==> final(self).pending@ == old(self).pending@,
            !old(self).tracks(t) ==> final(self).pending@ == old(self).pending@.push(t),
            forall|u: TileId| old(self).tracks(u) ==> final(self).tracks(u),
            forall|u: TileId| final(self).tracks(u) ==> old(self).tracks(u) || u == t,
    {
        if !self.is_tracked(t) {
            self.pending.push(t);
            proof {
                assert(self.pending@.last() == t);
                assert(self.pending@.contains(t));
                assert forall|u: TileId| old(self).tracks(u) implies self.tracks(u) by {
                    if old(self).pending@.contains(u) {
                        let k = choose|k: int|
                            0 <= k < old(self).pending@.len() && old(self).pending@[k] == u;
                        assert(self.pending@[k] == u);
                    }
                }
                assert forall|u: TileId| self.tracks(u) implies old(self).tracks(u) || u
                    == t by {
                    if self.pending@.contains(u) {
                        let k = choose|k: int|
                            0 <= k < self.pending@.len() && self.pending@[k] == u;
                        if k < old(self).pending@.len() {
                            assert(old(self).pending@[k] == u);
                        }
                    }
                }
            }
        }
    }

    /// Hears that the background work for `t` has finished; `t` moves
    /// to the rear of the completion queue.  Completions of different
    /// tiles may arrive in any order — nothing here depends on it.
    pub fn note_complete(&mut self, t: TileId)
        requires
            old(self).wf(),
            old(self).pending@.contains(t),
        ensures
            final(self).wf(),
            !final(self).pending@.contains(t),
            final(self).completed@ == old(self).completed@.push(t),
            forall|u: TileId| old(self).tracks(u) ==> final(self).tracks(u),
            forall|u: TileId| final(self).tracks(u) ==> old(self).tracks(u),
    {
        let i = match self.find_pending(t) {
            Some(i) => i,
            None => {
                proof {
                    assert(false);
                }
                0
            },
        };
        self.pending.remove(i);
        self.completed.push_back(t);
        proof {
            let ghost pre = old(self).pending@;
            let ghost post = self.pending@;
            assert(post == pre.subrange(0, i as int) + pre.subrange(
                i as int + 1,
                pre.len() as int,
            ));
            assert forall|k: int| 0 <= k < post.len() implies (if k < i {
                post[k] == pre[k]
            } else {
                post[k] == pre[k + 1]
            }) by {}
            assert(!post.contains(t)) by {
                if post.contains(t) {
                    let k = choose|k: int| 0 <= k < post.len() && post[k] == t;
                }
            }
            assert(self.completed@.last() == t);
            assert(self.completed@.contains(t));
            assert forall|u: TileId| old(self).tracks(u) implies self.tracks(u) by {
                if pre.contains(u) && u != t {
                    let k = choose|k: int| 0 <= k < pre.len() && pre[k] == u;
                    if k < i {
                        assert(post[k] == u);
                    } else {
                        assert(k > i);
                        assert(post[k - 1] == u);
                    }
                }
                if old(self).completed@.contains(u) {
                    let k = choose|k: int|
                        0 <= k < old(self).completed@.len() && old(self).completed@[k] == u;
                    assert(self.completed@[k] == u);
                }
            }
            assert forall|u: TileId| self.tracks(u) implies old(self).tracks(u) by {
                if post.contains(u) {
                    let k = choose|k: int| 0 <= k < post.len() && post[k] == u;
                }
                if self.completed@.contains(u) {
                    let k = choose|k: int|
                        0 <= k < self.completed@.len() && self.completed@[k] == u;
                    if k < old(self).completed@.len() {
                        assert(old(self).completed@[k] == u);
                    }
                }
            }
        }
    }

    /// Hands over every completion heard so far, oldest first, and
    /// forgets them: a completion is delivered exactly once, and a
    /// second drain with nothing new yields the empty list.
    pub fn drain(&mut self) -> (done: Vec<TileId>)
        requires
            old(self).wf(),
        ensures
            final(self).wf(),
            done@ == old(self).completed@,
            final(self).completed@ == Seq::<TileId>::empty(),
            final(self).pending@ == old(self).pending@,
    {
        let mut done: Vec<TileId> = Vec::new();
        loop
            invariant
                self.wf(),
                self.pending@ == old(self).pending@,
                done@ + self.completed@ == old(self).completed@,
            ensures
                self.completed@.len() == 0,
            decreases self.completed@.len(),
        {
            match self.completed.pop_front() {
                Some(t) => {
                    done.push(t);
                    proof {
                        assert(done@ + self.completed@ == old(self).completed@);
                    }
                },
                None => {
                    break;
                },
            }
        }
        proof {
            assert(done@ =~= done@ + self.completed@);
        }
        done
    }
}

} // verus!
