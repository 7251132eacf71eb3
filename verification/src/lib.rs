//! An adaptive level-of-detail quadtree for streamed tile worlds.
//!
//! The crate models the update core of a tile-streaming renderer: pure
//! tile addressing on a fixed-point projected plane, a content-addressed
//! tile cache policy, a recycling pool of renderable handles, a recursive
//! quadtree that subdivides and collapses around a reference point, the
//! bookkeeping for background tile loads, and the per-frame driver that
//! ties those together.  Everything here is exact integer arithmetic;
//! floating-point projection and all I/O live with the caller.

pub mod cache;
pub mod driver;
pub mod elevation;
pub mod loader;
pub mod location;
pub mod markers;
pub mod pool;
pub mod quadtree;
pub mod rect;
pub mod text;
pub mod tile;
