//! Marker types the host renderer schedules and wires by.
//!
//! These carry no data and no behavior of their own: they are the
//! stable names under which the host engine registers the rendering
//! stages and plugins that surround the level-of-detail core.  The
//! engine-specific implementations attached to them live with the
//! host; the library only owns the identities, so that code on both
//! sides names the same things.

use vstd::prelude::*;

verus! {

/// The stage in which loaded vector drawings get their meshes.
#[derive(Clone, Copy, Debug, Hash, PartialEq, Eq, Structural)]
pub struct SvgSet;

/// The host plugin that keeps vector drawings rendered.
#[derive(Clone, Copy, Debug, PartialEq, Eq, Structural)]
pub struct SvgRenderPlugin;

/// The host plugin that draws vector drawings in the scene.
#[derive(Clone, Copy, Debug, PartialEq, Eq, Structural)]
pub struct SvgPlugin;

/// The host's loader for vector drawing assets.
#[derive(Clone, Copy, Debug, Default, PartialEq, Eq, Structural)]
pub struct SvgAssetLoader;

/// The host plugin that assembles the flight-simulation scene.
#[derive(Clone, Copy, Debug, PartialEq, Eq, Structural)]
pub struct FlightSimPlugin;

} // verus!
