//! Layers of a workspace scene.

use vstd::prelude::*;

verus! {

/// Layer that a panel stands on.
#[derive(Debug, Clone, Copy, PartialEq, Eq, Structural, Hash, PartialOrd, Ord)]
pub enum SceneLayer {
    /// The tiled base.
    Tiled,
    /// Above the base.
    Floating,
    /// Above everything that floats.
    Pinned,
}

} // verus!
