//! The scenes that the renderer knows by name.

use vstd::prelude::*;

verus! {

/// A built-in scene.
#[derive(Clone, Copy, Debug, PartialEq, Eq, Structural)]
pub enum SceneType {
    Random,
    TwoSpheres,
    PerlinSpheres,
    Earth,
    RectLight,
    CornellBox,
    CornellTriangle,
    FinalScene,
}

} // verus!
