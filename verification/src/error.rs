//! Why a scene object could not be built.
use vstd::prelude::*;

verus! {

#[derive(Clone, Copy, Debug, PartialEq, Eq, Structural)]
pub enum SceneError {
    /// The two edges of a quad are parallel, so that it spans no plane.
    DegenerateGeometry,
    /// The byte buffer of an image does not hold three bytes for each pixel.
    ImageSize,
}
} // verus!
