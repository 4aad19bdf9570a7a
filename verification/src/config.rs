//! The ways in which a configuration can be unfit for rendering.

use vstd::prelude::*;

verus! {

/// A configuration that no render may start from.
#[derive(Clone, Copy, Debug, PartialEq, Eq, Structural)]
pub enum ConfigError {
    /// A gradient needs at least two control points.
    TooFewControlPoints,
    /// The image has no pixels.
    EmptyImage,
    /// The image's bytes cannot be counted in a `usize`.
    ImageTooLarge,
    /// There are no tiles to divide the image into.
    NoTiles,
    /// The number of tiles does not divide the number of pixels.
    UnevenTiles,
}

} // verus!
