//! The ways in which a pixelisation can be refused.

use vstd::prelude::*;

verus! {

/// Why no output raster was produced. Every refusal happens before the first
/// pixel is written. There is no error for a read outside the source image:
/// that every read lies inside it is proved.
#[derive(Clone, Copy, Debug, PartialEq, Eq, Structural)]
pub enum PixelError {
    /// The tile radius is zero, or so small that the lattice spacing derived
    /// from it rounds down to zero.
    InvalidRadius,
    /// The source stores floating-point samples, or samples of a kind not
    /// known to the library. Such a source is to be brought to integer samples
    /// first.
    UnsupportedSamples,
    /// The output raster, at four bytes per pixel, would not fit in the
    /// address space.
    ImageTooLarge,
}

} // verus!
