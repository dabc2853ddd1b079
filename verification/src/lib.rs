//! Pixelisation of raster images by square or hexagonal tiles.
//!
//! Every pixel of the result takes the colour that the source image has at the
//! representative of the tile the pixel lies in: the corner of its square, or
//! the centre of its hexagon.
//!
//! The tilings in [`square`] and [`hexagon`] are plain integer geometry and
//! are verified in full. [`pixelise`] applies them to whole images. The images
//! are those of the `image` crate, reached through the trusted wrappers in
//! [`raster`]; the pixels of a hexagonal pixelisation are computed in parallel
//! by `rayon`, through one more trusted wrapper.

pub mod error;
pub mod geometry;
pub mod hexagon;
pub mod pixelise;
pub mod raster;
pub mod square;
