//! The rasters of the `image` crate, as far as pixelisation needs them.
//!
//! A source image is an `image::DynamicImage`; the result is an
//! `image::RgbaImage`, held in an [`OutputRaster`]. Both are opaque to the
//! verifier. What they hold is named by the spec functions below, and the few
//! methods of the crate that the library calls are wrapped with contracts
//! over those names. The contracts are taken on trust from the crate's
//! source; nothing here proves them.

use vstd::prelude::*;
use image::{ColorType, DynamicImage, GenericImageView, ImageBuffer, Rgba, RgbaImage};

verus! {

/// `image::DynamicImage`, made known to the verifier as an opaque type.
#[verifier::external_type_specification]
#[verifier::external_body]
pub struct ExDynamicImage(image::DynamicImage);

/// A colour of four 8-bit channels.
#[derive(Clone, Copy, Debug, PartialEq, Eq, Structural)]
pub struct Color {
    pub red: u8,
    pub green: u8,
    pub blue: u8,
    pub alpha: u8,
}

/// The kind of samples that a source image stores: how many channels, and
/// of what type. `Other` stands for any kind that a later version of the
/// `image` crate may add.
#[derive(Clone, Copy, Debug, PartialEq, Eq, Structural)]
pub enum SampleKind {
    L8,
    La8,
    Rgb8,
    Rgba8,
    L16,
    La16,
    Rgb16,
    Rgba16,
    Rgb32F,
    Rgba32F,
    Other,
}

impl SampleKind {
    /// Whether the samples are 8-bit or 16-bit integers. Only such samples
    /// are sure to have an 8-bit RGBA colour: a floating-point sample may be
    /// not a number.
    pub open spec fn is_integer(self) -> bool {
        self == SampleKind::L8 || self == SampleKind::La8 || self == SampleKind::Rgb8 || self
            == SampleKind::Rgba8 || self == SampleKind::L16 || self == SampleKind::La16 || self
            == SampleKind::Rgb16 || self == SampleKind::Rgba16
    }

    /// Whether the samples are 8-bit or 16-bit integers.
    pub fn has_integer_samples(&self) -> (b: bool)
        ensures
            b == self.is_integer(),
    {
        match self {
            SampleKind::L8
            | SampleKind::La8
            | SampleKind::Rgb8
            | SampleKind::Rgba8
            | SampleKind::L16
            | SampleKind::La16
            | SampleKind::Rgb16
            | SampleKind::Rgba16 => true,
            SampleKind::Rgb32F | SampleKind::Rgba32F | SampleKind::Other => false,
        }
    }
}

/// The raster that a pixelisation fills and hands to its caller: an
/// `image::RgbaImage`. The verifier does not look inside; it knows the raster
/// by `raster_dimensions` and `raster_pixels` alone.
#[verifier::external_body]
pub struct OutputRaster {
    image: RgbaImage,
}

/// The width and height of a source image: what `dimensions` returns for it.
pub uninterp spec fn image_dimensions(img: DynamicImage) -> (u32, u32);

/// The kind of samples of a source image: what `color` returns for it.
pub uninterp spec fn image_color(img: DynamicImage) -> SampleKind;

/// The colours of a source image by coordinate `(x, y)`, each as `get_pixel`
/// returns it, that is, converted to 8-bit RGBA.
pub uninterp spec fn image_pixels(img: DynamicImage) -> Map<(int, int), Color>;

/// The width and height of an output raster.
pub uninterp spec fn raster_dimensions(out: OutputRaster) -> (u32, u32);

/// The colours that an output raster holds, by coordinate `(x, y)`.
pub uninterp spec fn raster_pixels(out: OutputRaster) -> Map<(int, int), Color>;

/// Whether a raster of `width` by `height` pixels of four bytes each can be
/// addressed: the length of a row in bytes fits in `usize`, and so does the
/// length of all rows together.
pub open spec fn raster_fits(width: u32, height: u32) -> bool {
    4 * width <= usize::MAX && 4 * width * height <= usize::MAX
}

/// A raster that fits has at most `usize::MAX / 4` pixels.
pub proof fn lemma_raster_fits(width: u32, height: u32)
    requires
        raster_fits(width, height),
    ensures
        4 * (width * height) <= usize::MAX,
        width * height <= usize::MAX,
{
    assert(4 * (width * height) == 4 * width * height && width * height >= 0) by (nonlinear_arith);
}

/// The contents of a fresh raster: every pixel inside the bounds is
/// transparent black.
pub open spec fn blank_pixels(width: u32, height: u32) -> Map<(int, int), Color> {
    Map::new(
        |p: (int, int)| 0 <= p.0 < width && 0 <= p.1 < height,
        |p: (int, int)| Color { red: 0, green: 0, blue: 0, alpha: 0 },
    )
}

/// Whether `bytes` lays out `pixels` row by row, four channel bytes per
/// pixel in the order red, green, blue, alpha.
pub open spec fn is_rgba_layout(bytes: Seq<u8>, dims: (u32, u32), pixels: Map<(int, int), Color>) -> bool {
    &&& bytes.len() == 4 * (dims.0 * dims.1)
    &&& forall|x: int, y: int|
        0 <= x < dims.0 && 0 <= y < dims.1 ==> #[trigger] pixels[(x, y)] == (Color {
            red: bytes[4 * (y * dims.0 + x)],
            green: bytes[4 * (y * dims.0 + x) + 1],
            blue: bytes[4 * (y * dims.0 + x) + 2],
            alpha: bytes[4 * (y * dims.0 + x) + 3],
        })
}

/// `GenericImageView::dimensions` of `DynamicImage`: the image's width and
/// height.
#[verifier::external_body]
pub(crate) fn dimensions(img: &DynamicImage) -> (d: (u32, u32))
    ensures
        d == image_dimensions(*img),
{
    img.dimensions()
}

/// `DynamicImage::color`: the kind of samples that the image stores, one
/// kind for each variant of the image.
#[verifier::external_body]
pub(crate) fn color(img: &DynamicImage) -> (kind: SampleKind)
    ensures
        kind == image_color(*img),
{
    match img.color() {
        ColorType::L8 => SampleKind::L8,
        ColorType::La8 => SampleKind::La8,
        ColorType::Rgb8 => SampleKind::Rgb8,
        ColorType::Rgba8 => SampleKind::Rgba8,
        ColorType::L16 => SampleKind::L16,
        ColorType::La16 => SampleKind::La16,
        ColorType::Rgb16 => SampleKind::Rgb16,
        ColorType::Rgba16 => SampleKind::Rgba16,
        ColorType::Rgb32F => SampleKind::Rgb32F,
        ColorType::Rgba32F => SampleKind::Rgba32F,
        _ => SampleKind::Other,
    }
}

/// `GenericImageView::get_pixel` of `DynamicImage`: the colour at `(x, y)`
/// as 8-bit RGBA. The crate panics outside the bounds, so the coordinate must
/// lie inside them. It also panics on a floating-point sample that is not a
/// number, so the samples must be integers.
#[verifier::external_body]
pub(crate) fn get_pixel(img: &DynamicImage, x: u32, y: u32) -> (c: Color)
    requires
        image_color(*img).is_integer(),
        x < image_dimensions(*img).0,
        y < image_dimensions(*img).1,
    ensures
        c == image_pixels(*img)[(x as int, y as int)],
{
    let px: Rgba<u8> = img.get_pixel(x, y);
    Color { red: px.0[0], green: px.0[1], blue: px.0[2], alpha: px.0[3] }
}

/// Whether an output raster of `width` by `height` pixels can be allocated
/// at all, that is, whether the byte length of a row and that of the whole
/// raster fit in `usize`.
pub fn fits_in_memory(width: u32, height: u32) -> (fits: bool)
    ensures
        fits == raster_fits(width, height),
{
    let limit: u128 = usize::MAX as u128;
    let row: u128 = 4 * (width as u128);
    let h: u128 = height as u128;
    assert(row * h <= 0x4_0000_0000 * 0x1_0000_0000) by (nonlinear_arith)
        requires
            0 <= row < 0x4_0000_0000,
            0 <= h < 0x1_0000_0000,
    ;
    row <= limit && row * h <= limit
}

impl OutputRaster {
    /// `ImageBuffer::new`: a raster of the given size with every channel of
    /// every pixel zero. The crate multiplies 4 by the width and then by the
    /// height, and panics when either product overflows `usize`.
    #[verifier::external_body]
    pub(crate) fn blank(width: u32, height: u32) -> (out: OutputRaster)
        requires
            raster_fits(width, height),
        ensures
            raster_dimensions(out) == (width, height),
            raster_pixels(out) == blank_pixels(width, height),
    {
        OutputRaster { image: ImageBuffer::new(width, height) }
    }

    /// `ImageBuffer::put_pixel`: stores `c` at `(x, y)` and leaves the size
    /// and every other pixel as they were. The crate panics outside the
    /// bounds.
    #[verifier::external_body]
    pub(crate) fn put(&mut self, x: u32, y: u32, c: Color)
        requires
            x < raster_dimensions(*old(self)).0,
            y < raster_dimensions(*old(self)).1,
        ensures
            raster_dimensions(*final(self)) == raster_dimensions(*old(self)),
            raster_pixels(*final(self)) == raster_pixels(*old(self)).insert((x as int, y as int), c),
    {
        self.image.put_pixel(x, y, Rgba([c.red, c.green, c.blue, c.alpha]))
    }

    /// `ImageBuffer::dimensions`: the raster's width and height.
    #[verifier::external_body]
    fn size(&self) -> (d: (u32, u32))
        ensures
            d == raster_dimensions(*self),
    {
        self.image.dimensions()
    }

    /// `ImageBuffer::get_pixel`: the colour stored at `(x, y)`. The crate
    /// panics outside the bounds.
    #[verifier::external_body]
    fn get(&self, x: u32, y: u32) -> (c: Color)
        requires
            x < raster_dimensions(*self).0,
            y < raster_dimensions(*self).1,
        ensures
            c == raster_pixels(*self)[(x as int, y as int)],
    {
        let px: &Rgba<u8> = self.image.get_pixel(x, y);
        Color { red: px.0[0], green: px.0[1], blue: px.0[2], alpha: px.0[3] }
    }

    /// `ImageBuffer::into_raw`: the sample bytes of the raster, which the
    /// crate keeps row by row with the four channels of a pixel side by side.
    #[verifier::external_body]
    fn raw(self) -> (bytes: Vec<u8>)
        ensures
            is_rgba_layout(bytes@, raster_dimensions(self), raster_pixels(self)),
    {
        self.image.into_raw()
    }

    /// The number of columns.
    pub fn width(&self) -> (w: u32)
        ensures
            w == raster_dimensions(*self).0,
    {
        self.size().0
    }

    /// The number of rows.
    pub fn height(&self) -> (h: u32)
        ensures
            h == raster_dimensions(*self).1,
    {
        self.size().1
    }

    /// The colour at `(x, y)`, or `None` outside the raster.
    pub fn pixel(&self, x: u32, y: u32) -> (c: Option<Color>)
        ensures
            c == (if x < raster_dimensions(*self).0 && y < raster_dimensions(*self).1 {
                Some(raster_pixels(*self)[(x as int, y as int)])
            } else {
                None
            }),
    {
        let (width, height) = self.size();
        if x < width && y < height {
            Some(self.get(x, y))
        } else {
            None
        }
    }

    /// Gives up the raster as its RGBA bytes, row by row, from which
    /// `image::RgbaImage::from_raw` rebuilds the image without copying.
    pub fn into_raw(self) -> (bytes: Vec<u8>)
        ensures
            is_rgba_layout(bytes@, raster_dimensions(self), raster_pixels(self)),
    {
        self.raw()
    }
}

} // verus!
