//! Pixelisation of a whole image: every pixel of the result takes the colour
//! that the source has at the representative of the pixel's tile.

use vstd::prelude::*;
use image::DynamicImage;
use rayon::iter::{IntoParallelRefIterator, ParallelIterator};
use crate::error::PixelError;
use crate::geometry::{lemma_multiple_divides, Point};
use crate::hexagon::{
    candidate_indices, center_of, clamp_to, hexagon_source, inner_radius, lemma_candidate_centers,
    lemma_center_is_fixed, lemma_hexagon_source_in_bounds, lemma_inner_radius_positive,
    nearest_center, row_gap, same_parity, HexTiler,
};
use crate::raster::{
    color, dimensions, fits_in_memory, get_pixel, image_color, image_dimensions, image_pixels,
    lemma_raster_fits, raster_dimensions, raster_fits, raster_pixels, Color, OutputRaster,
    SampleKind,
};
use crate::square::{lemma_same_tile_same_origin, lemma_tile_origin, tile_origin, SquareTiler};

verus! {

/// The shape of the tiles.
#[derive(Clone, Copy, Debug, PartialEq, Eq, Structural)]
pub enum PixelMode {
    Square,
    Hexagon,
}

/// A pixel of the result together with the colour it takes.
#[derive(Clone, Copy, Debug, PartialEq, Eq, Structural)]
pub struct ColoredPoint {
    pub x: u32,
    pub y: u32,
    pub color: Color,
}

/// Whether `radius` gives tiles of a positive size: a positive side for
/// squares, a positive column and row spacing for hexagons.
pub open spec fn valid_radius(mode: PixelMode, radius: u32) -> bool {
    match mode {
        PixelMode::Square => radius >= 1,
        PixelMode::Hexagon => inner_radius(radius as int) >= 1 && row_gap(radius as int) >= 1,
    }
}

/// Why a pixelisation of an image of size `dims` with samples of kind `kind`
/// is refused, if it is. The radius is judged first, then the samples, then
/// the size.
pub open spec fn refusal(mode: PixelMode, radius: u32, kind: SampleKind, dims: (u32, u32)) -> Option<
    PixelError,
> {
    if !valid_radius(mode, radius) {
        Some(PixelError::InvalidRadius)
    } else if !kind.is_integer() {
        Some(PixelError::UnsupportedSamples)
    } else if !raster_fits(dims.0, dims.1) {
        Some(PixelError::ImageTooLarge)
    } else {
        None
    }
}

/// The pixel of the source whose colour the pixel `(x, y)` of the result
/// takes, in an image of size `dims`.
pub open spec fn source_of(mode: PixelMode, radius: u32, dims: (u32, u32), x: int, y: int) -> (int, int) {
    match mode {
        PixelMode::Square => (tile_origin(x, radius as int), tile_origin(y, radius as int)),
        PixelMode::Hexagon => hexagon_source(
            x,
            y,
            inner_radius(radius as int),
            row_gap(radius as int),
            dims.0 as int,
            dims.1 as int,
        ),
    }
}

/// Whether `out` is the pixelisation of `img`: it has the size of `img`, and
/// each of its pixels has the colour of its source pixel.
pub open spec fn is_pixelisation(out: OutputRaster, img: DynamicImage, mode: PixelMode, radius: u32) -> bool {
    let dims = image_dimensions(img);
    &&& raster_dimensions(out) == dims
    &&& forall|x: int, y: int|
        0 <= x < dims.0 && 0 <= y < dims.1 ==> #[trigger] raster_pixels(out)[(x, y)] == image_pixels(
            img,
        )[source_of(mode, radius, dims, x, y)]
}

/// Pixelises `img` by squares of side `radius`: every pixel takes the colour
/// of the top-left corner of its square. A zero radius is refused, and so are
/// a source without integer samples and an image whose pixelisation could not
/// be held in memory.
pub fn square_pixelisation(img: &DynamicImage, radius: u32) -> (res: Result<OutputRaster, PixelError>)
    ensures
        res is Ok <==> refusal(PixelMode::Square, radius, image_color(*img), image_dimensions(*img))
            is None,
        res is Ok ==> is_pixelisation(res->Ok_0, *img, PixelMode::Square, radius),
        res is Err ==> refusal(PixelMode::Square, radius, image_color(*img), image_dimensions(*img))
            == Some(res->Err_0),
{
    let tiler = match SquareTiler::new(radius) {
        Ok(t) => t,
        Err(e) => {
            return Err(e);
        },
    };
    if !color(img).has_integer_samples() {
        return Err(PixelError::UnsupportedSamples);
    }
    let (width, height) = dimensions(img);
    if !fits_in_memory(width, height) {
        return Err(PixelError::ImageTooLarge);
    }
    let mut out = OutputRaster::blank(width, height);
    let mut y: u32 = 0;
    while y < height
        invariant
            y <= height,
            tiler.spec_radius() == radius,
            image_color(*img).is_integer(),
            image_dimensions(*img) == (width, height),
            raster_dimensions(out) == (width, height),
            forall|i: int, j: int|
                0 <= i < width && 0 <= j < y ==> #[trigger] raster_pixels(out)[(i, j)] == image_pixels(
                    *img,
                )[source_of(PixelMode::Square, radius, (width, height), i, j)],
        decreases height - y,
    {
        let mut x: u32 = 0;
        while x < width
            invariant
                x <= width,
                y < height,
                tiler.spec_radius() == radius,
                image_color(*img).is_integer(),
                image_dimensions(*img) == (width, height),
                raster_dimensions(out) == (width, height),
                forall|i: int, j: int|
                    0 <= i < width && 0 <= j < y ==> #[trigger] raster_pixels(out)[(i, j)]
                        == image_pixels(*img)[source_of(PixelMode::Square, radius, (width, height), i, j)],
                forall|i: int|
                    0 <= i < x ==> #[trigger] raster_pixels(out)[(i, y as int)] == image_pixels(
                        *img,
                    )[source_of(PixelMode::Square, radius, (width, height), i, y as int)],
            decreases width - x,
        {
            let source = tiler.map(x, y);
            let color = get_pixel(img, source.x, source.y);
            out.put(x, y, color);
            x = x + 1;
        }
        y = y + 1;
    }
    Ok(out)
}

/// The coordinate that stands at place `i` of the list of all pixels of a
/// raster with `height` rows, which runs down the columns one after another.
pub open spec fn coordinate_at(i: int, height: u32) -> Point {
    Point { x: (i / (height as int)) as u32, y: (i % (height as int)) as u32 }
}

/// In the list of all pixels, `(x, y)` stands at place `x * height + y`.
pub proof fn lemma_coordinate_at(x: u32, y: u32, width: u32, height: u32)
    requires
        x < width,
        y < height,
    ensures
        0 <= x * height + y < width * height,
        coordinate_at(x * height + y, height) == (Point { x, y }),
{
    let h = height as int;
    let i = x * h + y;
    assert(0 <= i < width * h && i / h == x && i % h == y) by (nonlinear_arith)
        requires
            0 <= x < width,
            0 <= y < h,
            i == x * h + y,
    ;
}

/// All pixels of a `width` by `height` raster, column by column.
pub fn pixel_coordinates(width: u32, height: u32) -> (coordinates: Vec<Point>)
    requires
        width * height <= usize::MAX,
    ensures
        coordinates@.len() == width * height,
        forall|i: int|
            0 <= i < coordinates@.len() ==> #[trigger] coordinates@[i] == coordinate_at(i, height),
        forall|i: int|
            0 <= i < coordinates@.len() ==> (#[trigger] coordinates@[i]).x < width && coordinates@[i].y
                < height,
{
    let mut coordinates: Vec<Point> = Vec::new();
    let mut x: u32 = 0;
    while x < width
        invariant
            x <= width,
            coordinates@.len() == x * height,
            forall|i: int|
                0 <= i < coordinates@.len() ==> #[trigger] coordinates@[i] == coordinate_at(i, height),
            forall|i: int|
                0 <= i < coordinates@.len() ==> (#[trigger] coordinates@[i]).x < width
                    && coordinates@[i].y < height,
        decreases width - x,
    {
        let mut y: u32 = 0;
        while y < height
            invariant
                x < width,
                y <= height,
                coordinates@.len() == x * height + y,
                forall|i: int|
                    0 <= i < coordinates@.len() ==> #[trigger] coordinates@[i] == coordinate_at(
                        i,
                        height,
                    ),
                forall|i: int|
                    0 <= i < coordinates@.len() ==> (#[trigger] coordinates@[i]).x < width
                        && coordinates@[i].y < height,
            decreases height - y,
        {
            proof {
                lemma_coordinate_at(x, y, width, height);
            }
            coordinates.push(Point { x, y });
            y = y + 1;
        }
        assert((x + 1) * height == x * height + height) by (nonlinear_arith);
        x = x + 1;
    }
    coordinates
}

/// The pixel `p` of the result of a hexagonal pixelisation of `img`, with
/// its colour.
pub open spec fn sampled(img: DynamicImage, tiler: HexTiler, p: Point) -> ColoredPoint {
    let dims = image_dimensions(img);
    ColoredPoint {
        x: p.x,
        y: p.y,
        color: image_pixels(img)[tiler.spec_map(p.x, p.y, dims.0, dims.1)],
    }
}

/// Computes one pixel of the result: finds the hexagon of `p` and reads the
/// source at its centre.
fn sample(img: &DynamicImage, tiler: &HexTiler, p: &Point) -> (pixel: ColoredPoint)
    requires
        image_color(*img).is_integer(),
        p.x < image_dimensions(*img).0,
        p.y < image_dimensions(*img).1,
    ensures
        pixel == sampled(*img, *tiler, *p),
{
    let (width, height) = dimensions(img);
    let source = tiler.map(p.x, p.y, width, height);
    ColoredPoint { x: p.x, y: p.y, color: get_pixel(img, source.x, source.y) }
}

/// rayon's `par_iter`, `map` and `collect` into a `Vec`: applies `sample` to
/// every coordinate, on as many threads as rayon sees fit, and gathers the
/// results in the order of the coordinates.
#[verifier::external_body]
fn sample_all(img: &DynamicImage, tiler: &HexTiler, coordinates: &Vec<Point>) -> (pixels: Vec<ColoredPoint>)
    requires
        image_color(*img).is_integer(),
        forall|i: int|
            0 <= i < coordinates@.len() ==> (#[trigger] coordinates@[i]).x < image_dimensions(*img).0
                && coordinates@[i].y < image_dimensions(*img).1,
    ensures
        pixels@.len() == coordinates@.len(),
        forall|i: int|
            0 <= i < coordinates@.len() ==> #[trigger] pixels@[i] == sampled(*img, *tiler, coordinates@[i]),
{
    coordinates.par_iter().map(|p| sample(img, tiler, p)).collect()
}

/// Pixelises `img` by hexagons of outer radius `outer_radius`: every pixel
/// takes the colour of the centre of its hexagon, or of the pixel of the image
/// nearest to that centre. The pixels are computed in parallel. A radius
/// below 2 is refused, and so are a source without integer samples and an
/// image whose pixelisation could not be held in memory.
pub fn hexagon_pixelisation(img: &DynamicImage, outer_radius: u32) -> (res: Result<OutputRaster, PixelError>)
    ensures
        res is Ok <==> refusal(
            PixelMode::Hexagon,
            outer_radius,
            image_color(*img),
            image_dimensions(*img),
        ) is None,
        res is Ok ==> is_pixelisation(res->Ok_0, *img, PixelMode::Hexagon, outer_radius),
        res is Err ==> refusal(
            PixelMode::Hexagon,
            outer_radius,
            image_color(*img),
            image_dimensions(*img),
        ) == Some(res->Err_0),
{
    proof {
        lemma_inner_radius_positive(outer_radius as int);
    }
    let tiler = match HexTiler::new(outer_radius) {
        Ok(t) => t,
        Err(e) => {
            return Err(e);
        },
    };
    if !color(img).has_integer_samples() {
        return Err(PixelError::UnsupportedSamples);
    }
    let (width, height) = dimensions(img);
    if !fits_in_memory(width, height) {
        return Err(PixelError::ImageTooLarge);
    }
    proof {
        lemma_raster_fits(width, height);
    }
    let coordinates = pixel_coordinates(width, height);
    let pixels = sample_all(img, &tiler, &coordinates);
    let mut out = OutputRaster::blank(width, height);
    let mut x: u32 = 0;
    while x < width
        invariant
            x <= width,
            width * height <= usize::MAX,
            image_color(*img).is_integer(),
            image_dimensions(*img) == (width, height),
            raster_dimensions(out) == (width, height),
            tiler.spec_inner_radius() == inner_radius(outer_radius as int),
            tiler.spec_gap() == row_gap(outer_radius as int),
            pixels@.len() == width * height,
            forall|i: int|
                0 <= i < pixels@.len() ==> #[trigger] pixels@[i] == sampled(
                    *img,
                    tiler,
                    coordinate_at(i, height),
                ),
            forall|i: int, j: int|
                0 <= i < x && 0 <= j < height ==> #[trigger] raster_pixels(out)[(i, j)] == image_pixels(
                    *img,
                )[source_of(PixelMode::Hexagon, outer_radius, (width, height), i, j)],
        decreases width - x,
    {
        let mut y: u32 = 0;
        while y < height
            invariant
                x < width,
                y <= height,
                width * height <= usize::MAX,
                image_color(*img).is_integer(),
                image_dimensions(*img) == (width, height),
                raster_dimensions(out) == (width, height),
                tiler.spec_inner_radius() == inner_radius(outer_radius as int),
                tiler.spec_gap() == row_gap(outer_radius as int),
                pixels@.len() == width * height,
                forall|i: int|
                    0 <= i < pixels@.len() ==> #[trigger] pixels@[i] == sampled(
                        *img,
                        tiler,
                        coordinate_at(i, height),
                    ),
                forall|i: int, j: int|
                    0 <= i < x && 0 <= j < height ==> #[trigger] raster_pixels(out)[(i, j)]
                        == image_pixels(*img)[source_of(
                        PixelMode::Hexagon,
                        outer_radius,
                        (width, height),
                        i,
                        j,
                    )],
                forall|j: int|
                    0 <= j < y ==> #[trigger] raster_pixels(out)[(x as int, j)] == image_pixels(
                        *img,
                    )[source_of(PixelMode::Hexagon, outer_radius, (width, height), x as int, j)],
            decreases height - y,
        {
            proof {
                lemma_coordinate_at(x, y, width, height);
            }
            let i: usize = (x as usize) * (height as usize) + (y as usize);
            out.put(x, y, pixels[i].color);
            y = y + 1;
        }
        x = x + 1;
    }
    Ok(out)
}

/// Pixelises `img` by tiles of the shape that `mode` names and of radius
/// `size`.
pub fn pixelise(mode: PixelMode, img: &DynamicImage, size: u32) -> (res: Result<OutputRaster, PixelError>)
    ensures
        res is Ok <==> refusal(mode, size, image_color(*img), image_dimensions(*img)) is None,
        res is Ok ==> is_pixelisation(res->Ok_0, *img, mode, size),
        res is Err ==> refusal(mode, size, image_color(*img), image_dimensions(*img)) == Some(
            res->Err_0,
        ),
{
    match mode {
        PixelMode::Square => square_pixelisation(img, size),
        PixelMode::Hexagon => hexagon_pixelisation(img, size),
    }
}

/// A hexagonal radius is valid from 2 on; a square radius from 1 on.
pub proof fn lemma_valid_radius(mode: PixelMode, radius: u32)
    ensures
        valid_radius(mode, radius) <==> radius >= (match mode {
            PixelMode::Square => 1u32,
            PixelMode::Hexagon => 2u32,
        }),
{
    lemma_inner_radius_positive(radius as int);
}

/// Clamping invariant: with a valid radius, the source of a pixel of the
/// image is a pixel of the image, so no read goes out of range.
pub proof fn lemma_source_in_bounds(mode: PixelMode, radius: u32, dims: (u32, u32), x: int, y: int)
    requires
        valid_radius(mode, radius),
        0 <= x < dims.0,
        0 <= y < dims.1,
    ensures
        0 <= source_of(mode, radius, dims, x, y).0 < dims.0,
        0 <= source_of(mode, radius, dims, x, y).1 < dims.1,
{
    match mode {
        PixelMode::Square => {
            lemma_tile_origin(x, radius as int);
            lemma_tile_origin(y, radius as int);
        },
        PixelMode::Hexagon => {
            lemma_hexagon_source_in_bounds(
                x,
                y,
                inner_radius(radius as int),
                row_gap(radius as int),
                dims.0 as int,
                dims.1 as int,
            );
        },
    }
}

/// Two pixels of the same square tile get the same colour.
pub proof fn lemma_square_tile_is_uniform(
    out: OutputRaster,
    img: DynamicImage,
    radius: u32,
    x1: int,
    y1: int,
    x2: int,
    y2: int,
)
    requires
        is_pixelisation(out, img, PixelMode::Square, radius),
        0 <= x1 < image_dimensions(img).0 && 0 <= y1 < image_dimensions(img).1,
        0 <= x2 < image_dimensions(img).0 && 0 <= y2 < image_dimensions(img).1,
        x1 / (radius as int) == x2 / (radius as int),
        y1 / (radius as int) == y2 / (radius as int),
    ensures
        raster_pixels(out)[(x1, y1)] == raster_pixels(out)[(x2, y2)],
{
    lemma_same_tile_same_origin(x1, x2, radius as int);
    lemma_same_tile_same_origin(y1, y2, radius as int);
}

/// Two pixels of the same hexagon, that is, with the same nearest centre,
/// get the same colour.
pub proof fn lemma_hexagon_is_uniform(
    out: OutputRaster,
    img: DynamicImage,
    radius: u32,
    x1: int,
    y1: int,
    x2: int,
    y2: int,
)
    requires
        is_pixelisation(out, img, PixelMode::Hexagon, radius),
        0 <= x1 < image_dimensions(img).0 && 0 <= y1 < image_dimensions(img).1,
        0 <= x2 < image_dimensions(img).0 && 0 <= y2 < image_dimensions(img).1,
        nearest_center(x1, y1, inner_radius(radius as int), row_gap(radius as int)) == nearest_center(
            x2,
            y2,
            inner_radius(radius as int),
            row_gap(radius as int),
        ),
    ensures
        raster_pixels(out)[(x1, y1)] == raster_pixels(out)[(x2, y2)],
{
}

/// An image of one colour is left as it is, whatever the tiles.
pub proof fn lemma_uniform_image_is_unchanged(
    out: OutputRaster,
    img: DynamicImage,
    mode: PixelMode,
    radius: u32,
    color: Color,
)
    requires
        valid_radius(mode, radius),
        is_pixelisation(out, img, mode, radius),
        forall|x: int, y: int|
            0 <= x < image_dimensions(img).0 && 0 <= y < image_dimensions(img).1
                ==> #[trigger] image_pixels(img)[(x, y)] == color,
    ensures
        forall|x: int, y: int|
            0 <= x < image_dimensions(img).0 && 0 <= y < image_dimensions(img).1
                ==> #[trigger] raster_pixels(out)[(x, y)] == color,
{
    let dims = image_dimensions(img);
    assert forall|x: int, y: int| 0 <= x < dims.0 && 0 <= y < dims.1 implies #[trigger] raster_pixels(
        out,
    )[(x, y)] == color by {
        lemma_source_in_bounds(mode, radius, dims, x, y);
        let s = source_of(mode, radius, dims, x, y);
        assert(image_pixels(img)[(s.0, s.1)] == color);
    }
}

/// An image of a single pixel is left as it is, whatever the tiles.
pub proof fn lemma_single_pixel_is_unchanged(out: OutputRaster, img: DynamicImage, mode: PixelMode, radius: u32)
    requires
        valid_radius(mode, radius),
        is_pixelisation(out, img, mode, radius),
        image_dimensions(img) == (1u32, 1u32),
    ensures
        raster_pixels(out)[(0, 0)] == image_pixels(img)[(0, 0)],
{
    lemma_source_in_bounds(mode, radius, image_dimensions(img), 0, 0);
    let s = source_of(mode, radius, image_dimensions(img), 0, 0);
    assert(s == (0int, 0int));
}

/// Where the centre of a pixel's hexagon lies at or beyond the last column
/// and the last row, the pixel takes the colour of the image's last pixel.
pub proof fn lemma_far_center_reads_last_pixel(out: OutputRaster, img: DynamicImage, radius: u32, x: int, y: int)
    requires
        is_pixelisation(out, img, PixelMode::Hexagon, radius),
        0 <= x < image_dimensions(img).0,
        0 <= y < image_dimensions(img).1,
        nearest_center(x, y, inner_radius(radius as int), row_gap(radius as int)).0
            >= image_dimensions(img).0 - 1,
        nearest_center(x, y, inner_radius(radius as int), row_gap(radius as int)).1
            >= image_dimensions(img).1 - 1,
    ensures
        raster_pixels(out)[(x, y)] == image_pixels(img)[(
            image_dimensions(img).0 - 1,
            image_dimensions(img).1 - 1,
        )],
{
}

/// Each pixel of a hexagonal pixelisation has the colour that the source
/// has at the centre of the pixel's hexagon, each coordinate of the centre
/// cut to the last index of its axis. That place lies in the image.
pub proof fn lemma_pixel_reads_clamped_center(out: OutputRaster, img: DynamicImage, radius: u32, x: int, y: int)
    requires
        valid_radius(PixelMode::Hexagon, radius),
        is_pixelisation(out, img, PixelMode::Hexagon, radius),
        0 <= x < image_dimensions(img).0,
        0 <= y < image_dimensions(img).1,
    ensures
        ({
            let dims = image_dimensions(img);
            let c = nearest_center(x, y, inner_radius(radius as int), row_gap(radius as int));
            let sx = if c.0 < dims.0 - 1 { c.0 } else { dims.0 - 1 };
            let sy = if c.1 < dims.1 - 1 { c.1 } else { dims.1 - 1 };
            &&& 0 <= sx <= dims.0 - 1
            &&& 0 <= sy <= dims.1 - 1
            &&& raster_pixels(out)[(x, y)] == image_pixels(img)[(sx, sy)]
        }),
{
    lemma_source_in_bounds(PixelMode::Hexagon, radius, image_dimensions(img), x, y);
}

/// Each pixel of a hexagonal pixelisation has the colour at one of its two
/// candidate centres, cut into the image, and both candidates are positions
/// of the lattice: their columns and rows have the same parity.
pub proof fn lemma_pixel_reads_a_candidate(out: OutputRaster, img: DynamicImage, radius: u32, x: int, y: int)
    requires
        valid_radius(PixelMode::Hexagon, radius),
        is_pixelisation(out, img, PixelMode::Hexagon, radius),
        0 <= x < image_dimensions(img).0,
        0 <= y < image_dimensions(img).1,
    ensures
        ({
            let dims = image_dimensions(img);
            let r = inner_radius(radius as int);
            let g = row_gap(radius as int);
            let (a, b) = candidate_indices(x, y, r, g);
            let ca = center_of(a, r, g);
            let cb = center_of(b, r, g);
            &&& same_parity(a.0, a.1) && same_parity(b.0, b.1)
            &&& a.0 == x / r && b.0 == x / r + 1
            &&& (a.1 == y / g && b.1 == y / g + 1) || (a.1 == y / g + 1 && b.1 == y / g)
            &&& raster_pixels(out)[(x, y)] == image_pixels(img)[(
                clamp_to(ca.0, dims.0 as int),
                clamp_to(ca.1, dims.1 as int),
            )] || raster_pixels(out)[(x, y)] == image_pixels(img)[(
                clamp_to(cb.0, dims.0 as int),
                clamp_to(cb.1, dims.1 as int),
            )]
        }),
{
    lemma_candidate_centers(x, y, inner_radius(radius as int), row_gap(radius as int));
}

/// A centre of the lattice that lies in the image keeps its own colour.
pub proof fn lemma_center_keeps_its_color(out: OutputRaster, img: DynamicImage, radius: u32, col: int, row: int)
    requires
        valid_radius(PixelMode::Hexagon, radius),
        is_pixelisation(out, img, PixelMode::Hexagon, radius),
        0 <= col,
        0 <= row,
        same_parity(col, row),
        col * inner_radius(radius as int) < image_dimensions(img).0,
        row * row_gap(radius as int) < image_dimensions(img).1,
    ensures
        raster_pixels(out)[(col * inner_radius(radius as int), row * row_gap(radius as int))]
            == image_pixels(img)[(col * inner_radius(radius as int), row * row_gap(radius as int))],
{
    let r = inner_radius(radius as int);
    let g = row_gap(radius as int);
    lemma_multiple_divides(col, r);
    lemma_multiple_divides(row, g);
    lemma_center_is_fixed(col, row, r, g);
}

} // verus!
