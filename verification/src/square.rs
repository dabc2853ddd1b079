//! Square tiling: a pixel belongs to the axis-aligned square of side `radius`
//! that contains it, and is represented by that square's top-left corner.

use vstd::prelude::*;
use crate::error::PixelError;
use crate::geometry::{lemma_floor_multiple, Point};

verus! {

/// The largest multiple of `radius` that does not exceed `v`.
pub open spec fn tile_origin(v: int, radius: int) -> int {
    (v / radius) * radius
}

/// A square tiling with a fixed, non-zero tile side.
#[derive(Clone, Copy, Debug)]
pub struct SquareTiler {
    radius: u32,
}

impl SquareTiler {
    #[verifier::type_invariant]
    spec fn well_formed(self) -> bool {
        self.radius >= 1
    }

    /// The side of a tile, in pixels.
    pub closed spec fn spec_radius(&self) -> u32 {
        self.radius
    }

    /// The point that `map` returns for the pixel `(x, y)`.
    pub open spec fn spec_map(self, x: u32, y: u32) -> (int, int) {
        (tile_origin(x as int, self.spec_radius() as int), tile_origin(y as int, self.spec_radius() as int))
    }

    /// A tiling with tiles of side `radius`; a zero radius is refused.
    pub fn new(radius: u32) -> (res: Result<SquareTiler, PixelError>)
        ensures
            radius == 0 ==> res == Err::<SquareTiler, PixelError>(PixelError::InvalidRadius),
            radius >= 1 ==> res is Ok && res->Ok_0.spec_radius() == radius,
    {
        if radius == 0 {
            Err(PixelError::InvalidRadius)
        } else {
            Ok(SquareTiler { radius })
        }
    }

    /// The side of a tile, in pixels; never zero.
    #[verifier::when_used_as_spec(spec_radius)]
    pub fn radius(&self) -> (r: u32)
        ensures
            r == self.spec_radius(),
            r >= 1,
    {
        proof {
            use_type_invariant(self);
        }
        self.radius
    }

    /// The top-left corner of the tile that holds `(x, y)`.
    pub fn map(&self, x: u32, y: u32) -> (p: Point)
        ensures
            (p.x as int, p.y as int) == self.spec_map(x, y),
            p.x <= x < p.x + self.spec_radius(),
            p.y <= y < p.y + self.spec_radius(),
            p.x % self.spec_radius() == 0,
            p.y % self.spec_radius() == 0,
    {
        proof {
            use_type_invariant(self);
            lemma_tile_origin(x as int, self.radius as int);
            lemma_tile_origin(y as int, self.radius as int);
        }
        Point { x: x / self.radius * self.radius, y: y / self.radius * self.radius }
    }
}

/// `tile_origin(v, radius)` is a multiple of `radius`, is no larger than `v`,
/// and the next multiple is larger than `v`.
pub proof fn lemma_tile_origin(v: int, radius: int)
    requires
        0 <= v,
        1 <= radius,
    ensures
        0 <= tile_origin(v, radius) <= v < tile_origin(v, radius) + radius,
        tile_origin(v, radius) % radius == 0,
        tile_origin(v, radius) / radius == v / radius,
{
    lemma_floor_multiple(v, radius);
}

/// The corner of a tile is its own representative.
pub proof fn lemma_tile_origin_idempotent(v: int, radius: int)
    requires
        0 <= v,
        1 <= radius,
    ensures
        tile_origin(tile_origin(v, radius), radius) == tile_origin(v, radius),
{
    lemma_tile_origin(v, radius);
}

/// Mapping the point that `map` returned gives that point again.
pub proof fn lemma_map_is_idempotent(tiler: SquareTiler, x: u32, y: u32)
    requires
        tiler.spec_radius() >= 1,
    ensures
        ({
            let p = tiler.spec_map(x, y);
            &&& 0 <= p.0 <= x
            &&& 0 <= p.1 <= y
            &&& tiler.spec_map(p.0 as u32, p.1 as u32) == p
        }),
{
    lemma_tile_origin(x as int, tiler.spec_radius() as int);
    lemma_tile_origin(y as int, tiler.spec_radius() as int);
    lemma_tile_origin_idempotent(x as int, tiler.spec_radius() as int);
    lemma_tile_origin_idempotent(y as int, tiler.spec_radius() as int);
}

/// Two coordinates in the same tile have the same representative.
pub proof fn lemma_same_tile_same_origin(a: int, b: int, radius: int)
    requires
        a / radius == b / radius,
    ensures
        tile_origin(a, radius) == tile_origin(b, radius),
{
}

} // verus!
