//! Hexagonal tiling.
//!
//! Hexagons of outer radius `R` stand with two edges parallel to the y axis.
//! Their centres lie on a grid whose columns are `r` apart and whose rows are
//! `g` apart, where `r` is the inner radius `R * cos(30 deg)` and `g` is
//! `1.5 * R`, both rounded down to whole pixels. Only grid positions whose
//! column and row have the same parity hold a centre.
//!
//! A pixel lies in one cell of that grid. Of the four corners of the cell two
//! are centres, one on each diagonal end, and the pixel is represented by the
//! one at the smaller squared distance. When both are equally far, the second
//! candidate (the one in the higher column) is taken.

use vstd::prelude::*;
use crate::error::PixelError;
use crate::geometry::{lemma_floor_multiple, lemma_multiple_divides, GridIndex, Point};

verus! {

/// `r` is the inner radius of a hexagon of outer radius `outer`, rounded
/// down: the largest integer with `r <= outer * sqrt(3) / 2`.
pub open spec fn is_inner_radius(r: int, outer: int) -> bool {
    0 <= r && 4 * (r * r) <= 3 * (outer * outer) < 4 * ((r + 1) * (r + 1))
}

/// The distance between two rows of centres: `1.5 * outer`, rounded down.
pub open spec fn row_gap(outer: int) -> int {
    (3 * outer) / 2
}

/// Whether a grid position holds the centre of a hexagon.
pub open spec fn same_parity(col: int, row: int) -> bool {
    col % 2 == row % 2
}

/// The two corners of the cell of `(x, y)` that are centres, as grid
/// positions. The first is in the lower column, the second in the higher.
pub open spec fn candidate_indices(x: int, y: int, r: int, g: int) -> ((int, int), (int, int)) {
    let col = x / r;
    let row = y / g;
    if same_parity(col, row) {
        ((col, row), (col + 1, row + 1))
    } else {
        ((col, row + 1), (col + 1, row))
    }
}

/// The pixel coordinate of the grid position `idx`.
pub open spec fn center_of(idx: (int, int), r: int, g: int) -> (int, int) {
    (idx.0 * r, idx.1 * g)
}

/// The squared Euclidean distance from `(x, y)` to `c`.
pub open spec fn distance_squared(x: int, y: int, c: (int, int)) -> int {
    (c.0 - x) * (c.0 - x) + (c.1 - y) * (c.1 - y)
}

/// The centre that represents `(x, y)`: the first candidate when it is
/// strictly nearer, the second otherwise.
pub open spec fn nearest_center(x: int, y: int, r: int, g: int) -> (int, int) {
    let (a, b) = candidate_indices(x, y, r, g);
    let ca = center_of(a, r, g);
    let cb = center_of(b, r, g);
    if distance_squared(x, y, ca) < distance_squared(x, y, cb) {
        ca
    } else {
        cb
    }
}

/// `v`, or the last index of an axis of length `len` when `v` lies beyond it.
pub open spec fn clamp_to(v: int, len: int) -> int {
    if v < len {
        v
    } else {
        len - 1
    }
}

/// The pixel of a `width` by `height` raster that supplies the colour of
/// `(x, y)`: the nearest centre, clamped into the raster.
pub open spec fn hexagon_source(x: int, y: int, r: int, g: int, width: int, height: int) -> (int, int) {
    let c = nearest_center(x, y, r, g);
    (clamp_to(c.0, width), clamp_to(c.1, height))
}

/// The inner radius of a hexagon of outer radius `outer`, rounded down.
pub open spec fn inner_radius(outer: int) -> int {
    choose|r: int| is_inner_radius(r, outer)
}

/// Every outer radius has an inner radius.
pub proof fn lemma_inner_radius_exists(outer: int) -> (r: int)
    requires
        0 <= outer,
    ensures
        is_inner_radius(r, outer),
    decreases outer,
{
    if outer == 0 {
        assert(is_inner_radius(0, 0)) by (nonlinear_arith);
        0
    } else {
        let p = lemma_inner_radius_exists(outer - 1);
        let t = outer - 1;
        if 4 * ((p + 1) * (p + 1)) <= 3 * (outer * outer) {
            assert(3 * (outer * outer) < 4 * ((p + 2) * (p + 2))) by (nonlinear_arith)
                requires
                    0 <= p,
                    0 <= t,
                    outer == t + 1,
                    3 * (t * t) < 4 * ((p + 1) * (p + 1)),
            ;
            p + 1
        } else {
            assert(4 * (p * p) <= 3 * (outer * outer)) by (nonlinear_arith)
                requires
                    0 <= t,
                    outer == t + 1,
                    4 * (p * p) <= 3 * (t * t),
            ;
            p
        }
    }
}

/// The inner radius that belongs to an outer radius is unique.
pub proof fn lemma_inner_radius_unique(r: int, outer: int)
    requires
        is_inner_radius(r, outer),
    ensures
        r == inner_radius(outer),
{
    let c = inner_radius(outer);
    assert(is_inner_radius(c, outer));
    assert(r == c) by (nonlinear_arith)
        requires
            0 <= r,
            0 <= c,
            4 * (r * r) < 4 * ((c + 1) * (c + 1)),
            4 * (c * c) < 4 * ((r + 1) * (r + 1)),
    ;
}

/// The inner radius rounds down to zero exactly for outer radii below 2; from
/// 2 on it is positive, smaller than the outer radius, and the rows are at
/// least three pixels apart.
pub proof fn lemma_inner_radius_positive(outer: int)
    requires
        0 <= outer,
    ensures
        is_inner_radius(inner_radius(outer), outer),
        inner_radius(outer) == 0 <==> outer < 2,
        outer >= 1 ==> inner_radius(outer) < outer,
        outer >= 2 ==> inner_radius(outer) >= 1 && row_gap(outer) >= 3,
{
    let r = lemma_inner_radius_exists(outer);
    lemma_inner_radius_unique(r, outer);
    assert((r == 0 <==> outer < 2) && (outer >= 1 ==> r < outer)) by (nonlinear_arith)
        requires
            0 <= outer,
            0 <= r,
            4 * (r * r) <= 3 * (outer * outer) < 4 * ((r + 1) * (r + 1)),
    ;
}

/// The inner radius of a hexagon of outer radius `outer_radius`, rounded down
/// to whole pixels. Computed in integers, so the result is exact for every
/// radius.
pub fn inner_radius_of(outer_radius: u32) -> (r: u32)
    ensures
        r == inner_radius(outer_radius as int),
        is_inner_radius(r as int, outer_radius as int),
{
    if outer_radius == 0 {
        proof {
            lemma_inner_radius_positive(0);
        }
        return 0;
    }
    let wide: u128 = outer_radius as u128;
    assert(wide * wide <= 0x1_0000_0000 * 0x1_0000_0000) by (nonlinear_arith)
        requires
            0 <= wide < 0x1_0000_0000,
    ;
    let target: u128 = 3 * (wide * wide);
    let mut lo: u32 = 0;
    let mut hi: u32 = outer_radius;
    assert(target < 4 * (hi * hi)) by (nonlinear_arith)
        requires
            target == 3 * (wide * wide),
            hi == wide,
            wide >= 1,
    ;
    while hi - lo > 1
        invariant
            lo < hi <= outer_radius,
            target == 3 * (outer_radius * outer_radius),
            4 * (lo * lo) <= target < 4 * (hi * hi),
        decreases hi - lo,
    {
        let mid: u32 = lo + (hi - lo) / 2;
        let m: u128 = mid as u128;
        assert(m * m <= 0x1_0000_0000 * 0x1_0000_0000) by (nonlinear_arith)
            requires
                0 <= m < 0x1_0000_0000,
        ;
        let probe: u128 = 4 * (m * m);
        if probe <= target {
            lo = mid;
        } else {
            hi = mid;
        }
    }
    proof {
        lemma_inner_radius_unique(lo as int, outer_radius as int);
    }
    lo
}

/// The squared distance from the pixel `(x, y)` to the centre `(cx, cy)`.
/// The differences are taken by magnitude, so a centre on either side of the
/// pixel is measured alike.
fn squared_distance(x: u32, y: u32, cx: u64, cy: u64) -> (d: u128)
    requires
        cx < 0x1_0000_0000_0000,
        cy < 0x1_0000_0000_0000,
    ensures
        d == distance_squared(x as int, y as int, (cx as int, cy as int)),
{
    let px: u64 = x as u64;
    let py: u64 = y as u64;
    let dx: u128 = (if cx >= px { cx - px } else { px - cx }) as u128;
    let dy: u128 = (if cy >= py { cy - py } else { py - cy }) as u128;
    assert(dx * dx <= 0x1_0000_0000_0000 * 0x1_0000_0000_0000 && dx * dx == (cx - px) * (cx - px))
        by (nonlinear_arith)
        requires
            0 <= dx < 0x1_0000_0000_0000,
            dx == cx - px || dx == px - cx,
    ;
    assert(dy * dy <= 0x1_0000_0000_0000 * 0x1_0000_0000_0000 && dy * dy == (cy - py) * (cy - py))
        by (nonlinear_arith)
        requires
            0 <= dy < 0x1_0000_0000_0000,
            dy == cy - py || dy == py - cy,
    ;
    dx * dx + dy * dy
}

/// A hexagonal tiling, with the grid spacing derived from the outer radius
/// once and for all.
#[derive(Clone, Copy, Debug)]
pub struct HexTiler {
    outer_radius: u32,
    inner_radius: u32,
    gap: u64,
}

impl HexTiler {
    #[verifier::type_invariant]
    spec fn well_formed(self) -> bool {
        &&& self.inner_radius >= 1
        &&& self.gap >= 1
        &&& self.inner_radius == inner_radius(self.outer_radius as int)
        &&& self.gap == row_gap(self.outer_radius as int)
    }

    /// The outer radius the tiling was made with.
    pub closed spec fn spec_outer_radius(&self) -> u32 {
        self.outer_radius
    }

    /// The distance between two columns of the grid.
    pub closed spec fn spec_inner_radius(&self) -> u32 {
        self.inner_radius
    }

    /// The distance between two rows of the grid.
    pub closed spec fn spec_gap(&self) -> u64 {
        self.gap
    }

    /// The centre that `nearest_center` returns for the pixel `(x, y)`.
    pub open spec fn spec_nearest_center(&self, x: u32, y: u32) -> (int, int) {
        nearest_center(x as int, y as int, self.spec_inner_radius() as int, self.spec_gap() as int)
    }

    /// The point that `map` returns for the pixel `(x, y)`.
    pub open spec fn spec_map(&self, x: u32, y: u32, width: u32, height: u32) -> (int, int) {
        hexagon_source(
            x as int,
            y as int,
            self.spec_inner_radius() as int,
            self.spec_gap() as int,
            width as int,
            height as int,
        )
    }

    /// The tiling by hexagons of outer radius `outer_radius`. Radii 0 and 1 are
    /// refused: their inner radius rounds down to zero.
    pub fn new(outer_radius: u32) -> (res: Result<HexTiler, PixelError>)
        ensures
            outer_radius < 2 ==> res == Err::<HexTiler, PixelError>(PixelError::InvalidRadius),
            outer_radius >= 2 ==> res is Ok && res->Ok_0.spec_outer_radius() == outer_radius,
            res is Ok ==> res->Ok_0.spec_inner_radius() == inner_radius(outer_radius as int)
                && res->Ok_0.spec_gap() == row_gap(outer_radius as int),
    {
        let inner_radius: u32 = inner_radius_of(outer_radius);
        proof {
            lemma_inner_radius_positive(outer_radius as int);
        }
        if inner_radius == 0 {
            return Err(PixelError::InvalidRadius);
        }
        let gap: u64 = 3 * (outer_radius as u64) / 2;
        Ok(HexTiler { outer_radius, inner_radius, gap })
    }

    /// The outer radius the tiling was made with; at least 2.
    #[verifier::when_used_as_spec(spec_outer_radius)]
    pub fn outer_radius(&self) -> (r: u32)
        ensures
            r == self.spec_outer_radius(),
            r >= 2,
    {
        proof {
            use_type_invariant(self);
            lemma_inner_radius_positive(self.outer_radius as int);
        }
        self.outer_radius
    }

    /// The distance between two columns of the grid: the inner radius of
    /// the hexagons, rounded down. Never zero.
    #[verifier::when_used_as_spec(spec_inner_radius)]
    pub fn inner_radius(&self) -> (r: u32)
        ensures
            r == self.spec_inner_radius(),
            r >= 1,
            r == inner_radius(self.spec_outer_radius() as int),
    {
        proof {
            use_type_invariant(self);
        }
        self.inner_radius
    }

    /// The distance between two rows of the grid: one and a half outer
    /// radii, rounded down. Never zero.
    #[verifier::when_used_as_spec(spec_gap)]
    pub fn gap(&self) -> (g: u64)
        ensures
            g == self.spec_gap(),
            g >= 1,
            g == row_gap(self.spec_outer_radius() as int),
    {
        proof {
            use_type_invariant(self);
        }
        self.gap
    }

    /// The grid positions of the two centres between which `(x, y)` is
    /// decided. Both are positions that hold a centre.
    pub fn candidates(&self, x: u32, y: u32) -> (pair: (GridIndex, GridIndex))
        ensures
            ((pair.0.col as int, pair.0.row as int), (pair.1.col as int, pair.1.row as int))
                == candidate_indices(
                x as int,
                y as int,
                self.spec_inner_radius() as int,
                self.spec_gap() as int,
            ),
            same_parity(pair.0.col as int, pair.0.row as int),
            same_parity(pair.1.col as int, pair.1.row as int),
            pair.1.col == pair.0.col + 1,
    {
        proof {
            use_type_invariant(self);
            lemma_floor_multiple(x as int, self.inner_radius as int);
            lemma_floor_multiple(y as int, self.gap as int);
        }
        let col: u64 = (x / self.inner_radius) as u64;
        let row: u64 = (y as u64) / self.gap;
        if (col % 2 == 0) == (row % 2 == 0) {
            (GridIndex { col, row }, GridIndex { col: col + 1, row: row + 1 })
        } else {
            (GridIndex { col, row: row + 1 }, GridIndex { col: col + 1, row })
        }
    }

    /// The centre of the hexagon that `(x, y)` lies in. It may lie beyond the
    /// right or lower edge of a raster that holds the pixel.
    pub fn nearest_center(&self, x: u32, y: u32) -> (c: (u64, u64))
        ensures
            (c.0 as int, c.1 as int) == self.spec_nearest_center(x, y),
    {
        let (a, b) = self.candidates(x, y);
        proof {
            use_type_invariant(self);
            lemma_candidate_centers(x as int, y as int, self.inner_radius as int, self.gap as int);
            lemma_inner_radius_positive(self.outer_radius as int);
        }
        let r: u64 = self.inner_radius as u64;
        let ax: u64 = a.col * r;
        let ay: u64 = a.row * self.gap;
        let bx: u64 = b.col * r;
        let by: u64 = b.row * self.gap;
        let d1: u128 = squared_distance(x, y, ax, ay);
        let d2: u128 = squared_distance(x, y, bx, by);
        if d1 < d2 {
            (ax, ay)
        } else {
            (bx, by)
        }
    }

    /// The pixel of a `width` by `height` raster whose colour the pixel
    /// `(x, y)` takes: the centre of its hexagon, or the nearest pixel of the
    /// raster where that centre lies outside.
    pub fn map(&self, x: u32, y: u32, width: u32, height: u32) -> (p: Point)
        requires
            x < width,
            y < height,
        ensures
            (p.x as int, p.y as int) == self.spec_map(x, y, width, height),
            p.x < width,
            p.y < height,
    {
        let c = self.nearest_center(x, y);
        let last_x: u64 = (width - 1) as u64;
        let last_y: u64 = (height - 1) as u64;
        let sx: u64 = if c.0 < last_x { c.0 } else { last_x };
        let sy: u64 = if c.1 < last_y { c.1 } else { last_y };
        Point { x: sx as u32, y: sy as u32 }
    }
}

/// Where the two candidate centres of a pixel lie: in each direction one at
/// or before the pixel and one after it, at most one grid step away.
pub proof fn lemma_candidate_centers(x: int, y: int, r: int, g: int)
    requires
        0 <= x,
        0 <= y,
        1 <= r,
        1 <= g,
    ensures
        ({
            let (a, b) = candidate_indices(x, y, r, g);
            let ca = center_of(a, r, g);
            let cb = center_of(b, r, g);
            &&& 0 <= a.0 && 0 <= a.1 && 0 <= b.0 && 0 <= b.1
            &&& same_parity(a.0, a.1) && same_parity(b.0, b.1)
            &&& b.0 == a.0 + 1
            &&& ca.0 <= x < cb.0 == ca.0 + r
            &&& 0 <= ca.1 <= y + g && 0 <= cb.1 <= y + g
            &&& (ca.1 <= y < cb.1 == ca.1 + g) || (cb.1 <= y < ca.1 == cb.1 + g)
        }),
{
    lemma_floor_multiple(x, r);
    lemma_floor_multiple(y, g);
}

/// The source pixel of a pixel of the raster lies in the raster.
pub proof fn lemma_hexagon_source_in_bounds(x: int, y: int, r: int, g: int, width: int, height: int)
    requires
        0 <= x < width,
        0 <= y < height,
        1 <= r,
        1 <= g,
    ensures
        0 <= hexagon_source(x, y, r, g, width, height).0 < width,
        0 <= hexagon_source(x, y, r, g, width, height).1 < height,
{
    lemma_candidate_centers(x, y, r, g);
}

/// A centre that lies in the raster is its own source: mapping a centre
/// gives the centre back.
pub proof fn lemma_center_is_fixed(col: int, row: int, r: int, g: int)
    requires
        0 <= col,
        0 <= row,
        same_parity(col, row),
        1 <= r,
        1 <= g,
    ensures
        nearest_center(col * r, row * g, r, g) == center_of((col, row), r, g),
{
    let x = col * r;
    let y = row * g;
    lemma_multiple_divides(col, r);
    lemma_multiple_divides(row, g);
    let (a, b) = candidate_indices(x, y, r, g);
    assert(a == (col, row));
    assert(b == (col + 1, row + 1));
    let cb = center_of(b, r, g);
    let ca = center_of(a, r, g);
    assert(distance_squared(x, y, ca) == 0) by (nonlinear_arith)
        requires
            ca.0 == x,
            ca.1 == y,
            distance_squared(x, y, ca) == (ca.0 - x) * (ca.0 - x) + (ca.1 - y) * (ca.1 - y),
    ;
    assert(distance_squared(x, y, cb) > 0) by (nonlinear_arith)
        requires
            cb.0 == (col + 1) * r,
            cb.1 == (row + 1) * g,
            x == col * r,
            y == row * g,
            1 <= r,
            1 <= g,
            distance_squared(x, y, cb) == (cb.0 - x) * (cb.0 - x) + (cb.1 - y) * (cb.1 - y),
    ;
}

/// The centre found for a pixel is found again for the centre itself.
pub proof fn lemma_nearest_center_is_fixed(x: int, y: int, r: int, g: int)
    requires
        0 <= x,
        0 <= y,
        1 <= r,
        1 <= g,
    ensures
        ({
            let c = nearest_center(x, y, r, g);
            nearest_center(c.0, c.1, r, g) == c
        }),
{
    lemma_candidate_centers(x, y, r, g);
    let (a, b) = candidate_indices(x, y, r, g);
    lemma_center_is_fixed(a.0, a.1, r, g);
    lemma_center_is_fixed(b.0, b.1, r, g);
}

/// Along one axis with grid lines `step` apart: a grid line other than the
/// one after `v` is at least as far from `v` as the line at or before `v`,
/// and a grid line other than the one at or before `v` is at least as far as
/// the line after `v`.
proof fn lemma_axis_distance(v: int, step: int, k: int)
    requires
        0 <= v,
        1 <= step,
    ensures
        ({
            let q = v / step;
            let d = k * step - v;
            let below = q * step - v;
            let above = (q + 1) * step - v;
            &&& k != q + 1 ==> d * d >= below * below
            &&& k != q ==> d * d >= above * above
        }),
{
    lemma_floor_multiple(v, step);
    let q = v / step;
    let d = k * step - v;
    let below = q * step - v;
    let above = (q + 1) * step - v;
    assert(-step < below <= 0 < above <= step);
    if k <= q {
        assert(d <= below) by (nonlinear_arith)
            requires
                k <= q,
                1 <= step,
                d == k * step - v,
                below == q * step - v,
        ;
        assert(d * d >= below * below) by (nonlinear_arith)
            requires
                d <= below <= 0,
        ;
        if k != q {
            assert(d <= below - step) by (nonlinear_arith)
                requires
                    k <= q - 1,
                    1 <= step,
                    d == k * step - v,
                    below == q * step - v,
            ;
            assert(d * d >= above * above) by (nonlinear_arith)
                requires
                    d <= -above,
                    0 < above,
            ;
        }
    } else {
        assert(d >= above) by (nonlinear_arith)
            requires
                k >= q + 1,
                1 <= step,
                d == k * step - v,
                above == (q + 1) * step - v,
        ;
        assert(d * d >= above * above) by (nonlinear_arith)
            requires
                d >= above > 0,
        ;
        if k != q + 1 {
            assert(d >= above + step) by (nonlinear_arith)
                requires
                    k >= q + 2,
                    1 <= step,
                    d == k * step - v,
                    above == (q + 1) * step - v,
            ;
            assert(d * d >= below * below) by (nonlinear_arith)
                requires
                    d >= -below,
                    below <= 0,
            ;
        }
    }
}

/// No centre of the lattice is nearer to a pixel than the centre found for
/// it: the search among two candidates is a search among all hexagons.
pub proof fn lemma_nearest_among_all_centers(x: int, y: int, r: int, g: int, col: int, row: int)
    requires
        0 <= x,
        0 <= y,
        1 <= r,
        1 <= g,
        same_parity(col, row),
    ensures
        distance_squared(x, y, nearest_center(x, y, r, g)) <= distance_squared(
            x,
            y,
            center_of((col, row), r, g),
        ),
{
    lemma_axis_distance(x, r, col);
    lemma_axis_distance(y, g, row);
}

} // verus!
