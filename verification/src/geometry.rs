//! Coordinates shared by the tilings and the rasters.

use vstd::prelude::*;

verus! {

/// A pixel coordinate: `x` counts columns from the left, `y` rows from the top.
#[derive(Clone, Copy, Debug, PartialEq, Eq, Structural)]
pub struct Point {
    pub x: u32,
    pub y: u32,
}

/// The position of a hexagon in the lattice: its column and its row.
#[derive(Clone, Copy, Debug, PartialEq, Eq, Structural)]
pub struct GridIndex {
    pub col: u64,
    pub row: u64,
}

/// `(v / step) * step` is the multiple of `step` at or below `v`, and the next
/// multiple lies above `v`.
pub proof fn lemma_floor_multiple(v: int, step: int)
    requires
        0 <= v,
        1 <= step,
    ensures
        0 <= v / step <= v,
        0 <= (v / step) * step <= v < (v / step + 1) * step,
        (v / step + 1) * step == (v / step) * step + step,
        ((v / step) * step) % step == 0,
        ((v / step) * step) / step == v / step,
{
    let q = v / step;
    assert(0 <= q <= v && 0 <= q * step <= v < (q + 1) * step && (q + 1) * step == q * step + step
        && (q * step) % step == 0 && (q * step) / step == q) by (nonlinear_arith)
        requires
            0 <= v,
            1 <= step,
            q == v / step,
    ;
}

/// A multiple of `step` divides back to its factor.
pub proof fn lemma_multiple_divides(k: int, step: int)
    requires
        0 <= k,
        1 <= step,
    ensures
        (k * step) / step == k,
        0 <= k * step,
{
    assert((k * step) / step == k && 0 <= k * step) by (nonlinear_arith)
        requires
            0 <= k,
            1 <= step,
    ;
}

} // verus!
