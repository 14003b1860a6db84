//! Travel times between cells of the grid.
use vstd::prelude::*;
use crate::model::{Planet, Pos};

verus! {

/// Absolute difference of two coordinates.
pub open spec fn gap(a: usize, b: usize) -> int {
    if a >= b { a - b } else { b - a }
}

/// Square of the Euclidean distance between two cells.
pub open spec fn square_distance(a: Pos, b: Pos) -> int {
    gap(a.0, b.0) * gap(a.0, b.0) + gap(a.1, b.1) * gap(a.1, b.1)
}

/// `n` is the Euclidean distance `sqrt(d2)` halved and rounded up: the least
/// `n >= 0` with `(2n)^2 >= d2`.
pub open spec fn is_half_distance(d2: int, n: int) -> bool {
    &&& n >= 0
    &&& 4 * n * n >= d2
    &&& (n == 0 || 4 * (n - 1) * (n - 1) < d2)
}

/// Turns a fleet needs between two cells: half the Euclidean distance,
/// rounded up.
pub open spec fn travel_time(a: Pos, b: Pos) -> int {
    choose|n: int| is_half_distance(square_distance(a, b), n)
}

proof fn lemma_half_distance_unique(d2: int, n: int, m: int)
    requires
        is_half_distance(d2, n),
        is_half_distance(d2, m),
    ensures
        n == m,
{
    if n < m {
        assert(4 * n * n <= 4 * (m - 1) * (m - 1)) by (nonlinear_arith)
            requires 0 <= n <= m - 1;
    } else if m < n {
        assert(4 * m * m <= 4 * (n - 1) * (n - 1)) by (nonlinear_arith)
            requires 0 <= m <= n - 1;
    }
}

/// A witness of `is_half_distance` is the travel time.
pub proof fn lemma_travel_time_is(a: Pos, b: Pos, n: int)
    requires
        is_half_distance(square_distance(a, b), n),
    ensures
        travel_time(a, b) == n,
{
    let t = travel_time(a, b);
    assert(is_half_distance(square_distance(a, b), t));
    lemma_half_distance_unique(square_distance(a, b), n, t);
}

/// Between two distinct cells a fleet needs at least one turn.
pub proof fn lemma_distinct_cells_take_time(a: Pos, b: Pos, n: int)
    requires
        a != b,
        is_half_distance(square_distance(a, b), n),
    ensures
        n >= 1,
{
    let gx = gap(a.0, b.0);
    let gy = gap(a.1, b.1);
    assert(gx * gx >= 0 && gy * gy >= 0) by (nonlinear_arith);
    if gx >= 1 {
        assert(gx * gx >= 1) by (nonlinear_arith)
            requires gx >= 1;
    } else {
        assert(gy * gy >= 1) by (nonlinear_arith)
            requires gy >= 1;
    }
}

/// Between two cells of a grid whose cell count fits in `usize`, the square
/// of the distance fits in `u128`.
pub proof fn lemma_grid_distance_fits(w: usize, h: usize, a: Pos, b: Pos)
    requires
        a.0 < w,
        a.1 < h,
        b.0 < w,
        b.1 < h,
        w * h <= usize::MAX,
    ensures
        square_distance(a, b) <= u128::MAX,
{
    let gx = gap(a.0, b.0);
    let gy = gap(a.1, b.1);
    let m = gx + gy;
    assert((w - 1) + (h - 1) <= w * h - 1) by (nonlinear_arith)
        requires w >= 1, h >= 1;
    assert(gx * gx + gy * gy <= m * m) by (nonlinear_arith)
        requires gx >= 0, gy >= 0, m == gx + gy;
    assert(m * m <= 0xFFFF_FFFF_FFFF_FFFFint * 0xFFFF_FFFF_FFFF_FFFFint) by (nonlinear_arith)
        requires 0 <= m <= 0xFFFF_FFFF_FFFF_FFFFint;
}

/// Turns a fleet needs from `a` to `b`: the Euclidean distance between their
/// cells, halved and rounded up.
pub fn distance(a: &Planet, b: &Planet) -> (r: usize)
    requires
        square_distance(a.pos, b.pos) <= u128::MAX,
    ensures
        is_half_distance(square_distance(a.pos, b.pos), r as int),
        r == travel_time(a.pos, b.pos),
{
    let (xa, ya) = a.pos;
    let (xb, yb) = b.pos;
    let dx: u128 = if xa >= xb { (xa - xb) as u128 } else { (xb - xa) as u128 };
    let dy: u128 = if ya >= yb { (ya - yb) as u128 } else { (yb - ya) as u128 };
    let longest: u128 = if dx >= dy { dx } else { dy };
    assert(dx * dx + dy * dy == square_distance(a.pos, b.pos));
    assert(0 <= dx * dx && 0 <= dy * dy) by (nonlinear_arith);
    let d2: u128 = dx * dx + dy * dy;
    let mut n: u128 = 0;
    loop
        invariant
            d2 == square_distance(a.pos, b.pos),
            d2 == dx * dx + dy * dy,
            longest == dx || longest == dy,
            dx <= longest,
            dy <= longest,
            longest <= usize::MAX,
            0 <= n <= longest,
            n == 0 || 4 * (n - 1) * (n - 1) < d2,
        ensures
            0 <= n <= longest,
            n == 0 || 4 * (n - 1) * (n - 1) < d2,
            4 * n * n >= d2,
        decreases longest - n,
    {
        let twice: u128 = 2 * n;
        match twice.checked_mul(twice) {
            Some(sq) => {
                if sq >= d2 {
                    assert(4 * n * n == sq) by (nonlinear_arith)
                        requires twice == 2 * n, sq == twice * twice;
                    break;
                }
                assert(4 * n * n < d2) by (nonlinear_arith)
                    requires twice == 2 * n, sq == twice * twice, sq < d2;
            },
            None => {
                assert(4 * n * n >= d2) by (nonlinear_arith)
                    requires twice == 2 * n, twice * twice > u128::MAX, d2 <= u128::MAX;
                break;
            },
        }
        assert(n < longest) by (nonlinear_arith)
            requires
                4 * n * n < d2,
                d2 == dx * dx + dy * dy,
                0 <= dx <= longest,
                0 <= dy <= longest,
                0 <= n,
        {
            if n >= longest {
                assert(dx * dx <= n * n);
                assert(dy * dy <= n * n);
            }
        }
        n = n + 1;
    }
    proof {
        lemma_travel_time_is(a.pos, b.pos, n as int);
    }
    n as usize
}

} // verus!
