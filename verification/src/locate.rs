//! Feature locator: finds a narrow neck in a square match mask.
//!
//! The mask is a byte sequence read as a square grid whose side is the
//! integer square root of its length. Scanning rows from just below the
//! vertical midpoint up to the top, the locator takes the lowest such row
//! with a nonzero pixel at the fixed probe column, then on the row below it
//! finds the nearest nonzero pixel left of the horizontal midpoint and the
//! nearest one right of it, and returns the midpoint of those two columns
//! together with that row.

use vstd::arithmetic::mul::lemma_mul_inequality;
use vstd::prelude::*;

use crate::math::{isqrt_u64, lemma_sqrt_floor_bounds, sqrt_floor};

verus! {

/// Fixed probe column of the row scan; the mask is expected to be wider
/// than this, as with the intended square capture region of side 100.
pub const PROBE_COLUMN: usize = 50;

/// The lowest row below `row_bound` with a nonzero pixel at the probe
/// column, scanning upward from `row_bound - 1`.
pub open spec fn scan_rows_at_probe(m: Seq<u8>, side: int, row_bound: int) -> Option<int>
    decreases row_bound,
{
    if row_bound <= 0 {
        None
    } else if m[(row_bound - 1) * side + PROBE_COLUMN as int] > 0 {
        Some(row_bound - 1)
    } else {
        scan_rows_at_probe(m, side, row_bound - 1)
    }
}

/// The rightmost nonzero column below `col_bound` on `row`, scanning
/// leftward from `col_bound - 1`.
pub open spec fn scan_row_leftward(m: Seq<u8>, side: int, row: int, col_bound: int) -> Option<
    int,
>
    decreases col_bound,
{
    if col_bound <= 0 {
        None
    } else if m[row * side + (col_bound - 1)] > 0 {
        Some(col_bound - 1)
    } else {
        scan_row_leftward(m, side, row, col_bound - 1)
    }
}

/// The leftmost nonzero column at or after `col` on `row`, scanning
/// rightward up to the last column.
pub open spec fn scan_row_rightward(m: Seq<u8>, side: int, row: int, col: int) -> Option<int>
    decreases side - col,
{
    if col >= side {
        None
    } else if m[row * side + col] > 0 {
        Some(col)
    } else {
        scan_row_rightward(m, side, row, col + 1)
    }
}

/// The feature point of a square mask, or `None` when any of the three
/// scans finds nothing: the probe scan covers the rows of the upper half;
/// on the row below its hit, the left scan covers the columns of the left
/// half and the right scan the columns right of the midpoint; the point is
/// the floor midpoint of the two hit columns, on that lower row.
pub open spec fn head_point_of(m: Seq<u8>) -> Option<(int, int)> {
    let side = sqrt_floor(m.len()) as int;
    match scan_rows_at_probe(m, side, side / 2) {
        None => None,
        Some(top_row) => match scan_row_leftward(m, side, top_row + 1, side / 2) {
            None => None,
            Some(left) => match scan_row_rightward(m, side, top_row + 1, side / 2 + 1) {
                None => None,
                Some(right) => Some(((left + right) / 2, top_row + 1)),
            },
        },
    }
}

/// A probe hit is the highest-index row that carries one: the scan result
/// is a nonzero probe pixel with only zero probe pixels on the rows between
/// it and the bound, and a miss means every scanned row is zero there.
pub proof fn lemma_probe_hit_is_highest_row(m: Seq<u8>, side: int, row_bound: int)
    requires
        0 <= row_bound,
    ensures
        match scan_rows_at_probe(m, side, row_bound) {
            Some(k) => 0 <= k < row_bound && m[k * side + PROBE_COLUMN as int] > 0 && forall|
                r: int,
            |
                k < r < row_bound ==> m[#[trigger] (r * side) + PROBE_COLUMN as int] == 0,
            None => forall|r: int|
                0 <= r < row_bound ==> m[#[trigger] (r * side) + PROBE_COLUMN as int] == 0,
        },
    decreases row_bound,
{
    if row_bound > 0 && !(m[(row_bound - 1) * side + PROBE_COLUMN as int] > 0) {
        lemma_probe_hit_is_highest_row(m, side, row_bound - 1);
    }
}

/// A leftward hit is the highest-index column below the bound that carries
/// one on its row, and a miss means the whole scanned stretch is zero.
pub proof fn lemma_leftward_hit_is_nearest(m: Seq<u8>, side: int, row: int, col_bound: int)
    requires
        0 <= col_bound,
    ensures
        match scan_row_leftward(m, side, row, col_bound) {
            Some(k) => 0 <= k < col_bound && m[row * side + k] > 0 && forall|c: int|
                k < c < col_bound ==> m[#[trigger] (row * side + c)] == 0,
            None => forall|c: int| 0 <= c < col_bound ==> m[#[trigger] (row * side + c)] == 0,
        },
    decreases col_bound,
{
    if col_bound > 0 && !(m[row * side + (col_bound - 1)] > 0) {
        lemma_leftward_hit_is_nearest(m, side, row, col_bound - 1);
    }
}

/// A rightward hit is the lowest-index column at or after the start that
/// carries one on its row, and a miss means the whole scanned stretch is
/// zero.
pub proof fn lemma_rightward_hit_is_nearest(m: Seq<u8>, side: int, row: int, start: int)
    ensures
        match scan_row_rightward(m, side, row, start) {
            Some(k) => start <= k < side && m[row * side + k] > 0 && forall|c: int|
                start <= c < k ==> m[#[trigger] (row * side + c)] == 0,
            None => forall|c: int| start <= c < side ==> m[#[trigger] (row * side + c)] == 0,
        },
    decreases side - start,
{
    if start < side && !(m[row * side + start] > 0) {
        lemma_rightward_hit_is_nearest(m, side, row, start + 1);
    }
}

/// Scans rows `0..row_bound` at the probe column, topmost hit with the
/// largest index first.
fn scan_rows_at_probe_exec(image: &[u8], side: usize, row_bound: usize) -> (r: Option<usize>)
    requires
        PROBE_COLUMN < side,
        row_bound * side <= image@.len(),
    ensures
        match r {
            Some(row) => row < row_bound && scan_rows_at_probe(
                image@,
                side as int,
                row_bound as int,
            ) == Some(row as int),
            None => scan_rows_at_probe(image@, side as int, row_bound as int) is None,
        },
{
    let n = image.len();
    let mut bound = row_bound;
    while bound > 0
        invariant
            PROBE_COLUMN < side,
            bound <= row_bound,
            row_bound * side <= n == image@.len(),
            scan_rows_at_probe(image@, side as int, row_bound as int) == scan_rows_at_probe(
                image@,
                side as int,
                bound as int,
            ),
        decreases bound,
    {
        proof {
            lemma_mul_inequality(bound as int, row_bound as int, side as int);
            assert((bound - 1) * side + PROBE_COLUMN < bound * side) by (nonlinear_arith)
                requires
                    0 < bound,
                    PROBE_COLUMN < side,
            ;
        }
        if image[(bound - 1) * side + PROBE_COLUMN] > 0 {
            return Some(bound - 1);
        }
        bound = bound - 1;
    }
    None
}

/// Scans columns `0..col_bound` of `row`, rightmost hit first.
fn scan_row_leftward_exec(image: &[u8], side: usize, row: usize, col_bound: usize) -> (r: Option<
    usize,
>)
    requires
        col_bound <= side,
        (row + 1) * side <= image@.len(),
    ensures
        match r {
            Some(col) => col < col_bound && scan_row_leftward(
                image@,
                side as int,
                row as int,
                col_bound as int,
            ) == Some(col as int),
            None => scan_row_leftward(image@, side as int, row as int, col_bound as int) is None,
        },
{
    let n = image.len();
    let mut bound = col_bound;
    while bound > 0
        invariant
            bound <= col_bound <= side,
            (row + 1) * side <= n == image@.len(),
            scan_row_leftward(image@, side as int, row as int, col_bound as int)
                == scan_row_leftward(image@, side as int, row as int, bound as int),
        decreases bound,
    {
        proof {
            assert(row * side + (bound - 1) < (row + 1) * side) by (nonlinear_arith)
                requires
                    0 <= row,
                    0 < bound <= side,
            ;
        }
        if image[row * side + (bound - 1)] > 0 {
            return Some(bound - 1);
        }
        bound = bound - 1;
    }
    None
}

/// Scans columns `start..side` of `row`, leftmost hit first.
fn scan_row_rightward_exec(image: &[u8], side: usize, row: usize, start: usize) -> (r: Option<
    usize,
>)
    requires
        (row + 1) * side <= image@.len(),
    ensures
        match r {
            Some(col) => col < side && scan_row_rightward(
                image@,
                side as int,
                row as int,
                start as int,
            ) == Some(col as int),
            None => scan_row_rightward(image@, side as int, row as int, start as int) is None,
        },
{
    let n = image.len();
    let mut col = start;
    while col < side
        invariant
            (row + 1) * side <= n == image@.len(),
            scan_row_rightward(image@, side as int, row as int, start as int)
                == scan_row_rightward(image@, side as int, row as int, col as int),
        decreases side - col,
    {
        proof {
            assert(row * side + col < (row + 1) * side) by (nonlinear_arith)
                requires
                    0 <= row,
                    0 <= col < side,
            ;
        }
        if image[row * side + col] > 0 {
            return Some(col);
        }
        col = col + 1;
    }
    None
}

/// Locates the feature point of a square match mask, or returns `None` when
/// the mask shows no qualifying silhouette.
///
/// The grid side is the integer square root of the mask length, and must
/// exceed the probe column for the probe scan to stay on its row. The three
/// scans are those of [`head_point_of`]: the lowest upper-half row with a
/// nonzero probe pixel, then the nonzero run edges on the row below it; the
/// result is the floor midpoint of the edges and that row's index.
pub fn find_head_point(image: &[u8]) -> (r: Option<(usize, usize)>)
    requires
        PROBE_COLUMN < sqrt_floor(image@.len()),
    ensures
        head_point_of(image@) == match r {
            Some(p) => Some((p.0 as int, p.1 as int)),
            None => None::<(int, int)>,
        },
{
    let n = image.len();
    proof {
        lemma_sqrt_floor_bounds(n as nat);
    }
    let side64 = isqrt_u64(n as u64);
    proof {
        assert((side64 as int) * (side64 as int) <= n);
        assert(side64 <= n) by (nonlinear_arith)
            requires
                (side64 as int) * (side64 as int) <= n,
                0 <= side64 as int,
        ;
    }
    let side = side64 as usize;
    let half = side / 2;
    proof {
        vstd::arithmetic::div_mod::lemma_div_is_strictly_smaller(side as int, 2);
        assert(half * side <= side * side) by (nonlinear_arith)
            requires
                0 <= half <= side,
        ;
        assert((half + 1) * side <= side * side) by (nonlinear_arith)
            requires
                0 <= half,
                half + 1 <= side,
        ;
        assert(side * side <= n);
    }
    let top_row = match scan_rows_at_probe_exec(image, side, half) {
        None => {
            return None;
        },
        Some(row) => row,
    };
    proof {
        lemma_mul_inequality(top_row + 2, half as int + 1, side as int);
    }
    let left = match scan_row_leftward_exec(image, side, top_row + 1, half) {
        None => {
            return None;
        },
        Some(col) => col,
    };
    let right = match scan_row_rightward_exec(image, side, top_row + 1, half + 1) {
        None => {
            return None;
        },
        Some(col) => col,
    };
    proof {
        assert(2 * side <= side * side) by (nonlinear_arith)
            requires
                2 <= side,
        ;
    }
    Some(((left + right) / 2, top_row + 1))
}

} // verus!
