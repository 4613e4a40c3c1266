//! Row-major grid layout: the desired translation of each array cell,
//! computed from its index and the array's shape.

use vstd::prelude::*;
use vstd::arithmetic::mul::lemma_mul_upper_bound;
use vstd::arithmetic::mul::lemma_mul_nonnegative;

verus! {

/// The most cells one array may hold.
pub const MAX_ARRAY_LEN: usize = 0xffff_ffff;

/// The largest cell width or height.
pub const MAX_CELL_DIM: i64 = 0x1_0000;

/// The x-coordinate of the cell at `index` in a grid with `num_columns`
/// columns of `cell_width`-wide cells.
pub open spec fn grid_x(index: int, num_columns: int, cell_width: int) -> int {
    (index % num_columns) * cell_width
}

/// The y-coordinate of the cell at `index`: rows grow downward.
pub open spec fn grid_y(index: int, num_columns: int, cell_height: int) -> int {
    -((index / num_columns) * cell_height)
}

/// Computes the grid cell translation exactly: `x = (index mod num_columns) *
/// cell_width`, `y = -(index div num_columns) * cell_height`.
pub fn grid_translation(index: usize, num_columns: usize, cell_width: i64, cell_height: i64) -> (r: (
    i64,
    i64,
))
    requires
        num_columns >= 1,
        index <= MAX_ARRAY_LEN,
        0 <= cell_width <= MAX_CELL_DIM,
        0 <= cell_height <= MAX_CELL_DIM,
    ensures
        r.0 == grid_x(index as int, num_columns as int, cell_width as int),
        r.1 == grid_y(index as int, num_columns as int, cell_height as int),
{
    let col: usize = index % num_columns;
    let row: usize = index / num_columns;
    proof {
        assert(col <= index && row <= index) by (nonlinear_arith)
            requires
                num_columns >= 1,
                col == index as int % num_columns as int,
                row == index as int / num_columns as int,
                index >= 0,
        ;
        lemma_mul_nonnegative(col as int, cell_width as int);
        lemma_mul_nonnegative(row as int, cell_height as int);
        lemma_mul_upper_bound(col as int, MAX_ARRAY_LEN as int, cell_width as int, MAX_CELL_DIM as int);
        lemma_mul_upper_bound(row as int, MAX_ARRAY_LEN as int, cell_height as int, MAX_CELL_DIM as int);
    }
    let x: i64 = (col as i64) * cell_width;
    let y: i64 = -((row as i64) * cell_height);
    (x, y)
}

} // verus!
