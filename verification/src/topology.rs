//! The toroidal hexagonal lattice: cells addressed by `(column, row)` and
//! packed as `row * cols + col`, each with six ordered neighbours whose
//! offsets depend on the parity of the column.

use vstd::prelude::*;

verus! {

/// The `(column, row)` step towards neighbour number `dir` of a cell, for a
/// cell in an odd column (`odd`) or in an even one. The direction numbers are
/// the bit positions of the neighbour mask.
pub open spec fn offset(odd: bool, dir: int) -> (int, int) {
    if odd {
        if dir == 0 {
            (-1, 1)
        } else if dir == 1 {
            (-1, 0)
        } else if dir == 2 {
            (0, -1)
        } else if dir == 3 {
            (1, 0)
        } else if dir == 4 {
            (1, 1)
        } else {
            (0, 1)
        }
    } else {
        if dir == 0 {
            (-1, 0)
        } else if dir == 1 {
            (-1, -1)
        } else if dir == 2 {
            (0, -1)
        } else if dir == 3 {
            (1, -1)
        } else if dir == 4 {
            (1, 0)
        } else {
            (0, 1)
        }
    }
}

/// A coordinate moved by `delta` on an axis of length `dim` that closes on
/// itself.
pub open spec fn wrap(coord: int, delta: int, dim: int) -> int {
    (coord + delta + dim) % dim
}

/// The column of neighbour `dir` of the cell at `(col, row)`.
pub open spec fn neighbor_col(cols: int, col: int, dir: int) -> int {
    wrap(col, offset(col % 2 != 0, dir).0, cols)
}

/// The row of neighbour `dir` of the cell at `(col, row)`.
pub open spec fn neighbor_row(rows: int, col: int, row: int, dir: int) -> int {
    wrap(row, offset(col % 2 != 0, dir).1, rows)
}

/// The packed index of neighbour `dir` of the cell at `(col, row)` on a grid
/// of `cols` by `rows` cells.
pub open spec fn neighbor_index(cols: int, rows: int, col: int, row: int, dir: int) -> int {
    neighbor_row(rows, col, row, dir) * cols + neighbor_col(cols, col, dir)
}

/// What wrapping does to a single step: it stays, or it leaves one end of the
/// axis and enters at the other.
pub proof fn lemma_wrap_step(coord: int, delta: int, dim: int)
    requires
        dim >= 1,
        0 <= coord < dim,
        -1 <= delta <= 1,
    ensures
        0 <= wrap(coord, delta, dim) < dim,
        wrap(coord, delta, dim) == if coord + delta < 0 {
            dim - 1
        } else if coord + delta >= dim {
            0
        } else {
            coord + delta
        },
{
    let x = coord + delta + dim;
    if coord + delta < 0 {
        assert(x == dim - 1);
        assert(x % dim == x) by (nonlinear_arith)
            requires
                0 <= x < dim,
        ;
    } else if coord + delta >= dim {
        assert(x == 2 * dim);
        assert(x % dim == 0) by (nonlinear_arith)
            requires
                x == 2 * dim,
                dim >= 1,
        ;
    } else {
        let y = coord + delta;
        assert(x % dim == y) by (nonlinear_arith)
            requires
                x == y + dim,
                0 <= y < dim,
        ;
    }
}

/// A packed index built from a row and a column of the grid is a cell.
pub proof fn lemma_packed_in_range(cols: int, rows: int, col: int, row: int)
    requires
        0 <= col < cols,
        0 <= row < rows,
    ensures
        0 <= row * cols + col < cols * rows,
{
    assert(0 <= row * cols + col < cols * rows) by (nonlinear_arith)
        requires
            0 <= col < cols,
            0 <= row < rows,
    ;
}

/// A packed index decodes to the row and column it was built from.
pub proof fn lemma_packed_decode(cols: int, col: int, row: int)
    requires
        0 <= col < cols,
        0 <= row,
    ensures
        (row * cols + col) % cols == col,
        (row * cols + col) / cols == row,
{
    vstd::arithmetic::div_mod::lemma_fundamental_div_mod_converse(row * cols + col, cols, row, col);
}

/// A cell index decodes to a column and a row of the grid.
pub proof fn lemma_cell_in_grid(cols: int, rows: int, i: int)
    requires
        cols >= 1,
        0 <= i < cols * rows,
    ensures
        0 <= i % cols < cols,
        0 <= i / cols < rows,
        (i / cols) * cols + i % cols == i,
{
    vstd::arithmetic::div_mod::lemma_fundamental_div_mod(i, cols);
    vstd::arithmetic::div_mod::lemma_mod_bound(i, cols);
    let q = i / cols;
    assert(0 <= q < rows) by (nonlinear_arith)
        requires
            cols >= 1,
            0 <= i < cols * rows,
            i == cols * q + i % cols,
            0 <= i % cols < cols,
    ;
    assert(cols * q == q * cols) by (nonlinear_arith);
}

/// Every neighbour of a cell is a cell of the grid, and its packed index
/// decodes to the neighbour's column and row.
pub proof fn lemma_neighbor_in_range(cols: int, rows: int, col: int, row: int, dir: int)
    requires
        cols >= 1,
        rows >= 1,
        0 <= col < cols,
        0 <= row < rows,
        0 <= dir < 6,
    ensures
        0 <= neighbor_col(cols, col, dir) < cols,
        0 <= neighbor_row(rows, col, row, dir) < rows,
        0 <= neighbor_index(cols, rows, col, row, dir) < cols * rows,
        neighbor_index(cols, rows, col, row, dir) % cols == neighbor_col(cols, col, dir),
        neighbor_index(cols, rows, col, row, dir) / cols == neighbor_row(rows, col, row, dir),
{
    let delta = offset(col % 2 != 0, dir);
    lemma_wrap_step(col, delta.0, cols);
    lemma_wrap_step(row, delta.1, rows);
    let n_col = neighbor_col(cols, col, dir);
    let n_row = neighbor_row(rows, col, row, dir);
    lemma_packed_in_range(cols, rows, n_col, n_row);
    lemma_packed_decode(cols, n_col, n_row);
}

/// On a grid of at least three columns and three rows, no cell occurs twice
/// among the six neighbours of a cell. (With two columns the steps to the
/// left and to the right end in the same column, and likewise with two rows.)
pub proof fn lemma_neighbors_distinct(
    cols: int,
    rows: int,
    col: int,
    row: int,
    dir1: int,
    dir2: int,
)
    requires
        cols >= 3,
        rows >= 3,
        0 <= col < cols,
        0 <= row < rows,
        0 <= dir1 < dir2 < 6,
    ensures
        neighbor_index(cols, rows, col, row, dir1) != neighbor_index(cols, rows, col, row, dir2),
{
    let odd = col % 2 != 0;
    lemma_neighbor_in_range(cols, rows, col, row, dir1);
    lemma_neighbor_in_range(cols, rows, col, row, dir2);
    lemma_wrap_step(col, offset(odd, dir1).0, cols);
    lemma_wrap_step(col, offset(odd, dir2).0, cols);
    lemma_wrap_step(row, offset(odd, dir1).1, rows);
    lemma_wrap_step(row, offset(odd, dir2).1, rows);
    assert(neighbor_col(cols, col, dir1) != neighbor_col(cols, col, dir2) || neighbor_row(
        rows,
        col,
        row,
        dir1,
    ) != neighbor_row(rows, col, row, dir2));
}

/// The grid closes on itself: a cell in the first column has its neighbour
/// 0 in the last column, a cell in the last column has its neighbour 3 in
/// the first; a cell in the first row has its neighbour 2 in the last row of
/// its own column, a cell in the last row has its neighbour 5 in the first
/// row of its own column.
pub proof fn lemma_toroidal_wrap(cols: int, rows: int, col: int, row: int)
    requires
        cols >= 1,
        rows >= 1,
        0 <= col < cols,
        0 <= row < rows,
    ensures
        col == 0 ==> neighbor_index(cols, rows, col, row, 0) == row * cols + (cols - 1),
        col == cols - 1 ==> neighbor_index(cols, rows, col, row, 3) % cols == 0,
        row == 0 ==> neighbor_index(cols, rows, col, row, 2) == (rows - 1) * cols + col,
        row == rows - 1 ==> neighbor_index(cols, rows, col, row, 5) == col,
{
    let odd = col % 2 != 0;
    lemma_wrap_step(col, offset(odd, 0).0, cols);
    lemma_wrap_step(row, offset(odd, 0).1, rows);
    lemma_wrap_step(col, offset(odd, 3).0, cols);
    lemma_neighbor_in_range(cols, rows, col, row, 3);
    lemma_wrap_step(col, offset(odd, 2).0, cols);
    lemma_wrap_step(row, offset(odd, 2).1, rows);
    lemma_wrap_step(col, offset(odd, 5).0, cols);
    lemma_wrap_step(row, offset(odd, 5).1, rows);
    if row == rows - 1 {
        assert(0 * cols + col == col);
    }
}

} // verus!
