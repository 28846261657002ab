//! Where a cell lives: the physical offset in the buffer, and the logical
//! linear index.

use vstd::prelude::*;
use vstd::arithmetic::div_mod::*;

verus! {

/// The physical offset of cell `(r, c)` in a column-major buffer whose columns
/// are `stride` elements apart.
pub open spec fn offset_of(stride: int, r: int, c: int) -> int {
    c * stride + r
}

/// The logical linear index of cell `(r, c)` in a matrix of `rows` rows. It
/// does not depend on the stride.
pub open spec fn index_of(rows: int, r: int, c: int) -> int {
    r + c * rows
}

/// The cell `(r, c)` that has the logical linear index `i`.
pub open spec fn cell_of(rows: int, i: int) -> (int, int) {
    (i % rows, i / rows)
}

/// A cell inside the allocated area has its offset inside the buffer.
pub proof fn lemma_offset_in_buffer(stride: int, width: int, r: int, c: int)
    requires
        0 <= r < stride,
        0 <= c < width,
    ensures
        0 <= offset_of(stride, r, c) < stride * width,
        c * stride <= offset_of(stride, r, c) < (c + 1) * stride,
{
    assert(0 <= c * stride) by (nonlinear_arith)
        requires
            0 <= c,
            0 <= stride,
    ;
    assert((c + 1) * stride == c * stride + stride) by (nonlinear_arith);
    assert((c + 1) * stride <= stride * width) by (nonlinear_arith)
        requires
            c + 1 <= width,
            0 <= stride,
    ;
}

/// Different cells have different offsets.
pub proof fn lemma_offset_injective(stride: int, r1: int, c1: int, r2: int, c2: int)
    requires
        0 <= r1 < stride,
        0 <= r2 < stride,
        0 <= c1,
        0 <= c2,
        offset_of(stride, r1, c1) == offset_of(stride, r2, c2),
    ensures
        r1 == r2,
        c1 == c2,
{
    if c1 < c2 {
        assert((c1 + 1) * stride <= c2 * stride) by (nonlinear_arith)
            requires
                c1 + 1 <= c2,
                0 <= stride,
        ;
        assert((c1 + 1) * stride == c1 * stride + stride) by (nonlinear_arith);
    } else if c2 < c1 {
        assert((c2 + 1) * stride <= c1 * stride) by (nonlinear_arith)
            requires
                c2 + 1 <= c1,
                0 <= stride,
        ;
        assert((c2 + 1) * stride == c2 * stride + stride) by (nonlinear_arith);
    }
}

/// The linear index of a cell of the matrix is below the number of cells.
pub proof fn lemma_index_in_range(rows: int, cols: int, r: int, c: int)
    requires
        0 <= r < rows,
        0 <= c < cols,
    ensures
        0 <= index_of(rows, r, c) < rows * cols,
{
    lemma_offset_in_buffer(rows, cols, r, c);
}

/// From a cell to its linear index and back.
pub proof fn lemma_cell_index_cell(rows: int, cols: int, r: int, c: int)
    requires
        0 <= r < rows,
        0 <= c < cols,
    ensures
        cell_of(rows, index_of(rows, r, c)) == (r, c),
{
    lemma_fundamental_div_mod_converse(index_of(rows, r, c), rows, c, r);
    assert(c * rows == rows * c) by (nonlinear_arith);
}

/// From a linear index to its cell and back; the cell lies in the matrix.
pub proof fn lemma_index_cell_index(rows: int, cols: int, i: int)
    requires
        0 <= rows,
        0 <= i < rows * cols,
    ensures
        0 <= cell_of(rows, i).0 < rows,
        0 <= cell_of(rows, i).1 < cols,
        index_of(rows, cell_of(rows, i).0, cell_of(rows, i).1) == i,
{
    assert(rows > 0) by (nonlinear_arith)
        requires
            0 <= rows,
            0 <= i < rows * cols,
    ;
    lemma_fundamental_div_mod(i, rows);
    lemma_mod_bound(i, rows);
    lemma_div_pos_is_pos(i, rows);
    let q = i / rows;
    assert(rows * q == q * rows) by (nonlinear_arith);
    if q >= cols {
        assert(q * rows >= cols * rows) by (nonlinear_arith)
            requires
                q >= cols,
                rows > 0,
        ;
        assert(cols * rows == rows * cols) by (nonlinear_arith);
    }
}

} // verus!
