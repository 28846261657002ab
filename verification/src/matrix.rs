//! The matrix: one buffer in column-major order, a logical size and an
//! allocated size.

use vstd::prelude::*;
use crate::number::Number;
use crate::capacity::{
    checked_target_allocation, is_power_of_two, next_power_of_two, target_allocation,
    lemma_next_power_of_two, lemma_next_power_of_two_least, lemma_next_power_of_two_monotone,
};
use crate::addressing::{offset_of, lemma_offset_in_buffer, lemma_offset_injective};
use crate::grid::{Grid, lemma_grid_equal};

verus! {

/// A dense matrix of numbers, stored in column-major order.
#[derive(Debug)]
pub struct Matrix<T: Number> {
    /// Number of rows in the matrix.
    pub(crate) rows: usize,
    /// Number of columns in the matrix.
    pub(crate) cols: usize,
    /// Number of allocated rows.
    pub(crate) xrows: usize,
    /// Number of allocated columns.
    pub(crate) xcols: usize,
    /// The cells, `xrows * xcols` of them.
    pub(crate) buffer: Vec<T>,
}

impl<T: Number> View for Matrix<T> {
    type V = Grid<T>;

    open(crate) spec fn view(&self) -> Grid<T> {
        Grid {
            rows: self.rows as nat,
            cols: self.cols as nat,
            columns: Seq::new(
                self.cols as nat,
                |c: int| Seq::new(self.rows as nat, |r: int| self.buffer@[offset_of(self.xrows as int, r, c)]),
            ),
        }
    }
}

/// Whether this machine can hold the buffer of a matrix of the given logical
/// size: the allocated dimensions and their product fit in a `usize`.
pub open spec fn representable(rows: nat, cols: nat) -> bool {
    &&& next_power_of_two(rows) <= usize::MAX
    &&& next_power_of_two(cols) <= usize::MAX
    &&& next_power_of_two(rows) * next_power_of_two(cols) <= usize::MAX
}

/// Returns whether this machine can hold the buffer of a matrix of the given
/// logical size.
pub fn is_representable(rows: usize, cols: usize) -> (b: bool)
    ensures
        b == representable(rows as nat, cols as nat),
{
    match (checked_target_allocation(rows), checked_target_allocation(cols)) {
        (Some(xrows), Some(xcols)) => xrows.checked_mul(xcols).is_some(),
        _ => false,
    }
}

/// A matrix of a smaller size is representable where a larger one is.
pub proof fn lemma_representable_smaller(rows: nat, cols: nat, rows2: nat, cols2: nat)
    requires
        representable(rows2, cols2),
        rows <= rows2,
        cols <= cols2,
    ensures
        representable(rows, cols),
        next_power_of_two(rows) <= next_power_of_two(rows2),
        next_power_of_two(cols) <= next_power_of_two(cols2),
{
    lemma_next_power_of_two_monotone(rows, rows2);
    lemma_next_power_of_two_monotone(cols, cols2);
    assert(next_power_of_two(rows) * next_power_of_two(cols) <= next_power_of_two(rows2)
        * next_power_of_two(cols2)) by (nonlinear_arith)
        requires
            next_power_of_two(rows) <= next_power_of_two(rows2),
            next_power_of_two(cols) <= next_power_of_two(cols2),
    ;
}

/// Every matrix with up to 32768 rows and as many columns is representable.
pub proof fn lemma_representable_small(rows: nat, cols: nat)
    requires
        rows <= 0x8000,
        cols <= 0x8000,
    ensures
        representable(rows, cols),
{
    lemma_next_power_of_two(rows);
    lemma_next_power_of_two(cols);
    assert(is_power_of_two(0x8000)) by {
        reveal_with_fuel(is_power_of_two, 16);
    }
    lemma_next_power_of_two_least(rows, 0x8000);
    lemma_next_power_of_two_least(cols, 0x8000);
    assert(next_power_of_two(rows) * next_power_of_two(cols) <= 0x8000 * 0x8000) by (nonlinear_arith)
        requires
            next_power_of_two(rows) <= 0x8000,
            next_power_of_two(cols) <= 0x8000,
    ;
}

/// A vector of `n` copies of `v`.
pub(crate) fn filled<T: Number>(n: usize, v: T) -> (buffer: Vec<T>)
    ensures
        buffer@ == Seq::new(n as nat, |i: int| v),
{
    let mut buffer: Vec<T> = Vec::new();
    let mut i: usize = 0;
    while i < n
        invariant
            i <= n,
            buffer@ == Seq::new(i as nat, |j: int| v),
        decreases n - i,
    {
        buffer.push(v);
        i = i + 1;
        assert(buffer@ =~= Seq::new(i as nat, |j: int| v));
    }
    buffer
}

impl<T: Number> Matrix<T> {
    /// The invariant of a matrix: each allocated dimension is the power of two
    /// that belongs to the logical one, and the buffer holds exactly the
    /// allocated cells.
    pub open(crate) spec fn wf(&self) -> bool {
        &&& self.xrows == next_power_of_two(self.rows as nat)
        &&& self.xcols == next_power_of_two(self.cols as nat)
        &&& self.buffer@.len() == self.xrows * self.xcols
    }

    /// The cells of a well-formed matrix lie in its buffer, and its view is a
    /// well-formed grid.
    pub(crate) proof fn lemma_cells(&self)
        requires
            self.wf(),
        ensures
            self@.wf(),
            self.rows <= self.xrows,
            self.cols <= self.xcols,
            self.rows * self.cols <= self.xrows * self.xcols <= usize::MAX,
            forall|r: int, c: int|
                0 <= r < self.xrows && 0 <= c < self.xcols ==> 0 <= #[trigger] offset_of(
                    self.xrows as int,
                    r,
                    c,
                ) < self.buffer@.len(),
            forall|r: int, c: int|
                self@.has(r, c) ==> #[trigger] self@.at(r, c) == self.buffer@[offset_of(
                    self.xrows as int,
                    r,
                    c,
                )],
    {
        lemma_next_power_of_two(self.rows as nat);
        lemma_next_power_of_two(self.cols as nat);
        assert(self.buffer@.len() == self.buffer.len());
        assert(self.rows * self.cols <= self.xrows * self.xcols) by (nonlinear_arith)
            requires
                self.rows <= self.xrows,
                self.cols <= self.xcols,
        ;
        assert forall|r: int, c: int| 0 <= r < self.xrows && 0 <= c < self.xcols implies 0
            <= #[trigger] offset_of(self.xrows as int, r, c) < self.buffer@.len() by {
            lemma_offset_in_buffer(self.xrows as int, self.xcols as int, r, c);
        }
    }

    /// Constructs a matrix of the given size with `value` in every cell.
    pub(crate) fn uniform(rows: usize, cols: usize, value: T) -> (m: Matrix<T>)
        requires
            representable(rows as nat, cols as nat),
        ensures
            m.wf(),
            m@ == Grid::constant(rows as nat, cols as nat, value),
    {
        let xrows: usize = target_allocation(rows);
        let xcols: usize = target_allocation(cols);
        let capacity: usize = xrows * xcols;
        let m = Matrix { rows, cols, xrows, xcols, buffer: filled(capacity, value) };
        proof {
            m.lemma_cells();
            lemma_grid_equal(m@, Grid::constant(rows as nat, cols as nat, value));
        }
        m
    }

    /// Constructs a matrix of the given size. Every cell holds zero.
    pub fn new(rows: usize, cols: usize) -> (m: Matrix<T>)
        requires
            representable(rows as nat, cols as nat),
        ensures
            m.wf(),
            m@ == Grid::constant(rows as nat, cols as nat, T::zero_spec()),
    {
        Matrix::uniform(rows, cols, T::zero())
    }

    /// The view of a well-formed matrix is a well-formed grid of a
    /// representable size.
    pub proof fn lemma_well_formed(&self)
        requires
            self.wf(),
        ensures
            self@.wf(),
            representable(self@.rows, self@.cols),
    {
        self.lemma_cells();
    }

    /// Returns the number of rows in the matrix.
    pub fn num_rows(&self) -> (n: usize)
        ensures
            n == self@.rows,
    {
        self.rows
    }

    /// Returns the number of columns in the matrix.
    pub fn num_cols(&self) -> (n: usize)
        ensures
            n == self@.cols,
    {
        self.cols
    }

    /// Returns the size of the matrix as a pair of rows and columns.
    pub fn size(&self) -> (s: (usize, usize))
        ensures
            s.0 == self@.rows,
            s.1 == self@.cols,
    {
        (self.rows, self.cols)
    }

    /// Returns the number of cells in the matrix.
    pub fn num_cells(&self) -> (n: usize)
        requires
            self.wf(),
        ensures
            n == self@.rows * self@.cols,
    {
        proof {
            self.lemma_cells();
        }
        self.rows * self.cols
    }

    /// Returns the number of cells that the buffer holds.
    pub fn capacity(&self) -> (n: usize)
        requires
            self.wf(),
        ensures
            n == next_power_of_two(self@.rows) * next_power_of_two(self@.cols),
    {
        proof {
            self.lemma_cells();
        }
        self.xrows * self.xcols
    }

    /// The number of allocated rows.
    pub open(crate) spec fn spec_allocated_rows(&self) -> usize {
        self.xrows
    }

    /// The number of allocated columns.
    pub open(crate) spec fn spec_allocated_cols(&self) -> usize {
        self.xcols
    }

    /// Returns the number of allocated rows.
    #[verifier::when_used_as_spec(spec_allocated_rows)]
    pub fn allocated_rows(&self) -> (n: usize)
        requires
            self.wf(),
        ensures
            n == self.allocated_rows(),
            n == next_power_of_two(self@.rows),
    {
        self.xrows
    }

    /// Returns the number of allocated columns.
    #[verifier::when_used_as_spec(spec_allocated_cols)]
    pub fn allocated_cols(&self) -> (n: usize)
        requires
            self.wf(),
        ensures
            n == self.allocated_cols(),
            n == next_power_of_two(self@.cols),
    {
        self.xcols
    }

    /// Returns the distance in the buffer between two neighbours in a row:
    /// the number of allocated rows.
    pub fn stride(&self) -> (n: usize)
        requires
            self.wf(),
        ensures
            n == next_power_of_two(self@.rows),
    {
        self.xrows
    }

    /// Maps a cell to its offset in the buffer.
    pub fn cell_to_offset(&self, r: usize, c: usize) -> (offset: usize)
        requires
            self.wf(),
            r < self@.rows,
            c < self@.cols,
        ensures
            offset == offset_of(next_power_of_two(self@.rows) as int, r as int, c as int),
            offset < next_power_of_two(self@.rows) * next_power_of_two(self@.cols),
    {
        proof {
            self.lemma_cells();
            lemma_offset_in_buffer(self.xrows as int, self.xcols as int, r as int, c as int);
            assert(c * self.xrows >= 0) by (nonlinear_arith)
                requires
                    c >= 0,
                    self.xrows >= 0,
            ;
        }
        c * self.xrows + r
    }

    /// Returns the value of a cell.
    pub fn get(&self, r: usize, c: usize) -> (value: T)
        requires
            self.wf(),
            r < self@.rows,
            c < self@.cols,
        ensures
            value == self@.at(r as int, c as int),
    {
        proof {
            self.lemma_cells();
            assert(self@.has(r as int, c as int));
        }
        let offset: usize = self.cell_to_offset(r, c);
        self.buffer[offset]
    }

    /// Gives a cell a new value. No other cell changes.
    pub fn set(&mut self, r: usize, c: usize, value: T)
        requires
            old(self).wf(),
            r < old(self)@.rows,
            c < old(self)@.cols,
        ensures
            final(self).wf(),
            final(self)@ == old(self)@.set(r as int, c as int, value),
    {
        proof {
            self.lemma_cells();
        }
        let offset: usize = self.cell_to_offset(r, c);
        self.buffer.set(offset, value);
        proof {
            self.lemma_cells();
            let before = old(self)@;
            let after = before.set(r as int, c as int, value);
            assert forall|r2: int, c2: int| self@.has(r2, c2) implies self@.at(r2, c2) == after.at(
                r2,
                c2,
            ) by {
                assert(before.has(r2, c2));
                if r2 != r || c2 != c {
                    if offset_of(self.xrows as int, r2, c2) == offset as int {
                        lemma_offset_injective(self.xrows as int, r2, c2, r as int, c as int);
                    }
                }
            }
            lemma_grid_equal(self@, after);
        }
    }
}

} // verus!
