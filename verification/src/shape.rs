//! Questions about the shape and the pattern of a matrix, and its cells in
//! linear order.

use vstd::prelude::*;
use crate::number::Number;
use crate::addressing::{
    cell_of, index_of, lemma_cell_index_cell, lemma_index_cell_index, lemma_index_in_range,
};
use crate::grid::Grid;
use crate::matrix::Matrix;

verus! {

impl<T> Grid<T> {
    /// As many rows as columns.
    pub open spec fn is_square(self) -> bool {
        self.rows == self.cols
    }

    /// A single row or a single column, but not a single cell.
    pub open spec fn is_vector(self) -> bool {
        (self.rows == 1) != (self.cols == 1)
    }

    /// No cell at all.
    pub open spec fn is_empty(self) -> bool {
        self.rows == 0 || self.cols == 0
    }
}

impl<T: Number> Matrix<T> {
    /// Returns whether the matrix has as many rows as columns.
    pub fn is_square(&self) -> (b: bool)
        ensures
            b == self@.is_square(),
    {
        self.rows == self.cols
    }

    /// Returns whether the matrix is a single row.
    pub fn is_row(&self) -> (b: bool)
        ensures
            b == (self@.rows == 1),
    {
        self.rows == 1
    }

    /// Returns whether the matrix is a single column.
    pub fn is_col(&self) -> (b: bool)
        ensures
            b == (self@.cols == 1),
    {
        self.cols == 1
    }

    /// Returns whether the matrix is a single cell.
    pub fn is_scalar(&self) -> (b: bool)
        ensures
            b == (self@.rows == 1 && self@.cols == 1),
    {
        self.rows == 1 && self.cols == 1
    }

    /// Returns whether the matrix is a single row or a single column, and more
    /// than a single cell.
    pub fn is_vector(&self) -> (b: bool)
        ensures
            b == self@.is_vector(),
    {
        (self.rows == 1) != (self.cols == 1)
    }

    /// Returns whether the matrix has no cell.
    pub fn is_empty(&self) -> (b: bool)
        ensures
            b == self@.is_empty(),
    {
        self.rows == 0 || self.cols == 0
    }

    /// Returns whether this is a matrix that owns its buffer, which it is.
    pub fn is_standard_matrix_type(&self) -> (b: bool)
        ensures
            b,
    {
        true
    }

    /// Returns the one cell of a matrix of one cell.
    pub fn to_scalar(&self) -> (value: T)
        requires
            self.wf(),
            self@.rows == 1,
            self@.cols == 1,
        ensures
            value == self@.at(0, 0),
    {
        self.get(0, 0)
    }

    /// Maps a linear index to the cell that has it.
    pub fn index_to_cell(&self, index: usize) -> (cell: (usize, usize))
        requires
            self@.rows > 0,
        ensures
            (cell.0 as int, cell.1 as int) == cell_of(self@.rows as int, index as int),
    {
        (index % self.rows, index / self.rows)
    }

    /// Maps a cell to its linear index.
    pub fn cell_to_index(&self, r: usize, c: usize) -> (index: usize)
        requires
            index_of(self@.rows as int, r as int, c as int) <= usize::MAX,
        ensures
            index == index_of(self@.rows as int, r as int, c as int),
    {
        assert(c * self.rows >= 0) by (nonlinear_arith)
            requires
                c >= 0,
                self.rows >= 0,
        ;
        r + c * self.rows
    }

    /// The linear index of every cell of a well-formed matrix fits in a
    /// `usize`.
    pub proof fn lemma_cell_index_fits(&self, r: int, c: int)
        requires
            self.wf(),
            self@.has(r, c),
        ensures
            0 <= index_of(self@.rows as int, r, c) < self@.rows * self@.cols <= usize::MAX,
    {
        self.lemma_cells();
        lemma_index_in_range(self.rows as int, self.cols as int, r, c);
    }

    /// Returns the cell with the given linear index.
    pub fn index(&self, index: usize) -> (value: &T)
        requires
            self.wf(),
            index < self@.rows * self@.cols,
        ensures
            *value == self@.cells()[index as int],
    {
        proof {
            self.lemma_cells();
            lemma_index_cell_index(self.rows as int, self.cols as int, index as int);
            assert(self@.has(cell_of(self.rows as int, index as int).0, cell_of(self.rows as int, index as int).1));
        }
        let (r, c) = self.index_to_cell(index);
        let offset: usize = self.cell_to_offset(r, c);
        &self.buffer[offset]
    }

    /// Returns the cells in the order of their linear index: column after
    /// column.
    pub fn to_std_vec(&self) -> (cells: Vec<T>)
        requires
            self.wf(),
        ensures
            cells@ == self@.cells(),
    {
        let mut cells: Vec<T> = Vec::new();
        let mut c: usize = 0;
        proof {
            self.lemma_cells();
        }
        while c < self.cols
            invariant
                self.wf(),
                c <= self.cols,
                cells@.len() == c * self.rows,
                cells@.len() <= self.rows * self.cols,
                forall|i: int| 0 <= i < cells@.len() ==> cells@[i] == self@.cells()[i],
            decreases self.cols - c,
        {
            let mut r: usize = 0;
            while r < self.rows
                invariant
                    self.wf(),
                    c < self.cols,
                    r <= self.rows,
                    cells@.len() == c * self.rows + r,
                    cells@.len() <= self.rows * self.cols,
                    forall|i: int| 0 <= i < cells@.len() ==> cells@[i] == self@.cells()[i],
                decreases self.rows - r,
            {
                proof {
                    lemma_index_in_range(self.rows as int, self.cols as int, r as int, c as int);
                    lemma_cell_index_cell(self.rows as int, self.cols as int, r as int, c as int);
                }
                cells.push(self.get(r, c));
                r = r + 1;
            }
            c = c + 1;
            assert(c * self.rows == (c - 1) * self.rows + self.rows) by (nonlinear_arith);
            assert(c * self.rows <= self.rows * self.cols) by (nonlinear_arith)
                requires
                    c <= self.cols,
            ;
        }
        assert(self.cols * self.rows == self.rows * self.cols) by (nonlinear_arith);
        assert(cells@ =~= self@.cells());
        cells
    }
}

} // verus!
