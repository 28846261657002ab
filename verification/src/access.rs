//! The cells of a row, of a column or of the whole matrix in order, and the
//! buffer as it lies in memory.

use vstd::prelude::*;
use vstd::arithmetic::div_mod::{lemma_fundamental_div_mod, lemma_fundamental_div_mod_converse, lemma_mod_bound};
use crate::number::Number;
use crate::capacity::next_power_of_two;
use crate::addressing::offset_of;
use crate::matrix::Matrix;

verus! {

/// The index among `n` that `i` stands for: `i` itself from zero up, and
/// counted backward from `n` below zero, wrapping around in both directions.
pub open spec fn wrapped_index(i: int, n: int) -> int {
    i % n
}

/// Maps an index of either sign to the index among `n` that it stands for.
pub fn mod_n(i: isize, n: usize) -> (index: usize)
    requires
        n > 0,
    ensures
        index == wrapped_index(i as int, n as int),
        index < n,
{
    proof {
        lemma_mod_bound(i as int, n as int);
    }
    if i >= 0 {
        (i as usize) % n
    } else {
        // -i, which may not fit in an isize
        let magnitude: usize = ((-(i + 1)) as usize) + 1;
        let m: usize = magnitude % n;
        proof {
            lemma_fundamental_div_mod(magnitude as int, n as int);
            let q = (magnitude as int) / (n as int);
            if m == 0 {
                assert(i as int == (-q) * n + 0) by (nonlinear_arith)
                    requires
                        magnitude as int == n * q + 0,
                        i as int == -(magnitude as int),
                ;
                lemma_fundamental_div_mod_converse(i as int, n as int, -q, 0);
            } else {
                assert(i as int == (-q - 1) * n + (n - m)) by (nonlinear_arith)
                    requires
                        magnitude as int == n * q + m,
                        i as int == -(magnitude as int),
                ;
                lemma_fundamental_div_mod_converse(i as int, n as int, -q - 1, n - m);
            }
        }
        if m == 0 {
            0
        } else {
            n - m
        }
    }
}

impl<T: Number> Matrix<T> {
    /// Returns the buffer as it lies in memory: column after column, each
    /// column as long as the stride. Where no cell of the matrix lies, the
    /// buffer may hold anything.
    pub fn as_slice_(&self) -> (cells: &[T])
        requires
            self.wf(),
        ensures
            cells@.len() == next_power_of_two(self@.rows) * next_power_of_two(self@.cols),
            forall|r: int, c: int|
                self@.has(r, c) ==> 0 <= offset_of(next_power_of_two(self@.rows) as int, r, c)
                    < cells@.len() && cells@[offset_of(next_power_of_two(self@.rows) as int, r, c)]
                    == #[trigger] self@.at(r, c),
    {
        proof {
            self.lemma_cells();
        }
        self.buffer.as_slice()
    }

    /// Returns the cells of a row from left to right. The row may be counted
    /// backward from the last one with an index below zero.
    pub fn row_iter(&self, r: isize) -> (cells: Vec<T>)
        requires
            self.wf(),
            self@.rows > 0,
        ensures
            cells@ == Seq::new(
                self@.cols,
                |c: int| self@.at(wrapped_index(r as int, self@.rows as int), c),
            ),
    {
        let row: usize = mod_n(r, self.rows);
        let mut cells: Vec<T> = Vec::new();
        let mut c: usize = 0;
        while c < self.cols
            invariant
                c <= self.cols,
                self.wf(),
                row < self.rows,
                cells@.len() == c,
                forall|c2: int| 0 <= c2 < c ==> cells@[c2] == self@.at(row as int, c2),
            decreases self.cols - c,
        {
            cells.push(self.get(row, c));
            c = c + 1;
        }
        assert(cells@ =~= Seq::new(
            self@.cols,
            |c: int| self@.at(wrapped_index(r as int, self@.rows as int), c),
        ));
        cells
    }

    /// Returns the cells of a column from top to bottom. The column may be
    /// counted backward from the last one with an index below zero.
    pub fn col_iter(&self, c: isize) -> (cells: Vec<T>)
        requires
            self.wf(),
            self@.cols > 0,
        ensures
            cells@ == Seq::new(
                self@.rows,
                |r: int| self@.at(r, wrapped_index(c as int, self@.cols as int)),
            ),
    {
        let col: usize = mod_n(c, self.cols);
        let mut cells: Vec<T> = Vec::new();
        let mut r: usize = 0;
        while r < self.rows
            invariant
                r <= self.rows,
                self.wf(),
                col < self.cols,
                cells@.len() == r,
                forall|r2: int| 0 <= r2 < r ==> cells@[r2] == self@.at(r2, col as int),
            decreases self.rows - r,
        {
            cells.push(self.get(r, col));
            r = r + 1;
        }
        assert(cells@ =~= Seq::new(
            self@.rows,
            |r: int| self@.at(r, wrapped_index(c as int, self@.cols as int)),
        ));
        cells
    }

    /// Returns all cells, column after column.
    pub fn cell_iter(&self) -> (cells: Vec<T>)
        requires
            self.wf(),
        ensures
            cells@ == self@.cells(),
    {
        self.to_std_vec()
    }
}

} // verus!
