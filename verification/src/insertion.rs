//! Insertion of rows and columns at any index, in place.

use vstd::prelude::*;
use crate::number::Number;
use crate::capacity::{
    next_power_of_two, target_allocation, lemma_next_power_of_two, lemma_next_power_of_two_least,
    lemma_next_power_of_two_monotone,
};
use crate::grid::lemma_grid_equal;
use crate::matrix::{Matrix, representable};

verus! {

impl<T: Number> Matrix<T> {
    /// Inserts the columns of `other` before column `index`.
    ///
    /// The columns from `index` on move to the right by the number of columns
    /// of `other`; the buffer grows first where the new columns do not fit.
    pub fn insert_columns(&mut self, index: usize, other: &Matrix<T>) -> (result: &mut Matrix<T>)
        requires
            old(self).wf(),
            other.wf(),
            old(self)@.rows == other@.rows,
            other@.cols > 0,
            index <= old(self)@.cols,
            representable(old(self)@.rows, old(self)@.cols + other@.cols),
        ensures
            result.wf(),
            result@ == old(self)@.insert_columns(index as int, other@),
            *final(self) == *final(result),
    {
        proof {
            self.lemma_cells();
            other.lemma_cells();
            lemma_next_power_of_two(self.cols as nat);
            lemma_next_power_of_two((self.cols + other.cols) as nat);
            lemma_next_power_of_two_monotone(self.cols as nat, (self.cols + other.cols) as nat);
        }
        let count: usize = other.cols;
        let new_cols: usize = self.cols + count;
        if self.xcols < new_cols {
            let rows: usize = self.rows;
            self.reallocate(rows, new_cols);
        }
        if self.xcols < new_cols {
            // Growth leaves an empty buffer as it is: there is no cell to lay
            // out, and the allocated width is all that changes.
            proof {
                assert(self.xrows == 0) by (nonlinear_arith)
                    requires
                        self.xrows * next_power_of_two(new_cols as nat) <= self.xrows * self.xcols,
                        self.xcols < next_power_of_two(new_cols as nat),
                        self.xrows >= 0,
                ;
            }
            assert(self.buffer@.len() == 0) by (nonlinear_arith)
                requires
                    self.buffer@.len() == self.xrows * self.xcols,
                    self.xrows == 0,
            ;
            self.xcols = target_allocation(new_cols);
            assert(self.xrows * self.xcols == 0) by (nonlinear_arith)
                requires
                    self.xrows == 0,
            ;
        }
        proof {
            if old(self).xcols >= new_cols {
                lemma_next_power_of_two_least(new_cols as nat, old(self).xcols as nat);
            }
            assert(self.xcols == next_power_of_two(new_cols as nat));
            assert(self@ == old(self)@);
        }
        let ghost grown = *self;
        self.create_column_space(index, count);
        let ghost opened = *self;
        let mut i: usize = 0;
        while i < count
            invariant
                i <= count,
                count == other.cols,
                index <= self.cols,
                self.cols + count <= self.xcols,
                self.rows == other.rows,
                other.wf(),
                self.laid_out(),
                self.same_frame(&opened),
                forall|r: int, c: int|
                    0 <= r < self.rows && 0 <= c < self.xcols && !(index <= c < index + i)
                        ==> #[trigger] self.slot(r, c) == opened.slot(r, c),
                forall|r: int, c: int|
                    0 <= r < self.rows && 0 <= c < i ==> #[trigger] self.slot(r, index + c)
                        == other@.at(r, c),
            decreases count - i,
        {
            let mut j: usize = 0;
            while j < self.rows
                invariant
                    i < count,
                    count == other.cols,
                    index <= self.cols,
                    self.cols + count <= self.xcols,
                    self.rows == other.rows,
                    j <= self.rows,
                    other.wf(),
                    self.laid_out(),
                    self.same_frame(&opened),
                    forall|r: int, c: int|
                        0 <= r < self.rows && 0 <= c < self.xcols && !(index <= c < index + i) && !(c
                            == index + i && r < j) ==> #[trigger] self.slot(r, c) == opened.slot(r, c),
                    forall|r: int, c: int|
                        0 <= r < self.rows && 0 <= c < i ==> #[trigger] self.slot(r, index + c)
                            == other@.at(r, c),
                    forall|r: int|
                        0 <= r < j ==> #[trigger] self.slot(r, index + i) == other@.at(r, i as int),
                decreases self.rows - j,
            {
                proof {
                    other.lemma_cells();
                }
                let value: T = other.get(j, i);
                self.put(j, i + index, value);
                j = j + 1;
            }
            i = i + 1;
        }
        let ghost copied = *self;
        self.cols = new_cols;
        proof {
            self.lemma_view_slots();
            grown.lemma_view_slots();
            other.lemma_view_slots();
            let target = old(self)@.insert_columns(index as int, other@);
            assert forall|r: int, c: int| self@.has(r, c) implies self@.at(r, c) == target.at(r, c) by {
                assert(self.slot(r, c) == copied.slot(r, c));
                if c < index {
                    assert(copied.slot(r, c) == opened.slot(r, c));
                    assert(grown@.has(r, c));
                } else if c < index + count {
                    assert(copied.slot(r, index + (c - index)) == other@.at(r, c - index));
                } else {
                    assert(copied.slot(r, c) == opened.slot(r, c));
                    assert(opened.slot(r, (c - count) + count) == grown.slot(r, c - count));
                    assert(grown@.has(r, c - count));
                }
            }
            lemma_grid_equal(self@, target);
        }
        self
    }

    /// Appends the columns of `other` after the last column.
    pub fn append_columns(&mut self, other: &Matrix<T>) -> (result: &mut Matrix<T>)
        requires
            old(self).wf(),
            other.wf(),
            old(self)@.rows == other@.rows,
            other@.cols > 0,
            representable(old(self)@.rows, old(self)@.cols + other@.cols),
        ensures
            result.wf(),
            result@ == old(self)@.insert_columns(old(self)@.cols as int, other@),
            *final(self) == *final(result),
    {
        let cols: usize = self.cols;
        self.insert_columns(cols, other)
    }

    /// Prepends the columns of `other` before the first column.
    pub fn prepend_columns(&mut self, other: &Matrix<T>) -> (result: &mut Matrix<T>)
        requires
            old(self).wf(),
            other.wf(),
            old(self)@.rows == other@.rows,
            other@.cols > 0,
            representable(old(self)@.rows, old(self)@.cols + other@.cols),
        ensures
            result.wf(),
            result@ == old(self)@.insert_columns(0, other@),
            *final(self) == *final(result),
    {
        self.insert_columns(0, other)
    }

    /// Inserts the rows of `other` before row `index`.
    ///
    /// The rows from `index` on move down by the number of rows of `other`;
    /// the buffer grows first where the new rows do not fit.
    pub fn insert_rows(&mut self, index: usize, other: &Matrix<T>) -> (result: &mut Matrix<T>)
        requires
            old(self).wf(),
            other.wf(),
            old(self)@.cols == other@.cols,
            other@.rows > 0,
            index <= old(self)@.rows,
            representable(old(self)@.rows + other@.rows, old(self)@.cols),
        ensures
            result.wf(),
            result@ == old(self)@.insert_rows(index as int, other@),
            *final(self) == *final(result),
    {
        proof {
            self.lemma_cells();
            other.lemma_cells();
            lemma_next_power_of_two(self.rows as nat);
            lemma_next_power_of_two((self.rows + other.rows) as nat);
            lemma_next_power_of_two_monotone(self.rows as nat, (self.rows + other.rows) as nat);
        }
        let count: usize = other.rows;
        let new_rows: usize = self.rows + count;
        if self.xrows < new_rows {
            let cols: usize = self.cols;
            self.reallocate(new_rows, cols);
        }
        if self.xrows < new_rows {
            // Growth leaves an empty buffer as it is: there is no cell to lay
            // out, and the allocated height is all that changes.
            proof {
                assert(self.xcols == 0) by (nonlinear_arith)
                    requires
                        next_power_of_two(new_rows as nat) * self.xcols <= self.xrows * self.xcols,
                        self.xrows < next_power_of_two(new_rows as nat),
                        self.xcols >= 0,
                ;
            }
            assert(self.buffer@.len() == 0) by (nonlinear_arith)
                requires
                    self.buffer@.len() == self.xrows * self.xcols,
                    self.xcols == 0,
            ;
            self.xrows = target_allocation(new_rows);
            assert(self.xrows * self.xcols == 0) by (nonlinear_arith)
                requires
                    self.xcols == 0,
            ;
        }
        proof {
            if old(self).xrows >= new_rows {
                lemma_next_power_of_two_least(new_rows as nat, old(self).xrows as nat);
            }
            assert(self.xrows == next_power_of_two(new_rows as nat));
            self.lemma_view_slots();
            old(self).lemma_view_slots();
            lemma_grid_equal(self@, old(self)@);
        }
        let ghost grown = *self;
        self.create_row_space(index, count);
        let ghost opened = *self;
        let mut i: usize = 0;
        while i < count
            invariant
                i <= count,
                count == other.rows,
                index <= self.rows,
                self.rows + count <= self.xrows,
                self.cols == other.cols,
                other.wf(),
                self.laid_out(),
                self.same_frame(&opened),
                forall|r: int, c: int|
                    0 <= r < self.xrows && 0 <= c < self.cols && !(index <= r < index + i)
                        ==> #[trigger] self.slot(r, c) == opened.slot(r, c),
                forall|r: int, c: int|
                    0 <= r < i && 0 <= c < self.cols ==> #[trigger] self.slot(index + r, c)
                        == other@.at(r, c),
            decreases count - i,
        {
            let mut j: usize = 0;
            while j < self.cols
                invariant
                    i < count,
                    count == other.rows,
                    index <= self.rows,
                    self.rows + count <= self.xrows,
                    self.cols == other.cols,
                    j <= self.cols,
                    other.wf(),
                    self.laid_out(),
                    self.same_frame(&opened),
                    forall|r: int, c: int|
                        0 <= r < self.xrows && 0 <= c < self.cols && !(index <= r < index + i) && !(r
                            == index + i && c < j) ==> #[trigger] self.slot(r, c) == opened.slot(r, c),
                    forall|r: int, c: int|
                        0 <= r < i && 0 <= c < self.cols ==> #[trigger] self.slot(index + r, c)
                            == other@.at(r, c),
                    forall|c: int|
                        0 <= c < j ==> #[trigger] self.slot(index + i, c) == other@.at(i as int, c),
                decreases self.cols - j,
            {
                proof {
                    other.lemma_cells();
                }
                let value: T = other.get(i, j);
                self.put(i + index, j, value);
                j = j + 1;
            }
            i = i + 1;
        }
        let ghost copied = *self;
        self.rows = new_rows;
        proof {
            self.lemma_view_slots();
            grown.lemma_view_slots();
            other.lemma_view_slots();
            let target = old(self)@.insert_rows(index as int, other@);
            assert forall|r: int, c: int| self@.has(r, c) implies self@.at(r, c) == target.at(r, c) by {
                assert(self.slot(r, c) == copied.slot(r, c));
                if r < index {
                    assert(copied.slot(r, c) == opened.slot(r, c));
                    assert(grown@.has(r, c));
                } else if r < index + count {
                    assert(copied.slot(index + (r - index), c) == other@.at(r - index, c));
                } else {
                    assert(copied.slot(r, c) == opened.slot(r, c));
                    assert(opened.slot((r - count) + count, c) == grown.slot(r - count, c));
                    assert(grown@.has(r - count, c));
                }
            }
            lemma_grid_equal(self@, target);
        }
        self
    }

    /// Appends the rows of `other` below the last row.
    pub fn append_rows(&mut self, other: &Matrix<T>) -> (result: &mut Matrix<T>)
        requires
            old(self).wf(),
            other.wf(),
            old(self)@.cols == other@.cols,
            other@.rows > 0,
            representable(old(self)@.rows + other@.rows, old(self)@.cols),
        ensures
            result.wf(),
            result@ == old(self)@.insert_rows(old(self)@.rows as int, other@),
            *final(self) == *final(result),
    {
        let rows: usize = self.rows;
        self.insert_rows(rows, other)
    }

    /// Prepends the rows of `other` above the first row.
    pub fn prepend_rows(&mut self, other: &Matrix<T>) -> (result: &mut Matrix<T>)
        requires
            old(self).wf(),
            other.wf(),
            old(self)@.cols == other@.cols,
            other@.rows > 0,
            representable(old(self)@.rows + other@.rows, old(self)@.cols),
        ensures
            result.wf(),
            result@ == old(self)@.insert_rows(0, other@),
            *final(self) == *final(result),
    {
        self.insert_rows(0, other)
    }
}

} // verus!
