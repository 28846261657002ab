//! Growth: a larger buffer with the cells laid out anew, and a gap opened in
//! place for rows or columns that are to be inserted.

use vstd::prelude::*;
use crate::number::Number;
use crate::capacity::{next_power_of_two, target_allocation, lemma_next_power_of_two};
use crate::addressing::{offset_of, lemma_offset_in_buffer, lemma_offset_injective};
use crate::grid::lemma_grid_equal;
use crate::matrix::{Matrix, representable, filled};

verus! {

impl<T: Number> Matrix<T> {
    /// The logical size lies within the allocated size, and the buffer holds
    /// exactly the allocated cells. This is what holds of a matrix while it is
    /// being grown.
    pub(crate) open spec fn laid_out(&self) -> bool {
        &&& self.rows <= self.xrows
        &&& self.cols <= self.xcols
        &&& self.buffer@.len() == self.xrows * self.xcols
    }

    /// What the buffer holds at row `r` and column `c` of the allocated area.
    pub(crate) open spec fn slot(&self, r: int, c: int) -> T {
        self.buffer@[offset_of(self.xrows as int, r, c)]
    }

    /// `(r, c)` lies in the allocated area.
    pub(crate) open spec fn allocated(&self, r: int, c: int) -> bool {
        0 <= r < self.xrows && 0 <= c < self.xcols
    }

    /// The logical size and the allocated size are those of `other`.
    pub(crate) open spec fn same_frame(&self, other: &Matrix<T>) -> bool {
        &&& self.rows == other.rows
        &&& self.cols == other.cols
        &&& self.xrows == other.xrows
        &&& self.xcols == other.xcols
    }

    /// The view of a matrix is a well-formed grid whose cells are the slots of
    /// the logical area.
    pub(crate) proof fn lemma_view_slots(&self)
        ensures
            self@.wf(),
            self@.rows == self.rows,
            self@.cols == self.cols,
            forall|r: int, c: int| self@.has(r, c) ==> #[trigger] self@.at(r, c) == self.slot(r, c),
    {
    }

    /// Reads a slot of the allocated area.
    pub(crate) fn peek(&self, r: usize, c: usize) -> (value: T)
        requires
            self.laid_out(),
            self.allocated(r as int, c as int),
        ensures
            value == self.slot(r as int, c as int),
    {
        proof {
            lemma_offset_in_buffer(self.xrows as int, self.xcols as int, r as int, c as int);
            assert(self.buffer@.len() == self.buffer.len());
            assert(c * self.xrows >= 0) by (nonlinear_arith)
                requires
                    c >= 0,
                    self.xrows >= 0,
            ;
        }
        self.buffer[c * self.xrows + r]
    }

    /// Writes a slot of the allocated area. No other slot changes.
    pub(crate) fn put(&mut self, r: usize, c: usize, value: T)
        requires
            old(self).laid_out(),
            old(self).allocated(r as int, c as int),
        ensures
            final(self).laid_out(),
            final(self).same_frame(old(self)),
            final(self).slot(r as int, c as int) == value,
            forall|r2: int, c2: int|
                old(self).allocated(r2, c2) && !(r2 == r && c2 == c) ==> #[trigger] final(self).slot(
                    r2,
                    c2,
                ) == old(self).slot(r2, c2),
    {
        proof {
            lemma_offset_in_buffer(self.xrows as int, self.xcols as int, r as int, c as int);
            assert(self.buffer@.len() == self.buffer.len());
            assert(c * self.xrows >= 0) by (nonlinear_arith)
                requires
                    c >= 0,
                    self.xrows >= 0,
            ;
        }
        let offset: usize = c * self.xrows + r;
        self.buffer.set(offset, value);
        proof {
            assert forall|r2: int, c2: int|
                old(self).allocated(r2, c2) && !(r2 == r && c2 == c) implies #[trigger] self.slot(
                r2,
                c2,
            ) == old(self).slot(r2, c2) by {
                lemma_offset_in_buffer(self.xrows as int, self.xcols as int, r2, c2);
                if offset_of(self.xrows as int, r2, c2) == offset as int {
                    lemma_offset_injective(self.xrows as int, r2, c2, r as int, c as int);
                }
            }
        }
    }

    /// Makes the buffer large enough for a matrix of `rows` by `cols`.
    ///
    /// Where the buffer that such a matrix asks for is no larger than the one
    /// at hand, nothing happens. Otherwise the matrix gets a new buffer of the
    /// allocated size that belongs to `rows` by `cols`, and every cell is
    /// copied to its place under the new stride. The logical size and the
    /// cells stay as they are.
    pub(crate) fn reallocate(&mut self, rows: usize, cols: usize)
        requires
            old(self).laid_out(),
            old(self).rows <= rows,
            old(self).cols <= cols,
            representable(rows as nat, cols as nat),
        ensures
            final(self).laid_out(),
            final(self).rows == old(self).rows,
            final(self).cols == old(self).cols,
            final(self)@ == old(self)@,
            next_power_of_two(rows as nat) * next_power_of_two(cols as nat) <= old(self).xrows * old(
                self,
            ).xcols ==> *final(self) == *old(self),
            next_power_of_two(rows as nat) * next_power_of_two(cols as nat) > old(self).xrows * old(
                self,
            ).xcols ==> final(self).xrows == next_power_of_two(rows as nat) && final(self).xcols
                == next_power_of_two(cols as nat),
    {
        let new_xrows: usize = target_allocation(rows);
        let new_xcols: usize = target_allocation(cols);
        proof {
            assert(self.buffer@.len() == self.buffer.len());
            lemma_next_power_of_two(rows as nat);
            lemma_next_power_of_two(cols as nat);
        }
        let old_capacity: usize = self.xrows * self.xcols;
        let new_capacity: usize = new_xrows * new_xcols;
        if old_capacity >= new_capacity {
            return ;
        }
        let mut grown = Matrix {
            rows: self.rows,
            cols: self.cols,
            xrows: new_xrows,
            xcols: new_xcols,
            buffer: filled(new_capacity, T::zero()),
        };
        let mut c: usize = 0;
        while c < self.cols
            invariant
                c <= self.cols,
                self.laid_out(),
                grown.laid_out(),
                grown.rows == self.rows,
                grown.cols == self.cols,
                grown.xrows == new_xrows,
                grown.xcols == new_xcols,
                forall|r2: int, c2: int|
                    0 <= r2 < self.rows && 0 <= c2 < c ==> #[trigger] grown.slot(r2, c2) == self.slot(
                        r2,
                        c2,
                    ),
            decreases self.cols - c,
        {
            let mut r: usize = 0;
            while r < self.rows
                invariant
                    c < self.cols,
                    r <= self.rows,
                    self.laid_out(),
                    grown.laid_out(),
                    grown.rows == self.rows,
                    grown.cols == self.cols,
                    grown.xrows == new_xrows,
                    grown.xcols == new_xcols,
                    forall|r2: int, c2: int|
                        0 <= r2 < self.rows && (0 <= c2 < c || (c2 == c && r2 < r))
                            ==> #[trigger] grown.slot(r2, c2) == self.slot(r2, c2),
                decreases self.rows - r,
            {
                let value: T = self.peek(r, c);
                grown.put(r, c, value);
                r = r + 1;
            }
            c = c + 1;
        }
        proof {
            self.lemma_view_slots();
            grown.lemma_view_slots();
            lemma_grid_equal(grown@, self@);
        }
        *self = grown;
    }

    /// Opens a gap of `count` columns before column `start`: every column from
    /// `start` on moves `count` places to the right.
    ///
    /// A column and its new place may overlap in the buffer with the places of
    /// other columns that have yet to move. So the columns are moved from the
    /// last one backward: each lands on places that no column still needs.
    pub(crate) fn create_column_space(&mut self, start: usize, count: usize)
        requires
            old(self).laid_out(),
            start <= old(self).cols,
            old(self).cols + count <= old(self).xcols,
        ensures
            final(self).laid_out(),
            final(self).same_frame(old(self)),
            forall|r: int, c: int|
                0 <= r < old(self).rows && 0 <= c < start ==> #[trigger] final(self).slot(r, c) == old(
                    self,
                ).slot(r, c),
            forall|r: int, c: int|
                0 <= r < old(self).rows && start <= c < old(self).cols ==> #[trigger] final(self).slot(
                    r,
                    c + count,
                ) == old(self).slot(r, c),
    {
        if count == 0 {
            return ;
        }
        let mut cur_col: usize = self.cols;
        while cur_col > start
            invariant
                start <= cur_col <= self.cols,
                count > 0,
                self.cols + count <= self.xcols,
                self.laid_out(),
                self.same_frame(old(self)),
                forall|r: int, c: int|
                    0 <= r < self.rows && 0 <= c < cur_col ==> #[trigger] self.slot(r, c) == old(
                        self,
                    ).slot(r, c),
                forall|r: int, c: int|
                    0 <= r < self.rows && cur_col <= c < self.cols ==> #[trigger] self.slot(
                        r,
                        c + count,
                    ) == old(self).slot(r, c),
            decreases cur_col,
        {
            cur_col = cur_col - 1;
            let dst_col: usize = cur_col + count;
            let mut i: usize = 0;
            while i < self.rows
                invariant
                    start <= cur_col < self.cols,
                    count > 0,
                    dst_col == cur_col + count,
                    self.cols + count <= self.xcols,
                    i <= self.rows,
                    self.laid_out(),
                    self.same_frame(old(self)),
                    forall|r: int, c: int|
                        0 <= r < self.rows && 0 <= c <= cur_col ==> #[trigger] self.slot(r, c) == old(
                            self,
                        ).slot(r, c),
                    forall|r: int, c: int|
                        0 <= r < self.rows && cur_col < c < self.cols ==> #[trigger] self.slot(
                            r,
                            c + count,
                        ) == old(self).slot(r, c),
                    forall|r: int| 0 <= r < i ==> #[trigger] self.slot(r, dst_col as int) == old(self).slot(r, cur_col as int),
                decreases self.rows - i,
            {
                let value: T = self.peek(i, cur_col);
                self.put(i, dst_col, value);
                i = i + 1;
            }
        }
    }

    /// Opens a gap of `count` rows before row `start`: every row from `start`
    /// on moves `count` places down.
    ///
    /// The rows are moved from the last one backward, so that each lands on
    /// places that no row still needs.
    pub(crate) fn create_row_space(&mut self, start: usize, count: usize)
        requires
            old(self).laid_out(),
            start <= old(self).rows,
            old(self).rows + count <= old(self).xrows,
        ensures
            final(self).laid_out(),
            final(self).same_frame(old(self)),
            forall|r: int, c: int|
                0 <= r < start && 0 <= c < old(self).cols ==> #[trigger] final(self).slot(r, c) == old(
                    self,
                ).slot(r, c),
            forall|r: int, c: int|
                start <= r < old(self).rows && 0 <= c < old(self).cols ==> #[trigger] final(self).slot(
                    r + count,
                    c,
                ) == old(self).slot(r, c),
    {
        if count == 0 {
            return ;
        }
        let mut cur_row: usize = self.rows;
        while cur_row > start
            invariant
                start <= cur_row <= self.rows,
                count > 0,
                self.rows + count <= self.xrows,
                self.laid_out(),
                self.same_frame(old(self)),
                forall|r: int, c: int|
                    0 <= r < cur_row && 0 <= c < self.cols ==> #[trigger] self.slot(r, c) == old(
                        self,
                    ).slot(r, c),
                forall|r: int, c: int|
                    cur_row <= r < self.rows && 0 <= c < self.cols ==> #[trigger] self.slot(
                        r + count,
                        c,
                    ) == old(self).slot(r, c),
            decreases cur_row,
        {
            cur_row = cur_row - 1;
            let dst_row: usize = cur_row + count;
            let mut i: usize = 0;
            while i < self.cols
                invariant
                    start <= cur_row < self.rows,
                    count > 0,
                    dst_row == cur_row + count,
                    self.rows + count <= self.xrows,
                    i <= self.cols,
                    self.laid_out(),
                    self.same_frame(old(self)),
                    forall|r: int, c: int|
                        0 <= r <= cur_row && 0 <= c < self.cols ==> #[trigger] self.slot(r, c) == old(
                            self,
                        ).slot(r, c),
                    forall|r: int, c: int|
                        cur_row < r < self.rows && 0 <= c < self.cols ==> #[trigger] self.slot(
                            r + count,
                            c,
                        ) == old(self).slot(r, c),
                    forall|c: int| 0 <= c < i ==> #[trigger] self.slot(dst_row as int, c) == old(self).slot(cur_row as int, c),
                decreases self.cols - i,
            {
                let value: T = self.peek(cur_row, i);
                self.put(dst_row, i, value);
                i = i + 1;
            }
        }
    }
}

} // verus!
