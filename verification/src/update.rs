//! Updates in place: rows and columns, or their triangular parts, multiplied
//! by a factor.

use vstd::prelude::*;
use crate::number::Number;
use crate::grid::{Grid, lemma_grid_equal, lemma_grid_set};
use crate::matrix::Matrix;

verus! {

impl<T: Number> Grid<T> {
    /// This grid with every cell of the rectangle of rows `r0` up to `r1` and
    /// columns `c0` up to `c1`, both ends left out, multiplied by `factor`
    /// from the left.
    pub open spec fn scale_block(self, r0: int, r1: int, c0: int, c1: int, factor: T) -> Grid<T> {
        Grid::new(
            self.rows,
            self.cols,
            |r: int, c: int|
                if r0 <= r < r1 && c0 <= c < c1 {
                    factor.times_spec(self.at(r, c))
                } else {
                    self.at(r, c)
                },
        )
    }

    /// This grid with every cell of row `r` multiplied by the cell of `factors`
    /// in row `r`, for the first `n` rows.
    pub open spec fn scale_rows(self, factors: Grid<T>, n: int) -> Grid<T> {
        Grid::new(
            self.rows,
            self.cols,
            |r: int, c: int|
                if r < n {
                    factors.at(r, 0).times_spec(self.at(r, c))
                } else {
                    self.at(r, c)
                },
        )
    }

    /// This grid with every cell of column `c` multiplied by the cell of
    /// `factors` in row `c`, for the first `n` columns.
    pub open spec fn scale_cols(self, factors: Grid<T>, n: int) -> Grid<T> {
        Grid::new(
            self.rows,
            self.cols,
            |r: int, c: int|
                if c < n {
                    factors.at(c, 0).times_spec(self.at(r, c))
                } else {
                    self.at(r, c)
                },
        )
    }
}

impl<T: Number> Matrix<T> {
    /// Multiplies every cell of a rectangle by `factor`.
    pub(crate) fn scale_block(&mut self, r0: usize, r1: usize, c0: usize, c1: usize, factor: T)
        requires
            old(self).wf(),
            r0 <= r1 <= old(self)@.rows,
            c0 <= c1 <= old(self)@.cols,
        ensures
            final(self).wf(),
            final(self)@ == old(self)@.scale_block(r0 as int, r1 as int, c0 as int, c1 as int, factor),
    {
        proof {
            self.lemma_well_formed();
        }
        let mut c: usize = c0;
        while c < c1
            invariant
                c0 <= c <= c1,
                r0 <= r1,
                c1 <= self@.cols,
                r1 <= self@.rows,
                self.wf(),
                self@.wf(),
                self@.rows == old(self)@.rows,
                self@.cols == old(self)@.cols,
                forall|r2: int, c2: int|
                    self@.has(r2, c2) ==> #[trigger] self@.at(r2, c2) == if r0 <= r2 < r1 && c0 <= c2
                        < c {
                        factor.times_spec(old(self)@.at(r2, c2))
                    } else {
                        old(self)@.at(r2, c2)
                    },
            decreases c1 - c,
        {
            let mut r: usize = r0;
            while r < r1
                invariant
                    c0 <= c < c1,
                    r0 <= r <= r1,
                    c1 <= self@.cols,
                    r1 <= self@.rows,
                    self.wf(),
                    self@.wf(),
                    self@.rows == old(self)@.rows,
                    self@.cols == old(self)@.cols,
                    forall|r2: int, c2: int|
                        self@.has(r2, c2) ==> #[trigger] self@.at(r2, c2) == if r0 <= r2 < r1 && c0
                            <= c2 && (c2 < c || (c2 == c && r2 < r)) {
                            factor.times_spec(old(self)@.at(r2, c2))
                        } else {
                            old(self)@.at(r2, c2)
                        },
                decreases r1 - r,
            {
                let value: T = factor.times(self.get(r, c));
                proof {
                    lemma_grid_set(self@, r as int, c as int, value);
                }
                self.set(r, c, value);
                r = r + 1;
            }
            c = c + 1;
        }
        proof {
            lemma_grid_equal(
                self@,
                old(self)@.scale_block(r0 as int, r1 as int, c0 as int, c1 as int, factor),
            );
        }
    }

    /// Multiplies the part of row `r` that lies on or below the diagonal by
    /// `scale_factor`: the columns up to `r`.
    pub fn scale_row_lt(&mut self, r: usize, scale_factor: T) -> (result: &mut Matrix<T>)
        requires
            old(self).wf(),
            r < old(self)@.rows,
            r < old(self)@.cols,
        ensures
            result.wf(),
            result@ == old(self)@.scale_block(r as int, r + 1, 0, r + 1, scale_factor),
            *final(self) == *final(result),
    {
        self.scale_block(r, r + 1, 0, r + 1, scale_factor);
        self
    }

    /// Multiplies the part of column `c` that lies on or below the diagonal by
    /// `scale_factor`: the rows from `c` on.
    pub fn scale_col_lt(&mut self, c: usize, scale_factor: T) -> (result: &mut Matrix<T>)
        requires
            old(self).wf(),
            c < old(self)@.cols,
            c <= old(self)@.rows,
        ensures
            result.wf(),
            result@ == old(self)@.scale_block(
                c as int,
                old(self)@.rows as int,
                c as int,
                c + 1,
                scale_factor,
            ),
            *final(self) == *final(result),
    {
        let rows: usize = self.rows;
        self.scale_block(c, rows, c, c + 1, scale_factor);
        self
    }

    /// Multiplies the part of row `r` that lies on or above the diagonal by
    /// `scale_factor`: the columns from `r` on.
    pub fn scale_row_ut(&mut self, r: usize, scale_factor: T) -> (result: &mut Matrix<T>)
        requires
            old(self).wf(),
            r < old(self)@.rows,
            r <= old(self)@.cols,
        ensures
            result.wf(),
            result@ == old(self)@.scale_block(
                r as int,
                r + 1,
                r as int,
                old(self)@.cols as int,
                scale_factor,
            ),
            *final(self) == *final(result),
    {
        let cols: usize = self.cols;
        self.scale_block(r, r + 1, r, cols, scale_factor);
        self
    }

    /// Multiplies the part of column `c` that lies on or above the diagonal by
    /// `scale_factor`: the rows up to `c`.
    pub fn scale_col_ut(&mut self, c: usize, scale_factor: T) -> (result: &mut Matrix<T>)
        requires
            old(self).wf(),
            c < old(self)@.cols,
            c < old(self)@.rows,
        ensures
            result.wf(),
            result@ == old(self)@.scale_block(0, c + 1, c as int, c + 1, scale_factor),
            *final(self) == *final(result),
    {
        self.scale_block(0, c + 1, c, c + 1, scale_factor);
        self
    }

    /// Multiplies every row by the factor that the column `scale_factors`
    /// holds for it.
    pub fn scale_rows(&mut self, scale_factors: &Matrix<T>) -> (result: &mut Matrix<T>)
        requires
            old(self).wf(),
            scale_factors.wf(),
            scale_factors@.cols == 1,
            scale_factors@.rows == old(self)@.rows,
        ensures
            result.wf(),
            result@ == old(self)@.scale_rows(scale_factors@, old(self)@.rows as int),
            *final(self) == *final(result),
    {
        proof {
            self.lemma_well_formed();
            lemma_grid_equal(self@, old(self)@.scale_rows(scale_factors@, 0));
        }
        let mut r: usize = 0;
        while r < self.rows
            invariant
                r <= self.rows,
                self.wf(),
                self@.wf(),
                scale_factors.wf(),
                scale_factors@.cols == 1,
                scale_factors@.rows == self@.rows,
                self@.rows == old(self)@.rows,
                self@.cols == old(self)@.cols,
                self@ == old(self)@.scale_rows(scale_factors@, r as int),
            decreases self.rows - r,
        {
            let factor: T = scale_factors.get(r, 0);
            let cols: usize = self.cols;
            self.scale_block(r, r + 1, 0, cols, factor);
            r = r + 1;
            proof {
                lemma_grid_equal(self@, old(self)@.scale_rows(scale_factors@, r as int));
            }
        }
        self
    }

    /// Multiplies every column by the factor that the column `scale_factors`
    /// holds for it.
    pub fn scale_cols(&mut self, scale_factors: &Matrix<T>) -> (result: &mut Matrix<T>)
        requires
            old(self).wf(),
            scale_factors.wf(),
            scale_factors@.cols == 1,
            scale_factors@.rows == old(self)@.cols,
        ensures
            result.wf(),
            result@ == old(self)@.scale_cols(scale_factors@, old(self)@.cols as int),
            *final(self) == *final(result),
    {
        proof {
            self.lemma_well_formed();
            lemma_grid_equal(self@, old(self)@.scale_cols(scale_factors@, 0));
        }
        let mut c: usize = 0;
        while c < self.cols
            invariant
                c <= self.cols,
                self.wf(),
                self@.wf(),
                scale_factors.wf(),
                scale_factors@.cols == 1,
                scale_factors@.rows == self@.cols,
                self@.rows == old(self)@.rows,
                self@.cols == old(self)@.cols,
                self@ == old(self)@.scale_cols(scale_factors@, c as int),
            decreases self.cols - c,
        {
            let factor: T = scale_factors.get(c, 0);
            let rows: usize = self.rows;
            self.scale_block(0, rows, c, c + 1, factor);
            c = c + 1;
            proof {
                lemma_grid_equal(self@, old(self)@.scale_cols(scale_factors@, c as int));
            }
        }
        self
    }
}

} // verus!
