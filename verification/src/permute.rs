//! Rows and columns in another order.

use vstd::prelude::*;
use crate::number::Number;
use crate::grid::{Grid, lemma_grid_equal, lemma_grid_set};
use crate::matrix::Matrix;

verus! {

impl Grid<u16> {
    /// A column of `n` indices, each of them below `n`.
    pub open spec fn is_selection(self, n: nat) -> bool {
        &&& self.cols == 1
        &&& self.rows == n
        &&& forall|i: int| 0 <= i < n ==> (#[trigger] self.at(i, 0)) < n
    }
}

impl<T: Number> Matrix<T> {
    /// Returns the matrix whose row `r` is the row of this matrix that
    /// `permutation` names in its row `r`.
    pub fn permuted_rows(&self, permutation: &Matrix<u16>) -> (m: Matrix<T>)
        requires
            self.wf(),
            permutation.wf(),
            permutation@.is_selection(self@.rows),
        ensures
            m.wf(),
            m@ == self@.pick_rows(permutation@.columns[0]),
    {
        proof {
            self.lemma_well_formed();
            permutation.lemma_well_formed();
        }
        let mut m: Matrix<T> = Matrix::new(self.rows, self.cols);
        let mut c: usize = 0;
        while c < self.cols
            invariant
                c <= self.cols,
                self.wf(),
                permutation.wf(),
                permutation@.wf(),
                permutation@.is_selection(self@.rows),
                m.wf(),
                m@.wf(),
                m@.rows == self@.rows,
                m@.cols == self@.cols,
                forall|r2: int, c2: int|
                    m@.has(r2, c2) && c2 < c ==> #[trigger] m@.at(r2, c2) == self@.at(
                        permutation@.at(r2, 0) as int,
                        c2,
                    ),
            decreases self.cols - c,
        {
            let mut r: usize = 0;
            while r < self.rows
                invariant
                    c < self.cols,
                    r <= self.rows,
                    self.wf(),
                    permutation.wf(),
                    permutation@.wf(),
                    permutation@.is_selection(self@.rows),
                    m.wf(),
                    m@.wf(),
                    m@.rows == self@.rows,
                    m@.cols == self@.cols,
                    forall|r2: int, c2: int|
                        m@.has(r2, c2) && (c2 < c || (c2 == c && r2 < r)) ==> #[trigger] m@.at(r2, c2)
                            == self@.at(permutation@.at(r2, 0) as int, c2),
                decreases self.rows - r,
            {
                let source: u16 = permutation.get(r, 0);
                assert(permutation@.at(r as int, 0) < self@.rows);
                let value: T = self.get(source as usize, c);
                proof {
                    lemma_grid_set(m@, r as int, c as int, value);
                }
                m.set(r, c, value);
                r = r + 1;
            }
            c = c + 1;
        }
        proof {
            lemma_grid_equal(m@, self@.pick_rows(permutation@.columns[0]));
        }
        m
    }

    /// Returns the matrix whose column `c` is the column of this matrix that
    /// `permutation` names in its row `c`.
    pub fn permuted_cols(&self, permutation: &Matrix<u16>) -> (m: Matrix<T>)
        requires
            self.wf(),
            permutation.wf(),
            permutation@.is_selection(self@.cols),
        ensures
            m.wf(),
            m@ == self@.pick_cols(permutation@.columns[0]),
    {
        proof {
            self.lemma_well_formed();
            permutation.lemma_well_formed();
        }
        let mut m: Matrix<T> = Matrix::new(self.rows, self.cols);
        let mut c: usize = 0;
        while c < self.cols
            invariant
                c <= self.cols,
                self.wf(),
                permutation.wf(),
                permutation@.wf(),
                permutation@.is_selection(self@.cols),
                m.wf(),
                m@.wf(),
                m@.rows == self@.rows,
                m@.cols == self@.cols,
                forall|r2: int, c2: int|
                    m@.has(r2, c2) && c2 < c ==> #[trigger] m@.at(r2, c2) == self@.at(
                        r2,
                        permutation@.at(c2, 0) as int,
                    ),
            decreases self.cols - c,
        {
            let source: u16 = permutation.get(c, 0);
            assert(permutation@.at(c as int, 0) < self@.cols);
            let mut r: usize = 0;
            while r < self.rows
                invariant
                    c < self.cols,
                    r <= self.rows,
                    source == permutation@.at(c as int, 0),
                    source < self@.cols,
                    self.wf(),
                    permutation.wf(),
                    permutation@.wf(),
                    permutation@.is_selection(self@.cols),
                    m.wf(),
                    m@.wf(),
                    m@.rows == self@.rows,
                    m@.cols == self@.cols,
                    forall|r2: int, c2: int|
                        m@.has(r2, c2) && (c2 < c || (c2 == c && r2 < r)) ==> #[trigger] m@.at(r2, c2)
                            == self@.at(r2, permutation@.at(c2, 0) as int),
                decreases self.rows - r,
            {
                let value: T = self.get(r, source as usize);
                proof {
                    lemma_grid_set(m@, r as int, c as int, value);
                }
                m.set(r, c, value);
                r = r + 1;
            }
            c = c + 1;
        }
        proof {
            lemma_grid_equal(m@, self@.pick_cols(permutation@.columns[0]));
        }
        m
    }
}

} // verus!
