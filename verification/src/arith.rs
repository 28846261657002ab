//! Arithmetic on matrices. Every operation gives a new matrix.

use vstd::prelude::*;
use crate::number::Number;
use crate::error::MatrixError;
use crate::grid::{Grid, lemma_grid_equal, lemma_grid_set};
use crate::matrix::Matrix;

verus! {

/// An operation on two numbers.
#[derive(Clone, Copy)]
pub(crate) enum ElementOp {
    Plus,
    Minus,
    Times,
    Over,
}

impl ElementOp {
    /// Whether the operation is defined with `b` on its right.
    pub(crate) open spec fn admits<T: Number>(self, b: T) -> bool {
        self is Over ==> b.divisor_spec()
    }

    /// What the operation gives for `a` and `b`.
    pub(crate) open spec fn result<T: Number>(self, a: T, b: T) -> T {
        match self {
            ElementOp::Plus => a.plus_spec(b),
            ElementOp::Minus => a.minus_spec(b),
            ElementOp::Times => a.times_spec(b),
            ElementOp::Over => a.over_spec(b),
        }
    }

    pub(crate) fn apply<T: Number>(self, a: T, b: T) -> (r: T)
        requires
            self.admits(b),
        ensures
            r == self.result(a, b),
    {
        match self {
            ElementOp::Plus => a.plus(b),
            ElementOp::Minus => a.minus(b),
            ElementOp::Times => a.times(b),
            ElementOp::Over => a.over(b),
        }
    }
}

impl<T: Number> Matrix<T> {
    /// Applies `op` to every cell of this matrix and the cell of `rhs` in the
    /// same place.
    pub(crate) fn combine(&self, op: ElementOp, rhs: &Matrix<T>) -> (m: Matrix<T>)
        requires
            self.wf(),
            rhs.wf(),
            self@.rows == rhs@.rows,
            self@.cols == rhs@.cols,
            forall|r: int, c: int| rhs@.has(r, c) ==> op.admits(#[trigger] rhs@.at(r, c)),
        ensures
            m.wf(),
            m@ == Grid::new(
                self@.rows,
                self@.cols,
                |r: int, c: int| op.result(self@.at(r, c), rhs@.at(r, c)),
            ),
    {
        proof {
            self.lemma_well_formed();
        }
        let mut m: Matrix<T> = Matrix::new(self.rows, self.cols);
        let ghost target = Grid::new(
            self@.rows,
            self@.cols,
            |r: int, c: int| op.result(self@.at(r, c), rhs@.at(r, c)),
        );
        let mut c: usize = 0;
        while c < self.cols
            invariant
                c <= self.cols,
                self.wf(),
                rhs.wf(),
                self@.rows == rhs@.rows,
                self@.cols == rhs@.cols,
                forall|r: int, c: int| rhs@.has(r, c) ==> op.admits(#[trigger] rhs@.at(r, c)),
                m.wf(),
                m@.wf(),
                m@.rows == self@.rows,
                m@.cols == self@.cols,
                forall|r2: int, c2: int|
                    m@.has(r2, c2) && c2 < c ==> #[trigger] m@.at(r2, c2) == op.result(
                        self@.at(r2, c2),
                        rhs@.at(r2, c2),
                    ),
            decreases self.cols - c,
        {
            let mut r: usize = 0;
            while r < self.rows
                invariant
                    c < self.cols,
                    r <= self.rows,
                    self.wf(),
                    rhs.wf(),
                    self@.rows == rhs@.rows,
                    self@.cols == rhs@.cols,
                    forall|r: int, c: int| rhs@.has(r, c) ==> op.admits(#[trigger] rhs@.at(r, c)),
                    m.wf(),
                    m@.wf(),
                    m@.rows == self@.rows,
                    m@.cols == self@.cols,
                    forall|r2: int, c2: int|
                        m@.has(r2, c2) && (c2 < c || (c2 == c && r2 < r)) ==> #[trigger] m@.at(r2, c2)
                            == op.result(self@.at(r2, c2), rhs@.at(r2, c2)),
                decreases self.rows - r,
            {
                assert(rhs@.has(r as int, c as int));
                let value: T = op.apply(self.get(r, c), rhs.get(r, c));
                proof {
                    lemma_grid_set(m@, r as int, c as int, value);
                }
                m.set(r, c, value);
                r = r + 1;
            }
            c = c + 1;
        }
        proof {
            lemma_grid_equal(m@, target);
        }
        m
    }

    /// Applies `op` to every cell of this matrix and `rhs`.
    pub(crate) fn combine_scalar(&self, op: ElementOp, rhs: T) -> (m: Matrix<T>)
        requires
            self.wf(),
            op.admits(rhs),
        ensures
            m.wf(),
            m@ == Grid::new(self@.rows, self@.cols, |r: int, c: int| op.result(self@.at(r, c), rhs)),
    {
        proof {
            self.lemma_well_formed();
        }
        let mut m: Matrix<T> = Matrix::new(self.rows, self.cols);
        let ghost target = Grid::new(
            self@.rows,
            self@.cols,
            |r: int, c: int| op.result(self@.at(r, c), rhs),
        );
        let mut r: usize = 0;
        while r < self.rows
            invariant
                r <= self.rows,
                self.wf(),
                op.admits(rhs),
                m.wf(),
                m@.wf(),
                m@.rows == self@.rows,
                m@.cols == self@.cols,
                forall|r2: int, c2: int|
                    m@.has(r2, c2) && r2 < r ==> #[trigger] m@.at(r2, c2) == op.result(
                        self@.at(r2, c2),
                        rhs,
                    ),
            decreases self.rows - r,
        {
            let mut c: usize = 0;
            while c < self.cols
                invariant
                    r < self.rows,
                    c <= self.cols,
                    self.wf(),
                    op.admits(rhs),
                    m.wf(),
                    m@.wf(),
                    m@.rows == self@.rows,
                    m@.cols == self@.cols,
                    forall|r2: int, c2: int|
                        m@.has(r2, c2) && (r2 < r || (r2 == r && c2 < c)) ==> #[trigger] m@.at(r2, c2)
                            == op.result(self@.at(r2, c2), rhs),
                decreases self.cols - c,
            {
                let value: T = op.apply(self.get(r, c), rhs);
                proof {
                    lemma_grid_set(m@, r as int, c as int, value);
                }
                m.set(r, c, value);
                c = c + 1;
            }
            r = r + 1;
        }
        proof {
            lemma_grid_equal(m@, target);
        }
        m
    }

    /// Adds two matrices of one size, cell by cell.
    pub fn add(&self, rhs: &Matrix<T>) -> (result: Result<Matrix<T>, MatrixError>)
        requires
            self.wf(),
            rhs.wf(),
        ensures
            match result {
                Ok(m) => self@.rows == rhs@.rows && self@.cols == rhs@.cols && m.wf() && m@
                    == self@.plus(rhs@),
                Err(e) => e == MatrixError::DimensionMismatch && !(self@.rows == rhs@.rows
                    && self@.cols == rhs@.cols),
            },
    {
        if self.rows != rhs.rows || self.cols != rhs.cols {
            return Err(MatrixError::DimensionMismatch);
        }
        let m = self.combine(ElementOp::Plus, rhs);
        proof {
            lemma_grid_equal(m@, self@.plus(rhs@));
        }
        Ok(m)
    }

    /// Subtracts `rhs` from this matrix of the same size, cell by cell.
    pub fn sub(&self, rhs: &Matrix<T>) -> (result: Result<Matrix<T>, MatrixError>)
        requires
            self.wf(),
            rhs.wf(),
        ensures
            match result {
                Ok(m) => self@.rows == rhs@.rows && self@.cols == rhs@.cols && m.wf() && m@
                    == self@.minus(rhs@),
                Err(e) => e == MatrixError::DimensionMismatch && !(self@.rows == rhs@.rows
                    && self@.cols == rhs@.cols),
            },
    {
        if self.rows != rhs.rows || self.cols != rhs.cols {
            return Err(MatrixError::DimensionMismatch);
        }
        let m = self.combine(ElementOp::Minus, rhs);
        proof {
            lemma_grid_equal(m@, self@.minus(rhs@));
        }
        Ok(m)
    }

    /// Multiplies two matrices of one size, cell by cell.
    pub fn mul_elt(&self, rhs: &Matrix<T>) -> (result: Result<Matrix<T>, MatrixError>)
        requires
            self.wf(),
            rhs.wf(),
        ensures
            match result {
                Ok(m) => self@.rows == rhs@.rows && self@.cols == rhs@.cols && m.wf() && m@
                    == self@.times_elt(rhs@),
                Err(e) => e == MatrixError::DimensionMismatch && !(self@.rows == rhs@.rows
                    && self@.cols == rhs@.cols),
            },
    {
        if self.rows != rhs.rows || self.cols != rhs.cols {
            return Err(MatrixError::DimensionMismatch);
        }
        let m = self.combine(ElementOp::Times, rhs);
        proof {
            lemma_grid_equal(m@, self@.times_elt(rhs@));
        }
        Ok(m)
    }

    /// Divides this matrix by `rhs` of the same size, cell by cell.
    pub fn div_elt(&self, rhs: &Matrix<T>) -> (result: Result<Matrix<T>, MatrixError>)
        requires
            self.wf(),
            rhs.wf(),
            self@.rows == rhs@.rows && self@.cols == rhs@.cols ==> rhs@.all_divisors(),
        ensures
            match result {
                Ok(m) => self@.rows == rhs@.rows && self@.cols == rhs@.cols && m.wf() && m@
                    == self@.over_elt(rhs@),
                Err(e) => e == MatrixError::DimensionMismatch && !(self@.rows == rhs@.rows
                    && self@.cols == rhs@.cols),
            },
    {
        if self.rows != rhs.rows || self.cols != rhs.cols {
            return Err(MatrixError::DimensionMismatch);
        }
        let m = self.combine(ElementOp::Over, rhs);
        proof {
            lemma_grid_equal(m@, self@.over_elt(rhs@));
        }
        Ok(m)
    }

    /// Adds `rhs` to every cell.
    pub fn add_scalar(&self, rhs: T) -> (m: Matrix<T>)
        requires
            self.wf(),
        ensures
            m.wf(),
            m@ == self@.plus_scalar(rhs),
    {
        let m = self.combine_scalar(ElementOp::Plus, rhs);
        proof {
            lemma_grid_equal(m@, self@.plus_scalar(rhs));
        }
        m
    }

    /// Multiplies every cell by `rhs`.
    pub fn mul_scalar(&self, rhs: T) -> (m: Matrix<T>)
        requires
            self.wf(),
        ensures
            m.wf(),
            m@ == self@.times_scalar(rhs),
    {
        let m = self.combine_scalar(ElementOp::Times, rhs);
        proof {
            lemma_grid_equal(m@, self@.times_scalar(rhs));
        }
        m
    }

    /// Divides every cell by `rhs`.
    pub fn div_scalar(&self, rhs: T) -> (m: Matrix<T>)
        requires
            self.wf(),
            rhs.divisor_spec(),
        ensures
            m.wf(),
            m@ == self@.over_scalar(rhs),
    {
        let m = self.combine_scalar(ElementOp::Over, rhs);
        proof {
            lemma_grid_equal(m@, self@.over_scalar(rhs));
        }
        m
    }
}

} // verus!
