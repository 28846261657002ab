//! Products: the matrix product, powers, and the inner and outer product of
//! two columns.

use vstd::prelude::*;
use crate::number::Number;
use crate::error::MatrixError;
use crate::algebra::dot;
use crate::grid::{lemma_grid_equal, lemma_grid_set};
use crate::matrix::{Matrix, representable};

verus! {

impl<T: Number> Clone for Matrix<T> {
    /// Creates a matrix of its own with the same cells.
    fn clone(&self) -> (m: Matrix<T>)
        ensures
            m@ == self@,
            self.wf() ==> m.wf(),
    {
        let mut buffer: Vec<T> = Vec::new();
        let mut i: usize = 0;
        while i < self.buffer.len()
            invariant
                i <= self.buffer@.len(),
                buffer@ == self.buffer@.take(i as int),
            decreases self.buffer@.len() - i,
        {
            buffer.push(self.buffer[i]);
            i = i + 1;
            assert(buffer@ =~= self.buffer@.take(i as int));
        }
        assert(buffer@ =~= self.buffer@);
        Matrix { rows: self.rows, cols: self.cols, xrows: self.xrows, xcols: self.xcols, buffer }
    }
}

impl<T: Number> Matrix<T> {
    /// The matrix product of this matrix and one with as many rows as this
    /// one has columns.
    pub(crate) fn product(&self, rhs: &Matrix<T>) -> (m: Matrix<T>)
        requires
            self.wf(),
            rhs.wf(),
            self@.cols == rhs@.rows,
            representable(self@.rows, rhs@.cols),
        ensures
            m.wf(),
            m@ == self@.product(rhs@),
    {
        proof {
            self.lemma_well_formed();
            rhs.lemma_well_formed();
        }
        let mut m: Matrix<T> = Matrix::new(self.rows, rhs.cols);
        let mut r: usize = 0;
        while r < self.rows
            invariant
                r <= self.rows,
                self.wf(),
                rhs.wf(),
                self@.cols == rhs@.rows,
                m.wf(),
                m@.wf(),
                m@.rows == self@.rows,
                m@.cols == rhs@.cols,
                forall|r2: int, c2: int|
                    m@.has(r2, c2) && r2 < r ==> #[trigger] m@.at(r2, c2) == dot(
                        self@,
                        rhs@,
                        r2,
                        c2,
                        self@.cols,
                    ),
            decreases self.rows - r,
        {
            let mut c: usize = 0;
            while c < rhs.cols
                invariant
                    r < self.rows,
                    c <= rhs.cols,
                    self.wf(),
                    rhs.wf(),
                    self@.cols == rhs@.rows,
                    m.wf(),
                    m@.wf(),
                    m@.rows == self@.rows,
                    m@.cols == rhs@.cols,
                    forall|r2: int, c2: int|
                        m@.has(r2, c2) && (r2 < r || (r2 == r && c2 < c)) ==> #[trigger] m@.at(r2, c2)
                            == dot(self@, rhs@, r2, c2, self@.cols),
                decreases rhs.cols - c,
            {
                let mut sum: T = T::zero();
                let mut j: usize = 0;
                while j < self.cols
                    invariant
                        r < self.rows,
                        c < rhs.cols,
                        j <= self.cols,
                        self.wf(),
                        rhs.wf(),
                        self@.cols == rhs@.rows,
                        sum == dot(self@, rhs@, r as int, c as int, j as nat),
                    decreases self.cols - j,
                {
                    let term: T = self.get(r, j).times(rhs.get(j, c));
                    sum = sum.plus(term);
                    j = j + 1;
                }
                proof {
                    lemma_grid_set(m@, r as int, c as int, sum);
                }
                m.set(r, c, sum);
                c = c + 1;
            }
            r = r + 1;
        }
        proof {
            lemma_grid_equal(m@, self@.product(rhs@));
        }
        m
    }

    /// Multiplies this matrix by one with as many rows as this one has
    /// columns. Each cell of the result is the dot product of a row of this
    /// matrix and a column of `rhs`, added up from zero.
    pub fn mul(&self, rhs: &Matrix<T>) -> (result: Result<Matrix<T>, MatrixError>)
        requires
            self.wf(),
            rhs.wf(),
            self@.cols == rhs@.rows ==> representable(self@.rows, rhs@.cols),
        ensures
            match result {
                Ok(m) => self@.cols == rhs@.rows && m.wf() && m@ == self@.product(rhs@),
                Err(e) => e == MatrixError::DimensionMismatch && self@.cols != rhs@.rows,
            },
    {
        if self.cols != rhs.rows {
            return Err(MatrixError::DimensionMismatch);
        }
        Ok(self.product(rhs))
    }

    /// Computes the power of a square matrix: the identity for the exponent
    /// zero, else the matrix multiplied `exp - 1` times by itself.
    pub fn pow(&self, exp: usize) -> (result: Result<Matrix<T>, MatrixError>)
        requires
            self.wf(),
        ensures
            match result {
                Ok(m) => self@.is_square() && m.wf() && m@ == self@.power(exp as nat),
                Err(e) => e == MatrixError::NotSquare && !self@.is_square(),
            },
    {
        if !self.is_square() {
            return Err(MatrixError::NotSquare);
        }
        proof {
            self.lemma_well_formed();
        }
        if exp == 0 {
            return Ok(Matrix::identity(self.rows, self.cols));
        }
        let mut result: Matrix<T> = self.clone();
        let mut n: usize = 1;
        while n < exp
            invariant
                1 <= n <= exp,
                self.wf(),
                self@.is_square(),
                representable(self@.rows, self@.cols),
                result.wf(),
                result@ == self@.power(n as nat),
                result@.rows == self@.rows,
                result@.cols == self@.cols,
            decreases exp - n,
        {
            result = result.product(self);
            n = n + 1;
        }
        Ok(result)
    }

    /// The inner product of two columns of one length.
    pub fn inner_prod(&self, other: &Matrix<T>) -> (value: T)
        requires
            self.wf(),
            other.wf(),
            self@.cols == 1,
            other@.cols == 1,
            self@.rows == other@.rows,
        ensures
            value == self@.inner(other@, self@.rows),
    {
        let mut value: T = T::zero();
        let mut i: usize = 0;
        while i < self.rows
            invariant
                i <= self.rows,
                self.wf(),
                other.wf(),
                self@.cols == 1,
                other@.cols == 1,
                self@.rows == other@.rows,
                value == self@.inner(other@, i as nat),
            decreases self.rows - i,
        {
            let term: T = self.get(i, 0).times(other.get(i, 0));
            value = value.plus(term);
            i = i + 1;
        }
        value
    }

    /// The outer product of two columns of one length.
    pub fn outer_prod(&self, other: &Matrix<T>) -> (m: Matrix<T>)
        requires
            self.wf(),
            other.wf(),
            self@.cols == 1,
            other@.cols == 1,
            self@.rows == other@.rows,
            representable(self@.rows, self@.rows),
        ensures
            m.wf(),
            m@ == self@.outer(other@),
    {
        let n: usize = self.rows;
        let mut m: Matrix<T> = Matrix::new(n, n);
        proof {
            m.lemma_well_formed();
        }
        let mut r: usize = 0;
        while r < n
            invariant
                r <= n,
                n == self@.rows,
                self.wf(),
                other.wf(),
                self@.cols == 1,
                other@.cols == 1,
                self@.rows == other@.rows,
                m.wf(),
                m@.wf(),
                m@.rows == n,
                m@.cols == n,
                forall|r2: int, c2: int|
                    m@.has(r2, c2) && r2 < r ==> #[trigger] m@.at(r2, c2) == self@.at(r2, 0).times_spec(
                        other@.at(c2, 0),
                    ),
            decreases n - r,
        {
            let mut c: usize = 0;
            while c < n
                invariant
                    r < n,
                    c <= n,
                    n == self@.rows,
                    self.wf(),
                    other.wf(),
                    self@.cols == 1,
                    other@.cols == 1,
                    self@.rows == other@.rows,
                    m.wf(),
                    m@.wf(),
                    m@.rows == n,
                    m@.cols == n,
                    forall|r2: int, c2: int|
                        m@.has(r2, c2) && (r2 < r || (r2 == r && c2 < c)) ==> #[trigger] m@.at(r2, c2)
                            == self@.at(r2, 0).times_spec(other@.at(c2, 0)),
                decreases n - c,
            {
                let value: T = self.get(r, 0).times(other.get(c, 0));
                proof {
                    lemma_grid_set(m@, r as int, c as int, value);
                }
                m.set(r, c, value);
                c = c + 1;
            }
            r = r + 1;
        }
        proof {
            lemma_grid_equal(m@, self@.outer(other@));
        }
        m
    }
}

} // verus!
