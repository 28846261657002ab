//! The least and the greatest cell of a matrix, with the place where it is.

use vstd::prelude::*;
use crate::number::{Ordered, Signed};
use crate::error::MatrixError;
use crate::grid::{Grid, lemma_grid_equal, lemma_grid_set};
use crate::matrix::Matrix;

verus! {

/// Cell `(r2, c2)` comes before cell `(r, c)` in column-major order.
pub open spec fn precedes(r2: int, c2: int, r: int, c: int) -> bool {
    c2 < c || (c2 == c && r2 < r)
}

impl<T: Ordered> Grid<T> {
    /// `(r, c)` is the first cell, in column-major order, that holds the least
    /// value of the grid.
    pub open spec fn first_least(self, r: int, c: int) -> bool {
        &&& self.has(r, c)
        &&& forall|r2: int, c2: int|
            self.has(r2, c2) ==> !(#[trigger] self.at(r2, c2)).less_spec(self.at(r, c))
        &&& forall|r2: int, c2: int|
            self.has(r2, c2) && precedes(r2, c2, r, c) ==> self.at(r, c).less_spec(
                #[trigger] self.at(r2, c2),
            )
    }

    /// `(r, c)` is the first cell, in column-major order, that holds the
    /// greatest value of the grid.
    pub open spec fn first_greatest(self, r: int, c: int) -> bool {
        &&& self.has(r, c)
        &&& forall|r2: int, c2: int|
            self.has(r2, c2) ==> !self.at(r, c).less_spec(#[trigger] self.at(r2, c2))
        &&& forall|r2: int, c2: int|
            self.has(r2, c2) && precedes(r2, c2, r, c) ==> (#[trigger] self.at(r2, c2)).less_spec(
                self.at(r, c),
            )
    }
}

impl<T: Signed> Grid<T> {
    /// The grid of the absolute values.
    pub open spec fn magnitudes(self) -> Grid<T> {
        Grid::new(self.rows, self.cols, |r: int, c: int| self.at(r, c).magnitude_spec())
    }
}

impl<T: Ordered> Matrix<T> {
    /// Returns the least value with the first place, in column-major order,
    /// where it is.
    pub fn min_scalar(&self) -> (result: Result<(T, usize, usize), MatrixError>)
        requires
            self.wf(),
        ensures
            match result {
                Ok((v, r, c)) => self@.first_least(r as int, c as int) && v == self@.at(
                    r as int,
                    c as int,
                ),
                Err(e) => e == MatrixError::EmptyMatrix && self@.is_empty(),
            },
    {
        if self.is_empty() {
            return Err(MatrixError::EmptyMatrix);
        }
        let mut v: T = self.get(0, 0);
        let mut rr: usize = 0;
        let mut cc: usize = 0;
        let mut c: usize = 0;
        while c < self.cols
            invariant
                c <= self.cols,
                self.wf(),
                self@.has(rr as int, cc as int),
                v == self@.at(rr as int, cc as int),
                cc < c || (rr == 0 && cc == 0),
                forall|r2: int, c2: int|
                    self@.has(r2, c2) && c2 < c ==> !(#[trigger] self@.at(r2, c2)).less_spec(v),
                forall|r2: int, c2: int|
                    self@.has(r2, c2) && precedes(r2, c2, rr as int, cc as int) ==> v.less_spec(
                        #[trigger] self@.at(r2, c2),
                    ),
            decreases self.cols - c,
        {
            let mut r: usize = 0;
            while r < self.rows
                invariant
                    c < self.cols,
                    r <= self.rows,
                    self.wf(),
                    self@.has(rr as int, cc as int),
                    v == self@.at(rr as int, cc as int),
                    precedes(rr as int, cc as int, r as int, c as int) || (rr == 0 && cc == 0),
                    forall|r2: int, c2: int|
                        self@.has(r2, c2) && precedes(r2, c2, r as int, c as int) ==> !(
                        #[trigger] self@.at(r2, c2)).less_spec(v),
                    forall|r2: int, c2: int|
                        self@.has(r2, c2) && precedes(r2, c2, rr as int, cc as int) ==> v.less_spec(
                            #[trigger] self@.at(r2, c2),
                        ),
                decreases self.rows - r,
            {
                let s: T = self.get(r, c);
                if s.less(v) {
                    proof {
                        assert forall|r2: int, c2: int|
                            self@.has(r2, c2) && precedes(r2, c2, r as int, c as int) implies s.less_spec(
                            #[trigger] self@.at(r2, c2),
                        ) by {
                            let x = self@.at(r2, c2);
                            T::lemma_less_total(x, v);
                            T::lemma_less_transitive(s, v, x);
                        }
                        assert forall|r2: int, c2: int|
                            self@.has(r2, c2) && precedes(r2, c2, r as int + 1, c as int) implies !(
                        #[trigger] self@.at(r2, c2)).less_spec(s) by {
                            let x = self@.at(r2, c2);
                            T::lemma_less_asymmetric(s, x);
                            T::lemma_less_asymmetric(s, s);
                        }
                    }
                    v = s;
                    rr = r;
                    cc = c;
                }
                r = r + 1;
            }
            c = c + 1;
        }
        Ok((v, rr, cc))
    }

    /// Returns the greatest value with the first place, in column-major order,
    /// where it is.
    pub fn max_scalar(&self) -> (result: Result<(T, usize, usize), MatrixError>)
        requires
            self.wf(),
        ensures
            match result {
                Ok((v, r, c)) => self@.first_greatest(r as int, c as int) && v == self@.at(
                    r as int,
                    c as int,
                ),
                Err(e) => e == MatrixError::EmptyMatrix && self@.is_empty(),
            },
    {
        if self.is_empty() {
            return Err(MatrixError::EmptyMatrix);
        }
        let mut v: T = self.get(0, 0);
        let mut rr: usize = 0;
        let mut cc: usize = 0;
        let mut c: usize = 0;
        while c < self.cols
            invariant
                c <= self.cols,
                self.wf(),
                self@.has(rr as int, cc as int),
                v == self@.at(rr as int, cc as int),
                cc < c || (rr == 0 && cc == 0),
                forall|r2: int, c2: int|
                    self@.has(r2, c2) && c2 < c ==> !v.less_spec(#[trigger] self@.at(r2, c2)),
                forall|r2: int, c2: int|
                    self@.has(r2, c2) && precedes(r2, c2, rr as int, cc as int) ==> (
                    #[trigger] self@.at(r2, c2)).less_spec(v),
            decreases self.cols - c,
        {
            let mut r: usize = 0;
            while r < self.rows
                invariant
                    c < self.cols,
                    r <= self.rows,
                    self.wf(),
                    self@.has(rr as int, cc as int),
                    v == self@.at(rr as int, cc as int),
                    precedes(rr as int, cc as int, r as int, c as int) || (rr == 0 && cc == 0),
                    forall|r2: int, c2: int|
                        self@.has(r2, c2) && precedes(r2, c2, r as int, c as int) ==> !v.less_spec(
                            #[trigger] self@.at(r2, c2),
                        ),
                    forall|r2: int, c2: int|
                        self@.has(r2, c2) && precedes(r2, c2, rr as int, cc as int) ==> (
                        #[trigger] self@.at(r2, c2)).less_spec(v),
                decreases self.rows - r,
            {
                let s: T = self.get(r, c);
                if v.less(s) {
                    proof {
                        assert forall|r2: int, c2: int|
                            self@.has(r2, c2) && precedes(r2, c2, r as int, c as int) implies (
                        #[trigger] self@.at(r2, c2)).less_spec(s) by {
                            let x = self@.at(r2, c2);
                            T::lemma_less_total(x, v);
                            T::lemma_less_transitive(x, v, s);
                        }
                        assert forall|r2: int, c2: int|
                            self@.has(r2, c2) && precedes(r2, c2, r as int + 1, c as int) implies !s.less_spec(
                            #[trigger] self@.at(r2, c2),
                        ) by {
                            let x = self@.at(r2, c2);
                            T::lemma_less_asymmetric(s, x);
                            T::lemma_less_asymmetric(s, s);
                        }
                    }
                    v = s;
                    rr = r;
                    cc = c;
                }
                r = r + 1;
            }
            c = c + 1;
        }
        Ok((v, rr, cc))
    }

    /// Returns the least value.
    pub fn min_scalar_value(&self) -> (result: Result<T, MatrixError>)
        requires
            self.wf(),
        ensures
            match result {
                Ok(v) => exists|r: int, c: int| self@.first_least(r, c) && v == self@.at(r, c),
                Err(e) => e == MatrixError::EmptyMatrix && self@.is_empty(),
            },
    {
        match self.min_scalar() {
            Ok((v, r, c)) => {
                assert(self@.first_least(r as int, c as int) && v == self@.at(r as int, c as int));
                Ok(v)
            },
            Err(e) => Err(e),
        }
    }

    /// Returns the greatest value.
    pub fn max_scalar_value(&self) -> (result: Result<T, MatrixError>)
        requires
            self.wf(),
        ensures
            match result {
                Ok(v) => exists|r: int, c: int| self@.first_greatest(r, c) && v == self@.at(r, c),
                Err(e) => e == MatrixError::EmptyMatrix && self@.is_empty(),
            },
    {
        match self.max_scalar() {
            Ok((v, r, c)) => {
                assert(self@.first_greatest(r as int, c as int) && v == self@.at(r as int, c as int));
                Ok(v)
            },
            Err(e) => Err(e),
        }
    }
}

impl<T: Signed> Matrix<T> {
    /// The matrix of the absolute values.
    fn magnitudes(&self) -> (m: Matrix<T>)
        requires
            self.wf(),
        ensures
            m.wf(),
            m@ == self@.magnitudes(),
    {
        proof {
            self.lemma_well_formed();
        }
        let mut m: Matrix<T> = Matrix::new(self.rows, self.cols);
        let mut c: usize = 0;
        while c < self.cols
            invariant
                c <= self.cols,
                self.wf(),
                m.wf(),
                m@.wf(),
                m@.rows == self@.rows,
                m@.cols == self@.cols,
                forall|r2: int, c2: int|
                    m@.has(r2, c2) && c2 < c ==> #[trigger] m@.at(r2, c2) == self@.at(
                        r2,
                        c2,
                    ).magnitude_spec(),
            decreases self.cols - c,
        {
            let mut r: usize = 0;
            while r < self.rows
                invariant
                    c < self.cols,
                    r <= self.rows,
                    self.wf(),
                    m.wf(),
                    m@.wf(),
                    m@.rows == self@.rows,
                    m@.cols == self@.cols,
                    forall|r2: int, c2: int|
                        m@.has(r2, c2) && precedes(r2, c2, r as int, c as int) ==> #[trigger] m@.at(
                            r2,
                            c2,
                        ) == self@.at(r2, c2).magnitude_spec(),
                decreases self.rows - r,
            {
                let value: T = self.get(r, c).magnitude();
                proof {
                    lemma_grid_set(m@, r as int, c as int, value);
                }
                m.set(r, c, value);
                r = r + 1;
            }
            c = c + 1;
        }
        proof {
            lemma_grid_equal(m@, self@.magnitudes());
        }
        m
    }

    /// Returns the least absolute value with the first place, in column-major
    /// order, where it is.
    pub fn min_abs_scalar(&self) -> (result: Result<(T, usize, usize), MatrixError>)
        requires
            self.wf(),
        ensures
            match result {
                Ok((v, r, c)) => self@.magnitudes().first_least(r as int, c as int) && v
                    == self@.at(r as int, c as int).magnitude_spec(),
                Err(e) => e == MatrixError::EmptyMatrix && self@.is_empty(),
            },
    {
        self.magnitudes().min_scalar()
    }

    /// Returns the greatest absolute value with the first place, in
    /// column-major order, where it is.
    pub fn max_abs_scalar(&self) -> (result: Result<(T, usize, usize), MatrixError>)
        requires
            self.wf(),
        ensures
            match result {
                Ok((v, r, c)) => self@.magnitudes().first_greatest(r as int, c as int) && v
                    == self@.at(r as int, c as int).magnitude_spec(),
                Err(e) => e == MatrixError::EmptyMatrix && self@.is_empty(),
            },
    {
        self.magnitudes().max_scalar()
    }

    /// Returns the least absolute value.
    pub fn min_abs_scalar_value(&self) -> (result: Result<T, MatrixError>)
        requires
            self.wf(),
        ensures
            match result {
                Ok(v) => exists|r: int, c: int|
                    self@.magnitudes().first_least(r, c) && v == self@.at(r, c).magnitude_spec(),
                Err(e) => e == MatrixError::EmptyMatrix && self@.is_empty(),
            },
    {
        match self.min_abs_scalar() {
            Ok((v, r, c)) => {
                assert(self@.magnitudes().first_least(r as int, c as int) && v == self@.at(
                    r as int,
                    c as int,
                ).magnitude_spec());
                Ok(v)
            },
            Err(e) => Err(e),
        }
    }

    /// Returns the greatest absolute value.
    pub fn max_abs_scalar_value(&self) -> (result: Result<T, MatrixError>)
        requires
            self.wf(),
        ensures
            match result {
                Ok(v) => exists|r: int, c: int|
                    self@.magnitudes().first_greatest(r, c) && v == self@.at(r, c).magnitude_spec(),
                Err(e) => e == MatrixError::EmptyMatrix && self@.is_empty(),
            },
    {
        match self.max_abs_scalar() {
            Ok((v, r, c)) => {
                assert(self@.magnitudes().first_greatest(r as int, c as int) && v == self@.at(
                    r as int,
                    c as int,
                ).magnitude_spec());
                Ok(v)
            },
            Err(e) => Err(e),
        }
    }
}

} // verus!
