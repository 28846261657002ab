//! Questions about where the zeros and ones of a matrix are.

use vstd::prelude::*;
use crate::number::Number;
use crate::grid::{Grid, lemma_grid_equal};
use crate::matrix::Matrix;

verus! {

/// A part of a matrix that holds its diagonal.
#[derive(Clone, Copy)]
pub(crate) enum Part {
    /// The diagonal alone.
    Diagonal,
    /// The diagonal and what is below it.
    Lower,
    /// The diagonal and what is above it.
    Upper,
}

impl Part {
    /// Whether cell `(r, c)` belongs to the part.
    pub(crate) open spec fn holds(self, r: int, c: int) -> bool {
        match self {
            Part::Diagonal => r == c,
            Part::Lower => r >= c,
            Part::Upper => r <= c,
        }
    }

    /// Returns whether cell `(r, c)` belongs to the part.
    pub(crate) fn has(self, r: usize, c: usize) -> (b: bool)
        ensures
            b == self.holds(r as int, c as int),
    {
        match self {
            Part::Diagonal => r == c,
            Part::Lower => r >= c,
            Part::Upper => r <= c,
        }
    }
}

impl<T: Number> Grid<T> {
    /// Every cell is zero or one.
    pub open spec fn is_logical(self) -> bool {
        forall|r: int, c: int|
            self.has(r, c) ==> #[trigger] self.at(r, c) == T::zero_spec() || self.at(r, c)
                == T::one_spec()
    }
}

impl<T: Number> Matrix<T> {
    /// What cell `(r, c)` of this matrix would have to hold for the matrix to
    /// be the identity.
    pub(crate) open spec fn identity_cell(r: int, c: int) -> T {
        if r == c {
            T::one_spec()
        } else {
            T::zero_spec()
        }
    }

    /// Returns whether the matrix is an identity matrix: one on the diagonal,
    /// zero elsewhere.
    pub fn is_identity(&self) -> (b: bool)
        requires
            self.wf(),
        ensures
            b == (self@ == Grid::<T>::identity(self@.rows, self@.cols)),
    {
        let ghost target = Grid::<T>::identity(self@.rows, self@.cols);
        proof {
            self.lemma_well_formed();
        }
        let mut c: usize = 0;
        while c < self.cols
            invariant
                c <= self.cols,
                self.wf(),
                self@.wf(),
                forall|r2: int, c2: int|
                    self@.has(r2, c2) && c2 < c ==> #[trigger] self@.at(r2, c2) == Self::identity_cell(r2, c2),
            decreases self.cols - c,
        {
            let mut r: usize = 0;
            while r < self.rows
                invariant
                    c < self.cols,
                    r <= self.rows,
                    self.wf(),
                    self@.wf(),
                    forall|r2: int, c2: int|
                        self@.has(r2, c2) && (c2 < c || (c2 == c && r2 < r)) ==> #[trigger] self@.at(
                            r2,
                            c2,
                        ) == Self::identity_cell(r2, c2),
                decreases self.rows - r,
            {
                let v: T = self.get(r, c);
                let expected: T = if r == c {
                    T::one()
                } else {
                    T::zero()
                };
                if !v.same(expected) {
                    assert(self@.has(r as int, c as int));
                    assert(Grid::<T>::identity(self@.rows, self@.cols).at(r as int, c as int)
                        == Self::identity_cell(r as int, c as int));
                    return false;
                }
                r = r + 1;
            }
            c = c + 1;
        }
        proof {
            lemma_grid_equal(self@, target);
        }
        true
    }

    /// Returns whether every cell outside a part of the matrix is zero.
    fn zero_outside(&self, part: Part) -> (b: bool)
        requires
            self.wf(),
        ensures
            b == (forall|r: int, c: int|
                self@.has(r, c) && !part.holds(r, c) ==> #[trigger] self@.at(r, c)
                    == T::zero_spec()),
    {
        let mut c: usize = 0;
        while c < self.cols
            invariant
                c <= self.cols,
                self.wf(),
                forall|r2: int, c2: int|
                    self@.has(r2, c2) && c2 < c && !part.holds(r2, c2) ==> #[trigger] self@.at(
                        r2,
                        c2,
                    ) == T::zero_spec(),
            decreases self.cols - c,
        {
            let mut r: usize = 0;
            while r < self.rows
                invariant
                    c < self.cols,
                    r <= self.rows,
                    self.wf(),
                    forall|r2: int, c2: int|
                        self@.has(r2, c2) && (c2 < c || (c2 == c && r2 < r)) && !part.holds(r2, c2) ==> #[trigger] self@.at(r2, c2) == T::zero_spec(),
                decreases self.rows - r,
            {
                if !part.has(r, c) {
                    let v: T = self.get(r, c);
                    if !v.same(T::zero()) {
                        assert(self@.has(r as int, c as int));
                        return false;
                    }
                }
                r = r + 1;
            }
            c = c + 1;
        }
        true
    }

    /// Returns whether the matrix is diagonal: zero in every cell off the
    /// diagonal.
    pub fn is_diagonal(&self) -> (b: bool)
        requires
            self.wf(),
        ensures
            b == (self@ == self@.diagonal_matrix()),
    {
        let b = self.zero_outside(Part::Diagonal);
        proof {
            self.lemma_well_formed();
            if b {
                lemma_grid_equal(self@, self@.diagonal_matrix());
            } else {
                let (r, c) = choose|r: int, c: int|
                    self@.has(r, c) && !Part::Diagonal.holds(r, c) && #[trigger] self@.at(r, c)
                        != T::zero_spec();
                assert(self@.diagonal_matrix().at(r, c) == T::zero_spec());
            }
        }
        b
    }

    /// Returns whether the matrix is lower triangular: zero in every cell above
    /// the diagonal.
    pub fn is_lt(&self) -> (b: bool)
        requires
            self.wf(),
        ensures
            b == (self@ == self@.lower()),
    {
        let b = self.zero_outside(Part::Lower);
        proof {
            self.lemma_well_formed();
            if b {
                lemma_grid_equal(self@, self@.lower());
            } else {
                let (r, c) = choose|r: int, c: int|
                    self@.has(r, c) && !Part::Lower.holds(r, c) && #[trigger] self@.at(r, c)
                        != T::zero_spec();
                assert(self@.lower().at(r, c) == T::zero_spec());
            }
        }
        b
    }

    /// Returns whether the matrix is upper triangular: zero in every cell below
    /// the diagonal.
    pub fn is_ut(&self) -> (b: bool)
        requires
            self.wf(),
        ensures
            b == (self@ == self@.upper()),
    {
        let b = self.zero_outside(Part::Upper);
        proof {
            self.lemma_well_formed();
            if b {
                lemma_grid_equal(self@, self@.upper());
            } else {
                let (r, c) = choose|r: int, c: int|
                    self@.has(r, c) && !Part::Upper.holds(r, c) && #[trigger] self@.at(r, c)
                        != T::zero_spec();
                assert(self@.upper().at(r, c) == T::zero_spec());
            }
        }
        b
    }

    /// Returns whether the matrix is upper or lower triangular.
    pub fn is_triangular(&self) -> (b: bool)
        requires
            self.wf(),
        ensures
            b == (self@ == self@.upper() || self@ == self@.lower()),
    {
        self.is_ut() || self.is_lt()
    }

    /// Returns whether every cell is zero or one.
    pub fn is_logical(&self) -> (b: bool)
        requires
            self.wf(),
        ensures
            b == self@.is_logical(),
    {
        let mut c: usize = 0;
        while c < self.cols
            invariant
                c <= self.cols,
                self.wf(),
                forall|r2: int, c2: int|
                    self@.has(r2, c2) && c2 < c ==> #[trigger] self@.at(r2, c2) == T::zero_spec()
                        || self@.at(r2, c2) == T::one_spec(),
            decreases self.cols - c,
        {
            let mut r: usize = 0;
            while r < self.rows
                invariant
                    c < self.cols,
                    r <= self.rows,
                    self.wf(),
                    forall|r2: int, c2: int|
                        self@.has(r2, c2) && (c2 < c || (c2 == c && r2 < r)) ==> #[trigger] self@.at(
                            r2,
                            c2,
                        ) == T::zero_spec() || self@.at(r2, c2) == T::one_spec(),
                decreases self.rows - r,
            {
                let v: T = self.get(r, c);
                if !v.same(T::zero()) && !v.same(T::one()) {
                    assert(self@.has(r as int, c as int));
                    return false;
                }
                r = r + 1;
            }
            c = c + 1;
        }
        true
    }
}

} // verus!
