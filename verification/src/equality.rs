//! Equality of matrices: the same size and the same cells.

use vstd::prelude::*;
use vstd::std_specs::cmp::PartialEqSpecImpl;
use crate::number::Number;
use crate::grid::lemma_grid_equal;
use crate::matrix::Matrix;

verus! {

impl<T: Number> Matrix<T> {
    /// Returns whether the logical size lies within the allocated size and the
    /// buffer holds exactly the allocated cells.
    fn is_laid_out(&self) -> (b: bool)
        ensures
            b == self.laid_out(),
    {
        if self.rows > self.xrows || self.cols > self.xcols {
            return false;
        }
        assert(self.buffer@.len() == self.buffer.len());
        match self.xrows.checked_mul(self.xcols) {
            Some(capacity) => capacity == self.buffer.len(),
            None => false,
        }
    }
}

impl<T: Number> PartialEq for Matrix<T> {
    /// Compares two matrices cell by cell. Matrices of different sizes are
    /// not equal.
    fn eq(&self, other: &Matrix<T>) -> (b: bool) {
        if !self.is_laid_out() || !other.is_laid_out() {
            return false;
        }
        if self.rows != other.rows || self.cols != other.cols {
            return false;
        }
        proof {
            self.lemma_view_slots();
            other.lemma_view_slots();
        }
        let mut c: usize = 0;
        while c < self.cols
            invariant
                c <= self.cols,
                self.laid_out(),
                other.laid_out(),
                self.rows == other.rows,
                self.cols == other.cols,
                forall|r2: int, c2: int|
                    self@.has(r2, c2) && c2 < c ==> #[trigger] self@.at(r2, c2) == other@.at(r2, c2),
            decreases self.cols - c,
        {
            let mut r: usize = 0;
            while r < self.rows
                invariant
                    c < self.cols,
                    r <= self.rows,
                    self.laid_out(),
                    other.laid_out(),
                    self.rows == other.rows,
                    self.cols == other.cols,
                    forall|r2: int, c2: int|
                        self@.has(r2, c2) && (c2 < c || (c2 == c && r2 < r)) ==> #[trigger] self@.at(
                            r2,
                            c2,
                        ) == other@.at(r2, c2),
                decreases self.rows - r,
            {
                let a: T = self.peek(r, c);
                let b: T = other.peek(r, c);
                if !a.same(b) {
                    proof {
                        self.lemma_view_slots();
                        other.lemma_view_slots();
                        assert(self@.has(r as int, c as int));
                        assert(other@.has(r as int, c as int));
                        assert(self@.at(r as int, c as int) == a);
                        assert(other@.at(r as int, c as int) == b);
                    }
                    return false;
                }
                r = r + 1;
            }
            c = c + 1;
        }
        proof {
            lemma_grid_equal(self@, other@);
        }
        true
    }
}

impl<T: Number> PartialEqSpecImpl for Matrix<T> {
    open spec fn obeys_eq_spec() -> bool {
        true
    }

    open(crate) spec fn eq_spec(&self, other: &Matrix<T>) -> bool {
        self.laid_out() && other.laid_out() && self@ == other@
    }
}

} // verus!
