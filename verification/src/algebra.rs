//! The arithmetic of grids: what the arithmetic of matrices computes.

use vstd::prelude::*;
use crate::number::Number;
use crate::grid::Grid;

verus! {

/// The sum of the first `n` products `a(r, j) * b(j, c)`, added up from zero
/// in the order of `j`.
pub open spec fn dot<T: Number>(a: Grid<T>, b: Grid<T>, r: int, c: int, n: nat) -> T
    decreases n,
{
    if n == 0 {
        T::zero_spec()
    } else {
        dot(a, b, r, c, (n - 1) as nat).plus_spec(a.at(r, n - 1).times_spec(b.at(n - 1, c)))
    }
}

impl<T: Number> Grid<T> {
    /// Cell by cell, the sum of two grids of one size.
    pub open spec fn plus(self, rhs: Grid<T>) -> Grid<T> {
        Grid::new(self.rows, self.cols, |r: int, c: int| self.at(r, c).plus_spec(rhs.at(r, c)))
    }

    /// Cell by cell, the difference of two grids of one size.
    pub open spec fn minus(self, rhs: Grid<T>) -> Grid<T> {
        Grid::new(self.rows, self.cols, |r: int, c: int| self.at(r, c).minus_spec(rhs.at(r, c)))
    }

    /// Cell by cell, the product of two grids of one size.
    pub open spec fn times_elt(self, rhs: Grid<T>) -> Grid<T> {
        Grid::new(self.rows, self.cols, |r: int, c: int| self.at(r, c).times_spec(rhs.at(r, c)))
    }

    /// Cell by cell, the quotient of two grids of one size.
    pub open spec fn over_elt(self, rhs: Grid<T>) -> Grid<T> {
        Grid::new(self.rows, self.cols, |r: int, c: int| self.at(r, c).over_spec(rhs.at(r, c)))
    }

    /// Every cell may stand under the division bar.
    pub open spec fn all_divisors(self) -> bool {
        forall|r: int, c: int| self.has(r, c) ==> (#[trigger] self.at(r, c)).divisor_spec()
    }

    /// The grid with `v` added to every cell.
    pub open spec fn plus_scalar(self, v: T) -> Grid<T> {
        Grid::new(self.rows, self.cols, |r: int, c: int| self.at(r, c).plus_spec(v))
    }

    /// The grid with every cell multiplied by `v`.
    pub open spec fn times_scalar(self, v: T) -> Grid<T> {
        Grid::new(self.rows, self.cols, |r: int, c: int| self.at(r, c).times_spec(v))
    }

    /// The grid with every cell divided by `v`.
    pub open spec fn over_scalar(self, v: T) -> Grid<T> {
        Grid::new(self.rows, self.cols, |r: int, c: int| self.at(r, c).over_spec(v))
    }

    /// The grid with every cell negated.
    pub open spec fn negated(self) -> Grid<T> {
        Grid::new(self.rows, self.cols, |r: int, c: int| self.at(r, c).negated_spec())
    }

    /// The matrix product: cell `(r, c)` is the dot product of row `r` of this
    /// grid and column `c` of `rhs`.
    pub open spec fn product(self, rhs: Grid<T>) -> Grid<T> {
        Grid::new(self.rows, rhs.cols, |r: int, c: int| dot(self, rhs, r, c, self.cols))
    }

    /// The `n`-th power of a square grid: the identity for `n` zero, else the
    /// grid multiplied `n - 1` times by itself from the right.
    pub open spec fn power(self, n: nat) -> Grid<T>
        decreases n,
    {
        if n == 0 {
            Grid::<T>::identity(self.rows, self.cols)
        } else if n == 1 {
            self
        } else {
            self.power((n - 1) as nat).product(self)
        }
    }

    /// The sum of the products of the cells of two columns of one length, added
    /// up from zero in the order of the rows: the first `n` rows of it.
    pub open spec fn inner(self, rhs: Grid<T>, n: nat) -> T
        decreases n,
    {
        if n == 0 {
            T::zero_spec()
        } else {
            self.inner(rhs, (n - 1) as nat).plus_spec(self.at(n - 1, 0).times_spec(rhs.at(n - 1, 0)))
        }
    }

    /// The outer product of two columns of one length: cell `(r, c)` is row `r`
    /// of this column times row `c` of `rhs`.
    pub open spec fn outer(self, rhs: Grid<T>) -> Grid<T> {
        Grid::new(self.rows, self.rows, |r: int, c: int| self.at(r, 0).times_spec(rhs.at(c, 0)))
    }
}

} // verus!
