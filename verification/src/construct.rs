//! Ways to construct a matrix.

use vstd::prelude::*;
use crate::number::Number;
use crate::grid::{Grid, lemma_grid_equal, lemma_grid_set};
use crate::matrix::{Matrix, representable};
use crate::addressing::lemma_index_in_range;
use vstd::std_specs::iter::IteratorSpec;

verus! {

impl<T: Number> Matrix<T> {
    /// Constructs a matrix of one cell.
    pub fn from_scalar(scalar: T) -> (m: Matrix<T>)
        ensures
            m.wf(),
            m@ == Grid::constant(1, 1, scalar),
    {
        proof {
            crate::matrix::lemma_representable_small(1, 1);
        }
        Matrix::uniform(1, 1, scalar)
    }

    /// Constructs a matrix of all zeros.
    pub fn zeros(rows: usize, cols: usize) -> (m: Matrix<T>)
        requires
            representable(rows as nat, cols as nat),
        ensures
            m.wf(),
            m@ == Grid::constant(rows as nat, cols as nat, T::zero_spec()),
    {
        Matrix::new(rows, cols)
    }

    /// Constructs a matrix of all ones.
    pub fn ones(rows: usize, cols: usize) -> (m: Matrix<T>)
        requires
            representable(rows as nat, cols as nat),
        ensures
            m.wf(),
            m@ == Grid::constant(rows as nat, cols as nat, T::one_spec()),
    {
        Matrix::uniform(rows, cols, T::one())
    }

    /// Constructs an identity matrix: one on the diagonal, zero elsewhere.
    pub fn identity(rows: usize, cols: usize) -> (m: Matrix<T>)
        requires
            representable(rows as nat, cols as nat),
        ensures
            m.wf(),
            m@ == Grid::<T>::identity(rows as nat, cols as nat),
    {
        let mut m: Matrix<T> = Matrix::zeros(rows, cols);
        let n: usize = if rows < cols {
            rows
        } else {
            cols
        };
        let mut i: usize = 0;
        while i < n
            invariant
                i <= n,
                n <= rows,
                n <= cols,
                m.wf(),
                m@.wf(),
                m@.rows == rows,
                m@.cols == cols,
                forall|r: int, c: int|
                    m@.has(r, c) ==> #[trigger] m@.at(r, c) == if r == c && r < i {
                        T::one_spec()
                    } else {
                        T::zero_spec()
                    },
            decreases n - i,
        {
            proof {
                lemma_grid_set(m@, i as int, i as int, T::one_spec());
            }
            m.set(i, i, T::one());
            i = i + 1;
        }
        proof {
            lemma_grid_equal(m@, Grid::<T>::identity(rows as nat, cols as nat));
        }
        m
    }

    /// Constructs a column with one in row `dim` and zero elsewhere.
    pub fn unit_vector(length: usize, dim: usize) -> (m: Matrix<T>)
        requires
            representable(length as nat, 1),
            dim < length,
        ensures
            m.wf(),
            m@ == Grid::<T>::unit_vector(length as nat, dim as int),
    {
        let mut m: Matrix<T> = Matrix::zeros(length, 1);
        proof {
            m.lemma_well_formed();
            lemma_grid_set(m@, dim as int, 0, T::one_spec());
        }
        m.set(dim, 0, T::one());
        proof {
            lemma_grid_equal(m@, Grid::<T>::unit_vector(length as nat, dim as int));
        }
        m
    }

    /// Constructs a matrix from a slice of values, reading them column after
    /// column. Cells for which the slice has no value are zero; values beyond
    /// the last cell are not read.
    pub fn from_slice_cw(rows: usize, cols: usize, values: &[T]) -> (m: Matrix<T>)
        requires
            representable(rows as nat, cols as nat),
        ensures
            m.wf(),
            m@ == Grid::column_wise(rows as nat, cols as nat, values@),
    {
        let mut m: Matrix<T> = Matrix::new(rows, cols);
        let n_values: usize = values.len();
        let mut n: usize = 0;
        let mut c: usize = 0;
        proof {
            m.lemma_well_formed();
        }
        while c < cols
            invariant
                c <= cols,
                n == c * rows,
                n_values == values@.len(),
                m.wf(),
                m@.wf(),
                m@.rows == rows,
                m@.cols == cols,
                forall|r2: int, c2: int|
                    m@.has(r2, c2) && c2 < c ==> #[trigger] m@.at(r2, c2) == Grid::column_wise(
                        rows as nat,
                        cols as nat,
                        values@,
                    ).at(r2, c2),
            decreases cols - c,
        {
            let mut r: usize = 0;
            while r < rows
                invariant
                    c < cols,
                    r <= rows,
                    n == c * rows + r,
                    n_values == values@.len(),
                    m.wf(),
                    m@.wf(),
                    m@.rows == rows,
                    m@.cols == cols,
                    forall|r2: int, c2: int|
                        m@.has(r2, c2) && (c2 < c || (c2 == c && r2 < r)) ==> #[trigger] m@.at(
                            r2,
                            c2,
                        ) == Grid::column_wise(rows as nat, cols as nat, values@).at(r2, c2),
                decreases rows - r,
            {
                let v: T = if n < n_values {
                    values[n]
                } else {
                    T::zero()
                };
                proof {
                    lemma_grid_set(m@, r as int, c as int, v);
                    lemma_index_in_range(rows as int, cols as int, r as int, c as int);
                    m.lemma_cells();
                }
                m.set(r, c, v);
                n = n + 1;
                r = r + 1;
            }
            c = c + 1;
            assert(c * rows == (c - 1) * rows + rows) by (nonlinear_arith);
        }
        proof {
            lemma_grid_equal(m@, Grid::column_wise(rows as nat, cols as nat, values@));
        }
        m
    }

    /// Constructs a matrix from a slice of values, reading them row after row.
    /// Cells for which the slice has no value are zero; values beyond the last
    /// cell are not read.
    pub fn from_slice_rw(rows: usize, cols: usize, values: &[T]) -> (m: Matrix<T>)
        requires
            representable(rows as nat, cols as nat),
        ensures
            m.wf(),
            m@ == Grid::row_wise(rows as nat, cols as nat, values@),
    {
        let mut m: Matrix<T> = Matrix::new(rows, cols);
        let n_values: usize = values.len();
        let mut n: usize = 0;
        let mut r: usize = 0;
        proof {
            m.lemma_well_formed();
        }
        while r < rows
            invariant
                r <= rows,
                n == r * cols,
                n_values == values@.len(),
                m.wf(),
                m@.wf(),
                m@.rows == rows,
                m@.cols == cols,
                forall|r2: int, c2: int|
                    m@.has(r2, c2) && r2 < r ==> #[trigger] m@.at(r2, c2) == Grid::row_wise(
                        rows as nat,
                        cols as nat,
                        values@,
                    ).at(r2, c2),
            decreases rows - r,
        {
            let mut c: usize = 0;
            while c < cols
                invariant
                    r < rows,
                    c <= cols,
                    n == r * cols + c,
                    n_values == values@.len(),
                    m.wf(),
                    m@.wf(),
                    m@.rows == rows,
                    m@.cols == cols,
                    forall|r2: int, c2: int|
                        m@.has(r2, c2) && (r2 < r || (r2 == r && c2 < c)) ==> #[trigger] m@.at(
                            r2,
                            c2,
                        ) == Grid::row_wise(rows as nat, cols as nat, values@).at(r2, c2),
                decreases cols - c,
            {
                let v: T = if n < n_values {
                    values[n]
                } else {
                    T::zero()
                };
                proof {
                    lemma_grid_set(m@, r as int, c as int, v);
                    lemma_index_in_range(cols as int, rows as int, c as int, r as int);
                    m.lemma_cells();
                    assert(cols * rows == rows * cols) by (nonlinear_arith);
                }
                m.set(r, c, v);
                n = n + 1;
                c = c + 1;
            }
            r = r + 1;
            assert(r * cols == (r - 1) * cols + cols) by (nonlinear_arith);
        }
        proof {
            lemma_grid_equal(m@, Grid::row_wise(rows as nat, cols as nat, values@));
        }
        m
    }

    /// Constructs a matrix from the values of an iterator, reading them column
    /// after column. Cells for which the iterator has no value are zero.
    pub fn from_iter_cw<A: Iterator<Item = T>>(rows: usize, cols: usize, iter: A) -> (m: Matrix<T>)
        requires
            representable(rows as nat, cols as nat),
        ensures
            m.wf(),
            m@.wf(),
            m@.rows == rows,
            m@.cols == cols,
            iter.obeys_prophetic_iter_laws() ==> m@ == Grid::column_wise(
                rows as nat,
                cols as nat,
                iter.remaining(),
            ),
    {
        let mut iter = iter;
        let ghost values = iter.remaining();
        let ghost lawful = iter.obeys_prophetic_iter_laws();
        let mut m: Matrix<T> = Matrix::new(rows, cols);
        let mut exhausted: bool = false;
        let mut c: usize = 0;
        proof {
            m.lemma_well_formed();
        }
        while c < cols && !exhausted
            invariant
                c <= cols,
                lawful == iter.obeys_prophetic_iter_laws(),
                lawful && !exhausted ==> iter.remaining() == values.skip(c * rows),
                lawful && !exhausted ==> c * rows <= values.len(),
                m.wf(),
                m@.wf(),
                m@.rows == rows,
                m@.cols == cols,
                lawful ==> forall|r2: int, c2: int|
                    m@.has(r2, c2) && (exhausted || c2 < c) ==> #[trigger] m@.at(r2, c2)
                        == Grid::column_wise(rows as nat, cols as nat, values).at(r2, c2),
                forall|r2: int, c2: int|
                    m@.has(r2, c2) && !exhausted && c2 >= c ==> #[trigger] m@.at(r2, c2)
                        == T::zero_spec(),
            decreases cols - c, if exhausted { 0int } else { 1int },
        {
            let mut r: usize = 0;
            while r < rows && !exhausted
                invariant
                    c < cols,
                    r <= rows,
                    lawful == iter.obeys_prophetic_iter_laws(),
                    lawful && !exhausted ==> iter.remaining() == values.skip(c * rows + r),
                    lawful && !exhausted ==> c * rows + r <= values.len(),
                    m.wf(),
                    m@.wf(),
                    m@.rows == rows,
                    m@.cols == cols,
                    lawful ==> forall|r2: int, c2: int|
                        m@.has(r2, c2) && (exhausted || c2 < c || (c2 == c && r2 < r))
                            ==> #[trigger] m@.at(r2, c2) == Grid::column_wise(
                            rows as nat,
                            cols as nat,
                            values,
                        ).at(r2, c2),
                    forall|r2: int, c2: int|
                        m@.has(r2, c2) && !exhausted && (c2 > c || (c2 == c && r2 >= r))
                            ==> #[trigger] m@.at(r2, c2) == T::zero_spec(),
                decreases rows - r, if exhausted { 0int } else { 1int },
            {
                let ghost k = c * rows + r;
                match iter.next() {
                    Some(v) => {
                        proof {
                            lemma_grid_set(m@, r as int, c as int, v);
                            if lawful {
                                assert(values.skip(k).drop_first() =~= values.skip(k + 1));
                            }
                        }
                        m.set(r, c, v);
                        r = r + 1;
                    },
                    None => {
                        exhausted = true;
                        proof {
                            if lawful {
                                assert(values.len() == k);
                                assert forall|r2: int, c2: int| m@.has(r2, c2) implies m@.at(r2, c2)
                                    == Grid::column_wise(rows as nat, cols as nat, values).at(
                                    r2,
                                    c2,
                                ) by {
                                    if c2 > c {
                                        assert(c2 * rows >= (c + 1) * rows) by (nonlinear_arith)
                                            requires
                                                c2 >= c + 1,
                                                rows >= 0,
                                        ;
                                        assert((c + 1) * rows == c * rows + rows) by (nonlinear_arith);
                                    }
                                }
                            }
                        }
                    },
                }
            }
            if !exhausted {
                c = c + 1;
                assert(c * rows == (c - 1) * rows + rows) by (nonlinear_arith);
            }
        }
        proof {
            if lawful {
                lemma_grid_equal(m@, Grid::column_wise(rows as nat, cols as nat, values));
            }
        }
        m
    }

    /// Constructs a matrix from the values of an iterator, reading them row after
    /// row. Cells for which the iterator has no value are zero.
    pub fn from_iter_rw<A: Iterator<Item = T>>(rows: usize, cols: usize, iter: A) -> (m: Matrix<T>)
        requires
            representable(rows as nat, cols as nat),
        ensures
            m.wf(),
            m@.wf(),
            m@.rows == rows,
            m@.cols == cols,
            iter.obeys_prophetic_iter_laws() ==> m@ == Grid::row_wise(
                rows as nat,
                cols as nat,
                iter.remaining(),
            ),
    {
        let mut iter = iter;
        let ghost values = iter.remaining();
        let ghost lawful = iter.obeys_prophetic_iter_laws();
        let mut m: Matrix<T> = Matrix::new(rows, cols);
        let mut exhausted: bool = false;
        let mut r: usize = 0;
        proof {
            m.lemma_well_formed();
        }
        while r < rows && !exhausted
            invariant
                r <= rows,
                lawful == iter.obeys_prophetic_iter_laws(),
                lawful && !exhausted ==> iter.remaining() == values.skip(r * cols),
                lawful && !exhausted ==> r * cols <= values.len(),
                m.wf(),
                m@.wf(),
                m@.cols == cols,
                m@.rows == rows,
                lawful ==> forall|r2: int, c2: int|
                    m@.has(r2, c2) && (exhausted || r2 < r) ==> #[trigger] m@.at(r2, c2)
                        == Grid::row_wise(rows as nat, cols as nat, values).at(r2, c2),
                forall|r2: int, c2: int|
                    m@.has(r2, c2) && !exhausted && r2 >= r ==> #[trigger] m@.at(r2, c2)
                        == T::zero_spec(),
            decreases rows - r, if exhausted { 0int } else { 1int },
        {
            let mut c: usize = 0;
            while c < cols && !exhausted
                invariant
                    r < rows,
                    c <= cols,
                    lawful == iter.obeys_prophetic_iter_laws(),
                    lawful && !exhausted ==> iter.remaining() == values.skip(r * cols + c),
                    lawful && !exhausted ==> r * cols + c <= values.len(),
                    m.wf(),
                    m@.wf(),
                    m@.cols == cols,
                    m@.rows == rows,
                    lawful ==> forall|r2: int, c2: int|
                        m@.has(r2, c2) && (exhausted || r2 < r || (r2 == r && c2 < c))
                            ==> #[trigger] m@.at(r2, c2) == Grid::row_wise(
                            rows as nat,
                            cols as nat,
                            values,
                        ).at(r2, c2),
                    forall|r2: int, c2: int|
                        m@.has(r2, c2) && !exhausted && (r2 > r || (r2 == r && c2 >= c))
                            ==> #[trigger] m@.at(r2, c2) == T::zero_spec(),
                decreases cols - c, if exhausted { 0int } else { 1int },
            {
                let ghost k = r * cols + c;
                match iter.next() {
                    Some(v) => {
                        proof {
                            lemma_grid_set(m@, r as int, c as int, v);
                            if lawful {
                                assert(values.skip(k).drop_first() =~= values.skip(k + 1));
                            }
                        }
                        m.set(r, c, v);
                        c = c + 1;
                    },
                    None => {
                        exhausted = true;
                        proof {
                            if lawful {
                                assert(values.len() == k);
                                assert forall|r2: int, c2: int| m@.has(r2, c2) implies m@.at(r2, c2)
                                    == Grid::row_wise(rows as nat, cols as nat, values).at(
                                    r2,
                                    c2,
                                ) by {
                                    if r2 > r {
                                        assert(r2 * cols >= (r + 1) * cols) by (nonlinear_arith)
                                            requires
                                                r2 >= r + 1,
                                                cols >= 0,
                                        ;
                                        assert((r + 1) * cols == r * cols + cols) by (nonlinear_arith);
                                    }
                                }
                            }
                        }
                    },
                }
            }
            if !exhausted {
                r = r + 1;
                assert(r * cols == (r - 1) * cols + cols) by (nonlinear_arith);
            }
        }
        proof {
            if lawful {
                lemma_grid_equal(m@, Grid::row_wise(rows as nat, cols as nat, values));
            }
        }
        m
    }
}

} // verus!
