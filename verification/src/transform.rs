//! New matrices made from the cells of a matrix.

use vstd::prelude::*;
use vstd::arithmetic::div_mod::lemma_fundamental_div_mod_converse;
use crate::number::Number;
use crate::error::MatrixError;
use crate::grid::{Grid, lemma_grid_equal, lemma_grid_set};
use crate::matrix::{Matrix, representable, lemma_representable_smaller};

verus! {

impl<T: Number> Matrix<T> {
    /// Computes the transpose: cell `(c, r)` of the result is cell `(r, c)` of
    /// this matrix.
    pub fn transpose(&self) -> (m: Matrix<T>)
        requires
            self.wf(),
        ensures
            m.wf(),
            m@ == self@.transpose(),
    {
        proof {
            self.lemma_well_formed();
            assert(crate::capacity::next_power_of_two(self@.cols) * crate::capacity::next_power_of_two(
                self@.rows,
            ) == crate::capacity::next_power_of_two(self@.rows) * crate::capacity::next_power_of_two(
                self@.cols,
            )) by (nonlinear_arith);
        }
        let mut m: Matrix<T> = Matrix::new(self.cols, self.rows);
        let mut r: usize = 0;
        while r < self.rows
            invariant
                r <= self.rows,
                self.wf(),
                m.wf(),
                m@.wf(),
                m@.rows == self@.cols,
                m@.cols == self@.rows,
                forall|r2: int, c2: int|
                    m@.has(r2, c2) && c2 < r ==> #[trigger] m@.at(r2, c2) == self@.at(c2, r2),
            decreases self.rows - r,
        {
            let mut c: usize = 0;
            while c < self.cols
                invariant
                    r < self.rows,
                    c <= self.cols,
                    self.wf(),
                    m.wf(),
                    m@.wf(),
                    m@.rows == self@.cols,
                    m@.cols == self@.rows,
                    forall|r2: int, c2: int|
                        m@.has(r2, c2) && (c2 < r || (c2 == r && r2 < c)) ==> #[trigger] m@.at(r2, c2)
                            == self@.at(c2, r2),
                decreases self.cols - c,
            {
                let value: T = self.get(r, c);
                proof {
                    lemma_grid_set(m@, c as int, r as int, value);
                }
                m.set(c, r, value);
                c = c + 1;
            }
            r = r + 1;
        }
        proof {
            lemma_grid_equal(m@, self@.transpose());
        }
        m
    }

    /// Computes the matrix with every cell negated.
    pub fn unary_minus(&self) -> (m: Matrix<T>)
        requires
            self.wf(),
        ensures
            m.wf(),
            m@ == self@.negated(),
    {
        proof {
            self.lemma_well_formed();
        }
        let mut m: Matrix<T> = Matrix::new(self.rows, self.cols);
        let mut r: usize = 0;
        while r < self.rows
            invariant
                r <= self.rows,
                self.wf(),
                m.wf(),
                m@.wf(),
                m@.rows == self@.rows,
                m@.cols == self@.cols,
                forall|r2: int, c2: int|
                    m@.has(r2, c2) && r2 < r ==> #[trigger] m@.at(r2, c2) == self@.at(
                        r2,
                        c2,
                    ).negated_spec(),
            decreases self.rows - r,
        {
            let mut c: usize = 0;
            while c < self.cols
                invariant
                    r < self.rows,
                    c <= self.cols,
                    self.wf(),
                    m.wf(),
                    m@.wf(),
                    m@.rows == self@.rows,
                    m@.cols == self@.cols,
                    forall|r2: int, c2: int|
                        m@.has(r2, c2) && (r2 < r || (r2 == r && c2 < c)) ==> #[trigger] m@.at(r2, c2)
                            == self@.at(r2, c2).negated_spec(),
                decreases self.cols - c,
            {
                let value: T = self.get(r, c).negated();
                proof {
                    lemma_grid_set(m@, r as int, c as int, value);
                }
                m.set(r, c, value);
                c = c + 1;
            }
            r = r + 1;
        }
        proof {
            lemma_grid_equal(m@, self@.negated());
        }
        m
    }

    /// Extracts the diagonal as a column.
    pub fn diagonal_vector(&self) -> (m: Matrix<T>)
        requires
            self.wf(),
        ensures
            m.wf(),
            m@ == self@.diagonal_vector(),
    {
        let n: usize = if self.rows <= self.cols {
            self.rows
        } else {
            self.cols
        };
        proof {
            self.lemma_well_formed();
            if self.cols == 0 {
                crate::matrix::lemma_representable_small(0, 1);
            } else {
                lemma_representable_smaller(n as nat, 1, self@.rows, self@.cols);
            }
        }
        let mut m: Matrix<T> = Matrix::new(n, 1);
        let mut i: usize = 0;
        while i < n
            invariant
                i <= n,
                n <= self.rows,
                n <= self.cols,
                self.wf(),
                m.wf(),
                m@.wf(),
                m@.rows == n,
                m@.cols == 1,
                forall|r2: int, c2: int|
                    m@.has(r2, c2) && r2 < i ==> #[trigger] m@.at(r2, c2) == self@.at(r2, r2),
            decreases n - i,
        {
            let value: T = self.get(i, i);
            proof {
                lemma_grid_set(m@, i as int, 0, value);
            }
            m.set(i, 0, value);
            i = i + 1;
        }
        proof {
            lemma_grid_equal(m@, self@.diagonal_vector());
        }
        m
    }

    /// Extracts the diagonal as a matrix of the same size, with zero off the
    /// diagonal.
    pub fn diagonal_matrix(&self) -> (m: Matrix<T>)
        requires
            self.wf(),
        ensures
            m.wf(),
            m@ == self@.diagonal_matrix(),
    {
        let n: usize = if self.rows <= self.cols {
            self.rows
        } else {
            self.cols
        };
        proof {
            self.lemma_well_formed();
        }
        let mut m: Matrix<T> = Matrix::zeros(self.rows, self.cols);
        let mut i: usize = 0;
        while i < n
            invariant
                i <= n,
                n <= self.rows,
                n <= self.cols,
                self.wf(),
                m.wf(),
                m@.wf(),
                m@.rows == self@.rows,
                m@.cols == self@.cols,
                forall|r2: int, c2: int|
                    m@.has(r2, c2) ==> #[trigger] m@.at(r2, c2) == if r2 == c2 && r2 < i {
                        self@.at(r2, c2)
                    } else {
                        T::zero_spec()
                    },
            decreases n - i,
        {
            let value: T = self.get(i, i);
            proof {
                lemma_grid_set(m@, i as int, i as int, value);
            }
            m.set(i, i, value);
            i = i + 1;
        }
        proof {
            lemma_grid_equal(m@, self@.diagonal_matrix());
        }
        m
    }

    /// Returns the upper triangular part: the cells on and above the diagonal,
    /// and zero below it.
    pub fn ut(&self) -> (m: Matrix<T>)
        requires
            self.wf(),
        ensures
            m.wf(),
            m@ == self@.upper(),
    {
        proof {
            self.lemma_well_formed();
        }
        let mut m: Matrix<T> = Matrix::new(self.rows, self.cols);
        let mut c: usize = 0;
        while c < self.cols
            invariant
                c <= self.cols,
                self.wf(),
                m.wf(),
                m@.wf(),
                m@.rows == self@.rows,
                m@.cols == self@.cols,
                forall|r2: int, c2: int|
                    m@.has(r2, c2) && c2 < c ==> #[trigger] m@.at(r2, c2) == self@.upper().at(r2, c2),
            decreases self.cols - c,
        {
            let mut r: usize = 0;
            while r < self.rows
                invariant
                    c < self.cols,
                    r <= self.rows,
                    self.wf(),
                    m.wf(),
                    m@.wf(),
                    m@.rows == self@.rows,
                    m@.cols == self@.cols,
                    forall|r2: int, c2: int|
                        m@.has(r2, c2) && (c2 < c || (c2 == c && r2 < r)) ==> #[trigger] m@.at(r2, c2)
                            == self@.upper().at(r2, c2),
                decreases self.rows - r,
            {
                let value: T = if r <= c {
                    self.get(r, c)
                } else {
                    T::zero()
                };
                proof {
                    lemma_grid_set(m@, r as int, c as int, value);
                }
                m.set(r, c, value);
                r = r + 1;
            }
            c = c + 1;
        }
        proof {
            lemma_grid_equal(m@, self@.upper());
        }
        m
    }

    /// Returns the lower triangular part: the cells on and below the diagonal,
    /// and zero above it.
    pub fn lt(&self) -> (m: Matrix<T>)
        requires
            self.wf(),
        ensures
            m.wf(),
            m@ == self@.lower(),
    {
        proof {
            self.lemma_well_formed();
        }
        let mut m: Matrix<T> = Matrix::new(self.rows, self.cols);
        let mut c: usize = 0;
        while c < self.cols
            invariant
                c <= self.cols,
                self.wf(),
                m.wf(),
                m@.wf(),
                m@.rows == self@.rows,
                m@.cols == self@.cols,
                forall|r2: int, c2: int|
                    m@.has(r2, c2) && c2 < c ==> #[trigger] m@.at(r2, c2) == self@.lower().at(r2, c2),
            decreases self.cols - c,
        {
            let mut r: usize = 0;
            while r < self.rows
                invariant
                    c < self.cols,
                    r <= self.rows,
                    self.wf(),
                    m.wf(),
                    m@.wf(),
                    m@.rows == self@.rows,
                    m@.cols == self@.cols,
                    forall|r2: int, c2: int|
                        m@.has(r2, c2) && (c2 < c || (c2 == c && r2 < r)) ==> #[trigger] m@.at(r2, c2)
                            == self@.lower().at(r2, c2),
                decreases self.rows - r,
            {
                let value: T = if r >= c {
                    self.get(r, c)
                } else {
                    T::zero()
                };
                proof {
                    lemma_grid_set(m@, r as int, c as int, value);
                }
                m.set(r, c, value);
                r = r + 1;
            }
            c = c + 1;
        }
        proof {
            lemma_grid_equal(m@, self@.lower());
        }
        m
    }

    /// Constructs a square matrix with the cells of a vector on its diagonal
    /// and zero elsewhere.
    pub fn diag_from_vec(v: &Matrix<T>) -> (result: Result<Matrix<T>, MatrixError>)
        requires
            v.wf(),
            v@.is_vector() ==> representable(v@.rows * v@.cols, v@.rows * v@.cols),
        ensures
            match result {
                Ok(m) => v@.is_vector() && m.wf() && m@ == Grid::diagonal(v@.cells()),
                Err(e) => e == MatrixError::NotAVector && !v@.is_vector(),
            },
    {
        if !v.is_vector() {
            return Err(MatrixError::NotAVector);
        }
        let n: usize = v.num_cells();
        let mut m: Matrix<T> = Matrix::zeros(n, n);
        let mut i: usize = 0;
        while i < n
            invariant
                i <= n,
                n == v@.rows * v@.cols,
                v.wf(),
                m.wf(),
                m@.wf(),
                m@.rows == n,
                m@.cols == n,
                forall|r2: int, c2: int|
                    m@.has(r2, c2) ==> #[trigger] m@.at(r2, c2) == if r2 == c2 && r2 < i {
                        v@.cells()[r2]
                    } else {
                        T::zero_spec()
                    },
            decreases n - i,
        {
            let value: T = *v.index(i);
            proof {
                lemma_grid_set(m@, i as int, i as int, value);
            }
            m.set(i, i, value);
            i = i + 1;
        }
        proof {
            lemma_grid_equal(m@, Grid::diagonal(v@.cells()));
        }
        Ok(m)
    }

    /// Repeats this matrix `num_rows` times downward and `num_cols` times to
    /// the right.
    pub fn repeat_matrix(&self, num_rows: usize, num_cols: usize) -> (m: Matrix<T>)
        requires
            self.wf(),
            representable(self@.rows * (num_rows as nat), self@.cols * (num_cols as nat)),
        ensures
            m.wf(),
            m@ == self@.repeat(num_rows as nat, num_cols as nat),
    {
        proof {
            crate::capacity::lemma_next_power_of_two(self@.rows * (num_rows as nat));
            crate::capacity::lemma_next_power_of_two(self@.cols * (num_cols as nat));
        }
        let rows: usize = self.rows * num_rows;
        let cols: usize = self.cols * num_cols;
        let mut m: Matrix<T> = Matrix::new(rows, cols);
        let ghost target = self@.repeat(num_rows as nat, num_cols as nat);
        let mut bc: usize = 0;
        while bc < num_cols
            invariant
                bc <= num_cols,
                rows == self.rows * num_rows,
                target == self@.repeat(num_rows as nat, num_cols as nat),
                cols == self.cols * num_cols,
                self.wf(),
                m.wf(),
                m@.wf(),
                m@.rows == rows,
                m@.cols == cols,
                forall|r2: int, c2: int|
                    m@.has(r2, c2) && c2 < bc * self.cols ==> #[trigger] m@.at(r2, c2) == target.at(
                        r2,
                        c2,
                    ),
            decreases num_cols - bc,
        {
            proof {
                lemma_block(self.cols as int, num_cols as int, bc as int);
            }
            let bc_start: usize = bc * self.cols;
            let mut c: usize = 0;
            while c < self.cols
                invariant
                    bc < num_cols,
                    c <= self.cols,
                    bc_start == bc * self.cols,
                    bc_start + self.cols <= cols,
                    rows == self.rows * num_rows,
                    target == self@.repeat(num_rows as nat, num_cols as nat),
                    cols == self.cols * num_cols,
                    self.wf(),
                    m.wf(),
                    m@.wf(),
                    m@.rows == rows,
                    m@.cols == cols,
                    forall|r2: int, c2: int|
                        m@.has(r2, c2) && c2 < bc_start + c ==> #[trigger] m@.at(r2, c2) == target.at(
                            r2,
                            c2,
                        ),
                decreases self.cols - c,
            {
                let mut br: usize = 0;
                while br < num_rows
                    invariant
                        bc < num_cols,
                        c < self.cols,
                        br <= num_rows,
                        bc_start == bc * self.cols,
                        bc_start + self.cols <= cols,
                        rows == self.rows * num_rows,
                        target == self@.repeat(num_rows as nat, num_cols as nat),
                        cols == self.cols * num_cols,
                        self.wf(),
                        m.wf(),
                        m@.wf(),
                        m@.rows == rows,
                        m@.cols == cols,
                        forall|r2: int, c2: int|
                            m@.has(r2, c2) && (c2 < bc_start + c || (c2 == bc_start + c && r2 < br
                                * self.rows)) ==> #[trigger] m@.at(r2, c2) == target.at(r2, c2),
                    decreases num_rows - br,
                {
                    proof {
                        lemma_block(self.rows as int, num_rows as int, br as int);
                    }
                    let br_start: usize = br * self.rows;
                    let mut r: usize = 0;
                    while r < self.rows
                        invariant
                            bc < num_cols,
                            c < self.cols,
                            br < num_rows,
                            r <= self.rows,
                            bc_start == bc * self.cols,
                            bc_start + self.cols <= cols,
                            br_start == br * self.rows,
                            br_start + self.rows <= rows,
                            rows == self.rows * num_rows,
                            target == self@.repeat(num_rows as nat, num_cols as nat),
                            cols == self.cols * num_cols,
                            self.wf(),
                            m.wf(),
                            m@.wf(),
                            m@.rows == rows,
                            m@.cols == cols,
                            forall|r2: int, c2: int|
                                m@.has(r2, c2) && (c2 < bc_start + c || (c2 == bc_start + c && r2
                                    < br_start + r)) ==> #[trigger] m@.at(r2, c2) == target.at(r2, c2),
                        decreases self.rows - r,
                    {
                        let value: T = self.get(r, c);
                        proof {
                            lemma_grid_set(m@, br_start + r, bc_start + c, value);
                            lemma_fundamental_div_mod_converse(
                                br_start + r,
                                self.rows as int,
                                br as int,
                                r as int,
                            );
                            lemma_fundamental_div_mod_converse(
                                bc_start + c,
                                self.cols as int,
                                bc as int,
                                c as int,
                            );
                            assert(br * self.rows == self.rows * br) by (nonlinear_arith);
                            assert(bc * self.cols == self.cols * bc) by (nonlinear_arith);
                        }
                        m.set(br_start + r, bc_start + c, value);
                        r = r + 1;
                    }
                    br = br + 1;
                    assert(br * self.rows == (br - 1) * self.rows + self.rows) by (nonlinear_arith);
                }
                proof {
                    assert(num_rows * self.rows == self.rows * num_rows) by (nonlinear_arith);
                }
                c = c + 1;
            }
            bc = bc + 1;
            assert(bc * self.cols == (bc - 1) * self.cols + self.cols) by (nonlinear_arith);
        }
        proof {
            assert(num_cols * self.cols == self.cols * num_cols) by (nonlinear_arith);
            lemma_grid_equal(m@, target);
        }
        m
    }
}

/// The block with index `k` of `n` blocks of size `size` ends within the
/// whole.
proof fn lemma_block(size: int, n: int, k: int)
    requires
        0 <= size,
        0 <= k < n,
    ensures
        0 <= k * size,
        k * size + size <= size * n,
{
    assert(0 <= k * size) by (nonlinear_arith)
        requires
            0 <= size,
            0 <= k,
    ;
    assert(k * size + size <= size * n) by (nonlinear_arith)
        requires
            0 <= size,
            k + 1 <= n,
    ;
}

} // verus!
