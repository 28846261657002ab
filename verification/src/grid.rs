//! The mathematical content of a matrix, and the operations on it that the
//! contracts of the library speak of.

use vstd::prelude::*;
use crate::number::Number;

verus! {

/// What a matrix holds: its logical size and its cells, column by column.
pub struct Grid<T> {
    pub rows: nat,
    pub cols: nat,
    /// `cols` columns of `rows` cells each.
    pub columns: Seq<Seq<T>>,
}

impl<T> Grid<T> {
    /// The cell in row `r` and column `c`.
    pub open spec fn at(self, r: int, c: int) -> T {
        self.columns[c][r]
    }

    /// `(r, c)` is a cell of the grid.
    pub open spec fn has(self, r: int, c: int) -> bool {
        0 <= r < self.rows && 0 <= c < self.cols
    }

    /// The columns are as many and as long as the size says.
    pub open spec fn wf(self) -> bool {
        &&& self.columns.len() == self.cols
        &&& forall|c: int| 0 <= c < self.cols ==> (#[trigger] self.columns[c]).len() == self.rows
    }

    /// The grid of the given size whose cell `(r, c)` is `f(r, c)`.
    pub open spec fn new(rows: nat, cols: nat, f: spec_fn(int, int) -> T) -> Grid<T> {
        Grid { rows, cols, columns: Seq::new(cols, |c: int| Seq::new(rows, |r: int| f(r, c))) }
    }

    /// The grid of the given size with `v` in every cell.
    pub open spec fn constant(rows: nat, cols: nat, v: T) -> Grid<T> {
        Grid::new(rows, cols, |r: int, c: int| v)
    }

    /// This grid with `v` in cell `(r, c)`.
    pub open spec fn set(self, r: int, c: int, v: T) -> Grid<T> {
        Grid {
            rows: self.rows,
            cols: self.cols,
            columns: self.columns.update(c, self.columns[c].update(r, v)),
        }
    }

    /// The grid mirrored at its diagonal: cell `(c, r)` of the result is cell
    /// `(r, c)` of this one.
    pub open spec fn transpose(self) -> Grid<T> {
        Grid::new(self.cols, self.rows, |r: int, c: int| self.at(c, r))
    }

    /// This grid with the columns of `other` put in before column `index`.
    pub open spec fn insert_columns(self, index: int, other: Grid<T>) -> Grid<T> {
        Grid::new(
            self.rows,
            self.cols + other.cols,
            |r: int, c: int|
                if c < index {
                    self.at(r, c)
                } else if c < index + other.cols {
                    other.at(r, c - index)
                } else {
                    self.at(r, c - other.cols)
                },
        )
    }

    /// This grid with the rows of `other` put in before row `index`.
    pub open spec fn insert_rows(self, index: int, other: Grid<T>) -> Grid<T> {
        Grid::new(
            self.rows + other.rows,
            self.cols,
            |r: int, c: int|
                if r < index {
                    self.at(r, c)
                } else if r < index + other.rows {
                    other.at(r - index, c)
                } else {
                    self.at(r - other.rows, c)
                },
        )
    }

    /// This grid repeated `down` times downward and `across` times to the
    /// right.
    pub open spec fn repeat(self, down: nat, across: nat) -> Grid<T> {
        Grid::new(
            self.rows * down,
            self.cols * across,
            |r: int, c: int| self.at(r % (self.rows as int), c % (self.cols as int)),
        )
    }

    /// The grid whose row `r` is row `picks[r]` of this grid.
    pub open spec fn pick_rows(self, picks: Seq<u16>) -> Grid<T> {
        Grid::new(self.rows, self.cols, |r: int, c: int| self.at(picks[r] as int, c))
    }

    /// The grid whose column `c` is column `picks[c]` of this grid.
    pub open spec fn pick_cols(self, picks: Seq<u16>) -> Grid<T> {
        Grid::new(self.rows, self.cols, |r: int, c: int| self.at(r, picks[c] as int))
    }

    /// The cells in the order of their linear index: column after column.
    pub open spec fn cells(self) -> Seq<T> {
        Seq::new(self.rows * self.cols, |i: int| self.at(i % (self.rows as int), i / (self.rows as int)))
    }
}

impl<T: Number> Grid<T> {
    /// The grid with one on its diagonal and zero elsewhere.
    pub open spec fn identity(rows: nat, cols: nat) -> Grid<T> {
        Grid::new(
            rows,
            cols,
            |r: int, c: int|
                if r == c {
                    T::one_spec()
                } else {
                    T::zero_spec()
                },
        )
    }

    /// The grid that is filled column after column from `values`, and with
    /// zero where the values have run out.
    pub open spec fn column_wise(rows: nat, cols: nat, values: Seq<T>) -> Grid<T> {
        Grid::new(
            rows,
            cols,
            |r: int, c: int|
                if r + c * rows < values.len() {
                    values[r + c * rows]
                } else {
                    T::zero_spec()
                },
        )
    }

    /// The grid that is filled row after row from `values`, and with zero
    /// where the values have run out.
    pub open spec fn row_wise(rows: nat, cols: nat, values: Seq<T>) -> Grid<T> {
        Grid::new(
            rows,
            cols,
            |r: int, c: int|
                if r * cols + c < values.len() {
                    values[r * cols + c]
                } else {
                    T::zero_spec()
                },
        )
    }

    /// The square grid with `values` on its diagonal and zero elsewhere.
    pub open spec fn diagonal(values: Seq<T>) -> Grid<T> {
        Grid::new(
            values.len(),
            values.len(),
            |r: int, c: int|
                if r == c {
                    values[r]
                } else {
                    T::zero_spec()
                },
        )
    }

    /// The diagonal of this grid as a column.
    pub open spec fn diagonal_vector(self) -> Grid<T> {
        Grid::new(
            if self.rows <= self.cols {
                self.rows
            } else {
                self.cols
            },
            1,
            |r: int, c: int| self.at(r, r),
        )
    }

    /// This grid with zero in every cell off the diagonal.
    pub open spec fn diagonal_matrix(self) -> Grid<T> {
        Grid::new(
            self.rows,
            self.cols,
            |r: int, c: int|
                if r == c {
                    self.at(r, c)
                } else {
                    T::zero_spec()
                },
        )
    }

    /// This grid with zero in every cell below the diagonal.
    pub open spec fn upper(self) -> Grid<T> {
        Grid::new(
            self.rows,
            self.cols,
            |r: int, c: int|
                if r <= c {
                    self.at(r, c)
                } else {
                    T::zero_spec()
                },
        )
    }

    /// This grid with zero in every cell above the diagonal.
    pub open spec fn lower(self) -> Grid<T> {
        Grid::new(
            self.rows,
            self.cols,
            |r: int, c: int|
                if r >= c {
                    self.at(r, c)
                } else {
                    T::zero_spec()
                },
        )
    }

    /// The column of the given length with one in row `dim` and zero elsewhere.
    pub open spec fn unit_vector(length: nat, dim: int) -> Grid<T> {
        Grid::new(
            length,
            1,
            |r: int, c: int|
                if r == dim {
                    T::one_spec()
                } else {
                    T::zero_spec()
                },
        )
    }
}

/// Setting a cell changes that cell and nothing else.
pub proof fn lemma_grid_set<T>(g: Grid<T>, r: int, c: int, v: T)
    requires
        g.wf(),
        g.has(r, c),
    ensures
        g.set(r, c, v).wf(),
        g.set(r, c, v).rows == g.rows,
        g.set(r, c, v).cols == g.cols,
        g.set(r, c, v).at(r, c) == v,
        forall|r2: int, c2: int|
            g.has(r2, c2) && !(r2 == r && c2 == c) ==> #[trigger] g.set(r, c, v).at(r2, c2) == g.at(
                r2,
                c2,
            ),
{
    let h = g.set(r, c, v);
    assert forall|c2: int| 0 <= c2 < h.cols implies (#[trigger] h.columns[c2]).len() == h.rows by {
        assert(g.columns[c2].len() == g.rows);
    }
}

/// Two grids of one size with the same cells are the same grid.
pub proof fn lemma_grid_equal<T>(a: Grid<T>, b: Grid<T>)
    requires
        a.wf(),
        b.wf(),
        a.rows == b.rows,
        a.cols == b.cols,
        forall|r: int, c: int| a.has(r, c) ==> a.at(r, c) == b.at(r, c),
    ensures
        a == b,
{
    assert forall|c: int| 0 <= c < a.cols implies a.columns[c] =~= b.columns[c] by {
        assert forall|r: int| 0 <= r < a.rows implies a.columns[c][r] == b.columns[c][r] by {
            assert(a.has(r, c));
        }
    }
    assert(a.columns =~= b.columns);
}

} // verus!
