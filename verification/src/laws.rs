//! Laws that hold of the operations on matrices, stated over their views.

use vstd::prelude::*;
use vstd::std_specs::cmp::PartialEqSpec;
use crate::number::Number;
use crate::capacity::{is_power_of_two, next_power_of_two, lemma_next_power_of_two};
use crate::algebra::dot;
use crate::sums::{
    sum, lemma_sum_equal, lemma_sum_single, lemma_sum_times, lemma_times_sum, lemma_sum_exchange,
    lemma_one_times, lemma_zero_times,
};
use crate::grid::{Grid, lemma_grid_equal};
use crate::matrix::Matrix;

verus! {

impl<T: Number> Matrix<T> {
    /// Each allocated dimension of a well-formed matrix is zero or a power of
    /// two, and is not below the logical dimension. Every operation of the
    /// library hands out well-formed matrices only.
    pub proof fn lemma_allocated_dimensions(&self)
        requires
            self.wf(),
        ensures
            self.allocated_rows() == next_power_of_two(self@.rows),
            self.allocated_cols() == next_power_of_two(self@.cols),
            self.allocated_rows() == 0 || is_power_of_two(self.allocated_rows() as nat),
            self.allocated_cols() == 0 || is_power_of_two(self.allocated_cols() as nat),
            self.allocated_rows() >= self@.rows,
            self.allocated_cols() >= self@.cols,
    {
        lemma_next_power_of_two(self@.rows);
        lemma_next_power_of_two(self@.cols);
    }

    /// Two well-formed matrices are equal exactly if their views are.
    pub proof fn lemma_eq(&self, other: &Matrix<T>)
        requires
            self.wf(),
            other.wf(),
        ensures
            self.eq_spec(other) == (self@ == other@),
    {
        self.lemma_cells();
        other.lemma_cells();
    }
}

/// Inserting columns yields a grid with as many rows and with the columns of
/// both: the columns before `index` stay where they are, the columns of
/// `other` follow from `index` on, and the columns from `index` on follow
/// after them. No cell of either grid is lost or changed.
pub proof fn lemma_insert_columns<T>(g: Grid<T>, index: int, other: Grid<T>)
    requires
        g.wf(),
        other.wf(),
        g.rows == other.rows,
        0 <= index <= g.cols,
    ensures
        g.insert_columns(index, other).wf(),
        g.insert_columns(index, other).rows == g.rows,
        g.insert_columns(index, other).cols == g.cols + other.cols,
        forall|r: int, c: int|
            0 <= r < g.rows && 0 <= c < index ==> #[trigger] g.insert_columns(index, other).at(r, c)
                == g.at(r, c),
        forall|r: int, c: int|
            0 <= r < g.rows && 0 <= c < other.cols ==> g.insert_columns(index, other).at(r, index + c)
                == #[trigger] other.at(r, c),
        forall|r: int, c: int|
            0 <= r < g.rows && index <= c < g.cols ==> g.insert_columns(index, other).at(
                r,
                c + other.cols,
            ) == #[trigger] g.at(r, c),
{
    let h = g.insert_columns(index, other);
    assert forall|r: int, c: int| 0 <= r < g.rows && 0 <= c < other.cols implies h.at(r, index + c)
        == #[trigger] other.at(r, c) by {
        assert(h.has(r, index + c));
    }
    assert forall|r: int, c: int| 0 <= r < g.rows && index <= c < g.cols implies h.at(
        r,
        c + other.cols,
    ) == #[trigger] g.at(r, c) by {
        assert(h.has(r, c + other.cols));
    }
}

/// Inserting rows yields a grid with as many columns and with the rows of
/// both: the rows before `index` stay where they are, the rows of `other`
/// follow from `index` on, and the rows from `index` on follow after them. No
/// cell of either grid is lost or changed.
pub proof fn lemma_insert_rows<T>(g: Grid<T>, index: int, other: Grid<T>)
    requires
        g.wf(),
        other.wf(),
        g.cols == other.cols,
        0 <= index <= g.rows,
    ensures
        g.insert_rows(index, other).wf(),
        g.insert_rows(index, other).rows == g.rows + other.rows,
        g.insert_rows(index, other).cols == g.cols,
        forall|r: int, c: int|
            0 <= r < index && 0 <= c < g.cols ==> #[trigger] g.insert_rows(index, other).at(r, c)
                == g.at(r, c),
        forall|r: int, c: int|
            0 <= r < other.rows && 0 <= c < g.cols ==> g.insert_rows(index, other).at(index + r, c)
                == #[trigger] other.at(r, c),
        forall|r: int, c: int|
            index <= r < g.rows && 0 <= c < g.cols ==> g.insert_rows(index, other).at(
                r + other.rows,
                c,
            ) == #[trigger] g.at(r, c),
{
    let h = g.insert_rows(index, other);
    assert forall|r: int, c: int| 0 <= r < other.rows && 0 <= c < g.cols implies h.at(index + r, c)
        == #[trigger] other.at(r, c) by {
        assert(h.has(index + r, c));
    }
    assert forall|r: int, c: int| index <= r < g.rows && 0 <= c < g.cols implies h.at(
        r + other.rows,
        c,
    ) == #[trigger] g.at(r, c) by {
        assert(h.has(r + other.rows, c));
    }
}

/// Transposing twice gives the grid back.
pub proof fn lemma_transpose_involution<T>(g: Grid<T>)
    requires
        g.wf(),
    ensures
        g.transpose().transpose() == g,
{
    let t = g.transpose();
    let tt = t.transpose();
    assert forall|r: int, c: int| tt.has(r, c) implies tt.at(r, c) == g.at(r, c) by {
        assert(t.has(c, r));
    }
    lemma_grid_equal(tt, g);
}

/// A grid plus its negation is the grid of zeros of the same size.
pub proof fn lemma_plus_negated<T: Number>(g: Grid<T>)
    requires
        g.wf(),
    ensures
        g.plus(g.negated()) == Grid::constant(g.rows, g.cols, T::zero_spec()),
{
    let s = g.plus(g.negated());
    let z = Grid::constant(g.rows, g.cols, T::zero_spec());
    assert forall|r: int, c: int| s.has(r, c) implies s.at(r, c) == z.at(r, c) by {
        assert(g.negated().has(r, c));
        T::lemma_plus_negated(g.at(r, c));
    }
    lemma_grid_equal(s, z);
}

/// A dot product is the sum of its products.
pub proof fn lemma_dot_is_sum<T: Number>(a: Grid<T>, b: Grid<T>, r: int, c: int, n: nat)
    ensures
        dot(a, b, r, c, n) == sum(|j: int| a.at(r, j).times_spec(b.at(j, c)), n),
    decreases n,
{
    if n > 0 {
        lemma_dot_is_sum(a, b, r, c, (n - 1) as nat);
    }
}

/// A grid times the identity is the grid.
pub proof fn lemma_product_identity<T: Number>(g: Grid<T>)
    requires
        g.wf(),
    ensures
        g.product(Grid::<T>::identity(g.cols, g.cols)) == g,
{
    let one = Grid::<T>::identity(g.cols, g.cols);
    let p = g.product(one);
    assert forall|r: int, c: int| p.has(r, c) implies p.at(r, c) == g.at(r, c) by {
        let terms = |j: int| g.at(r, j).times_spec(one.at(j, c));
        lemma_dot_is_sum(g, one, r, c, g.cols);
        assert forall|j: int| 0 <= j < g.cols && j != c implies #[trigger] terms(j)
            == T::zero_spec() by {
            assert(one.has(j, c));
            T::lemma_times_zero(g.at(r, j));
        }
        lemma_sum_single(terms, g.cols, c);
        assert(one.has(c, c));
        T::lemma_times_one(g.at(r, c));
    }
    lemma_grid_equal(p, g);
}

/// The identity times a grid is the grid.
pub proof fn lemma_identity_product<T: Number>(g: Grid<T>)
    requires
        g.wf(),
    ensures
        Grid::<T>::identity(g.rows, g.rows).product(g) == g,
{
    let one = Grid::<T>::identity(g.rows, g.rows);
    let p = one.product(g);
    assert forall|r: int, c: int| p.has(r, c) implies p.at(r, c) == g.at(r, c) by {
        let terms = |j: int| one.at(r, j).times_spec(g.at(j, c));
        lemma_dot_is_sum(one, g, r, c, g.rows);
        assert forall|j: int| 0 <= j < g.rows && j != r implies #[trigger] terms(j)
            == T::zero_spec() by {
            assert(one.has(r, j));
            lemma_zero_times(g.at(j, c));
        }
        lemma_sum_single(terms, g.rows, r);
        assert(one.has(r, r));
        lemma_one_times(g.at(r, c));
    }
    lemma_grid_equal(p, g);
}

/// The matrix product is associative: `(a * b) * c == a * (b * c)`.
pub proof fn lemma_product_associates<T: Number>(a: Grid<T>, b: Grid<T>, c: Grid<T>)
    requires
        a.wf(),
        b.wf(),
        c.wf(),
        a.cols == b.rows,
        b.cols == c.rows,
    ensures
        a.product(b).product(c) == a.product(b.product(c)),
{
    let ab = a.product(b);
    let bc = b.product(c);
    let left = ab.product(c);
    let right = a.product(bc);
    let k = a.cols;
    let l = b.cols;
    assert forall|r: int, q: int| left.has(r, q) implies left.at(r, q) == right.at(r, q) by {
        // The product of three cells, one of each grid.
        let h = |i: int, j: int| a.at(r, i).times_spec(b.at(i, j).times_spec(c.at(j, q)));
        // left.at(r, q) is the sum over j of (sum over i of a * b) * c.
        let left_terms = |j: int| ab.at(r, j).times_spec(c.at(j, q));
        let by_column = |j: int| sum(|i: int| h(i, j), k);
        lemma_dot_is_sum(ab, c, r, q, l);
        assert forall|j: int| 0 <= j < l implies #[trigger] left_terms(j) == by_column(j) by {
            let ab_terms = |i: int| a.at(r, i).times_spec(b.at(i, j));
            let column = |i: int| h(i, j);
            assert(ab.has(r, j));
            lemma_dot_is_sum(a, b, r, j, k);
            assert forall|i: int| 0 <= i < k implies #[trigger] column(i) == ab_terms(i).times_spec(
                c.at(j, q),
            ) by {
                T::lemma_times_associates(a.at(r, i), b.at(i, j), c.at(j, q));
            }
            lemma_sum_times(ab_terms, column, c.at(j, q), k);
        }
        lemma_sum_equal(left_terms, by_column, l);
        // right.at(r, q) is the sum over i of a * (sum over j of b * c).
        let right_terms = |i: int| a.at(r, i).times_spec(bc.at(i, q));
        let by_row = |i: int| sum(|j: int| h(i, j), l);
        lemma_dot_is_sum(a, bc, r, q, k);
        assert forall|i: int| 0 <= i < k implies #[trigger] right_terms(i) == by_row(i) by {
            let bc_terms = |j: int| b.at(i, j).times_spec(c.at(j, q));
            let row = |j: int| h(i, j);
            assert(bc.has(i, q));
            lemma_dot_is_sum(b, c, i, q, l);
            lemma_times_sum(bc_terms, row, a.at(r, i), l);
        }
        lemma_sum_equal(right_terms, by_row, k);
        lemma_sum_exchange(h, k, l);
    }
    lemma_grid_equal(left, right);
}

} // verus!
