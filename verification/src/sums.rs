//! Finite sums over a ring, added up from zero in the order of the index, and
//! the rules by which they are rearranged.

use vstd::prelude::*;
use crate::number::Number;

verus! {

/// `f(0) + f(1) + ... + f(n - 1)`, added up from zero.
pub open spec fn sum<T: Number>(f: spec_fn(int) -> T, n: nat) -> T
    decreases n,
{
    if n == 0 {
        T::zero_spec()
    } else {
        sum(f, (n - 1) as nat).plus_spec(f(n - 1))
    }
}

/// Zero plus a number is that number.
pub proof fn lemma_zero_plus<T: Number>(a: T)
    ensures
        T::zero_spec().plus_spec(a) == a,
{
    T::lemma_plus_commutes(T::zero_spec(), a);
    T::lemma_plus_zero(a);
}

/// Zero times a number is zero.
pub proof fn lemma_zero_times<T: Number>(a: T)
    ensures
        T::zero_spec().times_spec(a) == T::zero_spec(),
{
    T::lemma_times_commutes(T::zero_spec(), a);
    T::lemma_times_zero(a);
}

/// One times a number is that number.
pub proof fn lemma_one_times<T: Number>(a: T)
    ensures
        T::one_spec().times_spec(a) == a,
{
    T::lemma_times_commutes(T::one_spec(), a);
    T::lemma_times_one(a);
}

/// A sum times a number is the sum of the products.
pub proof fn lemma_plus_times<T: Number>(a: T, b: T, c: T)
    ensures
        a.plus_spec(b).times_spec(c) == a.times_spec(c).plus_spec(b.times_spec(c)),
{
    T::lemma_times_commutes(a.plus_spec(b), c);
    T::lemma_times_distributes(c, a, b);
    T::lemma_times_commutes(c, a);
    T::lemma_times_commutes(c, b);
}

/// `(a + b) + (c + d) == (a + c) + (b + d)`.
pub proof fn lemma_plus_interchange<T: Number>(a: T, b: T, c: T, d: T)
    ensures
        a.plus_spec(b).plus_spec(c.plus_spec(d)) == a.plus_spec(c).plus_spec(b.plus_spec(d)),
{
    T::lemma_plus_associates(a, b, c.plus_spec(d));
    T::lemma_plus_associates(b, c, d);
    T::lemma_plus_commutes(b, c);
    T::lemma_plus_associates(c, b, d);
    T::lemma_plus_associates(a, c, b.plus_spec(d));
}

/// Sums of terms that are equal one by one are equal.
pub proof fn lemma_sum_equal<T: Number>(f: spec_fn(int) -> T, g: spec_fn(int) -> T, n: nat)
    requires
        forall|i: int| 0 <= i < n ==> #[trigger] f(i) == g(i),
    ensures
        sum(f, n) == sum(g, n),
    decreases n,
{
    if n > 0 {
        lemma_sum_equal(f, g, (n - 1) as nat);
    }
}

/// A sum of zeros is zero.
pub proof fn lemma_sum_zero<T: Number>(f: spec_fn(int) -> T, n: nat)
    requires
        forall|i: int| 0 <= i < n ==> #[trigger] f(i) == T::zero_spec(),
    ensures
        sum(f, n) == T::zero_spec(),
    decreases n,
{
    if n > 0 {
        lemma_sum_zero(f, (n - 1) as nat);
        T::lemma_plus_zero(T::zero_spec());
    }
}

/// A sum in which only the term with index `k` may differ from zero is that
/// term, or zero where the sum ends before it.
pub proof fn lemma_sum_single<T: Number>(f: spec_fn(int) -> T, n: nat, k: int)
    requires
        0 <= k,
        forall|i: int| 0 <= i < n && i != k ==> #[trigger] f(i) == T::zero_spec(),
    ensures
        sum(f, n) == if k < n {
            f(k)
        } else {
            T::zero_spec()
        },
    decreases n,
{
    if n > 0 {
        lemma_sum_single(f, (n - 1) as nat, k);
        if k == n - 1 {
            lemma_zero_plus(f(k));
        } else {
            T::lemma_plus_zero(sum(f, (n - 1) as nat));
        }
    }
}

/// A factor on the right of every term may be taken out of the sum.
pub proof fn lemma_sum_times<T: Number>(f: spec_fn(int) -> T, g: spec_fn(int) -> T, y: T, n: nat)
    requires
        forall|i: int| 0 <= i < n ==> #[trigger] g(i) == f(i).times_spec(y),
    ensures
        sum(g, n) == sum(f, n).times_spec(y),
    decreases n,
{
    if n == 0 {
        lemma_zero_times(y);
    } else {
        lemma_sum_times(f, g, y, (n - 1) as nat);
        lemma_plus_times(sum(f, (n - 1) as nat), f(n - 1), y);
    }
}

/// A factor on the left of every term may be taken out of the sum.
pub proof fn lemma_times_sum<T: Number>(f: spec_fn(int) -> T, g: spec_fn(int) -> T, x: T, n: nat)
    requires
        forall|i: int| 0 <= i < n ==> #[trigger] g(i) == x.times_spec(f(i)),
    ensures
        sum(g, n) == x.times_spec(sum(f, n)),
    decreases n,
{
    if n == 0 {
        T::lemma_times_zero(x);
    } else {
        lemma_times_sum(f, g, x, (n - 1) as nat);
        T::lemma_times_distributes(x, sum(f, (n - 1) as nat), f(n - 1));
    }
}

/// The sum of sums of two terms is the sum of the two sums.
pub proof fn lemma_sum_plus<T: Number>(
    f: spec_fn(int) -> T,
    g: spec_fn(int) -> T,
    h: spec_fn(int) -> T,
    n: nat,
)
    requires
        forall|i: int| 0 <= i < n ==> #[trigger] h(i) == f(i).plus_spec(g(i)),
    ensures
        sum(h, n) == sum(f, n).plus_spec(sum(g, n)),
    decreases n,
{
    if n == 0 {
        T::lemma_plus_zero(T::zero_spec());
    } else {
        lemma_sum_plus(f, g, h, (n - 1) as nat);
        lemma_plus_interchange(
            sum(f, (n - 1) as nat),
            sum(g, (n - 1) as nat),
            f(n - 1),
            g(n - 1),
        );
    }
}

/// A double sum may be added up in either order: first along `i`, then along
/// `j`, or the other way round.
pub proof fn lemma_sum_exchange<T: Number>(h: spec_fn(int, int) -> T, k: nat, l: nat)
    ensures
        sum(|j: int| sum(|i: int| h(i, j), k), l) == sum(|i: int| sum(|j: int| h(i, j), l), k),
    decreases k,
{
    let by_column = |j: int| sum(|i: int| h(i, j), k);
    let by_row = |i: int| sum(|j: int| h(i, j), l);
    if k == 0 {
        lemma_sum_zero(by_column, l);
    } else {
        let k1 = (k - 1) as nat;
        let shorter = |j: int| sum(|i: int| h(i, j), k1);
        let last = |j: int| h(k - 1, j);
        lemma_sum_exchange(h, k1, l);
        assert forall|j: int| 0 <= j < l implies #[trigger] by_column(j) == shorter(j).plus_spec(
            last(j),
        ) by {
            let inner = |i: int| h(i, j);
            assert(by_column(j) == sum(inner, k));
            assert(shorter(j) == sum(inner, k1));
            assert(inner(k - 1) == last(j));
        }
        lemma_sum_plus(shorter, last, by_column, l);
        // sum(by_column, l) == sum(shorter, l) + sum(last, l)
        let by_row_shorter = |i: int| sum(|j: int| h(i, j), l);
        assert(sum(shorter, l) == sum(by_row_shorter, k1));
        lemma_sum_equal(by_row_shorter, by_row, k1);
        assert(by_row(k - 1) == sum(|j: int| h(k - 1, j), l));
        lemma_sum_equal(last, |j: int| h(k - 1, j), l);
    }
}

} // verus!
