//! The capabilities that a matrix asks of its element type.

use vstd::prelude::*;

verus! {

/// An element type: a commutative ring whose operations never fail, with a
/// division that is defined wherever the divisor is admissible.
pub trait Number: Copy + Sized {
    /// The additive identity.
    spec fn zero_spec() -> Self;

    /// The multiplicative identity.
    spec fn one_spec() -> Self;

    /// The sum.
    spec fn plus_spec(self, rhs: Self) -> Self;

    /// The difference.
    spec fn minus_spec(self, rhs: Self) -> Self;

    /// The product.
    spec fn times_spec(self, rhs: Self) -> Self;

    /// The additive inverse.
    spec fn negated_spec(self) -> Self;

    /// Whether `self` may stand under the division bar.
    spec fn divisor_spec(self) -> bool;

    /// The quotient, for a divisor that may stand under the division bar.
    spec fn over_spec(self, rhs: Self) -> Self;

    fn zero() -> (r: Self)
        ensures
            r == Self::zero_spec(),
    ;

    fn one() -> (r: Self)
        ensures
            r == Self::one_spec(),
    ;

    fn plus(self, rhs: Self) -> (r: Self)
        ensures
            r == self.plus_spec(rhs),
    ;

    fn minus(self, rhs: Self) -> (r: Self)
        ensures
            r == self.minus_spec(rhs),
    ;

    fn times(self, rhs: Self) -> (r: Self)
        ensures
            r == self.times_spec(rhs),
    ;

    fn negated(self) -> (r: Self)
        ensures
            r == self.negated_spec(),
    ;

    fn over(self, rhs: Self) -> (r: Self)
        requires
            rhs.divisor_spec(),
        ensures
            r == self.over_spec(rhs),
    ;

    /// Exact equality of two elements.
    fn same(self, rhs: Self) -> (r: bool)
        ensures
            r == (self == rhs),
    ;

    proof fn lemma_plus_commutes(a: Self, b: Self)
        ensures
            a.plus_spec(b) == b.plus_spec(a),
    ;

    proof fn lemma_plus_associates(a: Self, b: Self, c: Self)
        ensures
            a.plus_spec(b).plus_spec(c) == a.plus_spec(b.plus_spec(c)),
    ;

    proof fn lemma_plus_zero(a: Self)
        ensures
            a.plus_spec(Self::zero_spec()) == a,
    ;

    proof fn lemma_plus_negated(a: Self)
        ensures
            a.plus_spec(a.negated_spec()) == Self::zero_spec(),
    ;

    proof fn lemma_minus_is_plus_negated(a: Self, b: Self)
        ensures
            a.minus_spec(b) == a.plus_spec(b.negated_spec()),
    ;

    proof fn lemma_times_commutes(a: Self, b: Self)
        ensures
            a.times_spec(b) == b.times_spec(a),
    ;

    proof fn lemma_times_associates(a: Self, b: Self, c: Self)
        ensures
            a.times_spec(b).times_spec(c) == a.times_spec(b.times_spec(c)),
    ;

    proof fn lemma_times_one(a: Self)
        ensures
            a.times_spec(Self::one_spec()) == a,
    ;

    proof fn lemma_times_zero(a: Self)
        ensures
            a.times_spec(Self::zero_spec()) == Self::zero_spec(),
    ;

    proof fn lemma_times_distributes(a: Self, b: Self, c: Self)
        ensures
            a.times_spec(b.plus_spec(c)) == a.times_spec(b).plus_spec(a.times_spec(c)),
    ;
}

/// An element type with a strict total order.
pub trait Ordered: Number {
    /// Whether `self` comes before `rhs`.
    spec fn less_spec(self, rhs: Self) -> bool;

    fn less(self, rhs: Self) -> (r: bool)
        ensures
            r == self.less_spec(rhs),
    ;

    proof fn lemma_less_asymmetric(a: Self, b: Self)
        ensures
            !(a.less_spec(b) && b.less_spec(a)),
    ;

    proof fn lemma_less_transitive(a: Self, b: Self, c: Self)
        ensures
            a.less_spec(b) && b.less_spec(c) ==> a.less_spec(c),
    ;

    proof fn lemma_less_total(a: Self, b: Self)
        ensures
            a.less_spec(b) || a == b || b.less_spec(a),
    ;
}

/// An ordered element type with an absolute value.
pub trait Signed: Ordered {
    /// The absolute value.
    spec fn magnitude_spec(self) -> Self;

    fn magnitude(self) -> (r: Self)
        ensures
            r == self.magnitude_spec(),
    ;
}

} // verus!
