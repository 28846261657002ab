//! Unsigned integers of the width of an address as matrix elements:
//! arithmetic wraps around.

use vstd::prelude::*;
use vstd::arithmetic::div_mod::*;
use vstd::wrapping::usize_specs;
use crate::number::{Number, Ordered};
use crate::matrix::Matrix;
use crate::modular::{
    congruent, lemma_congruent_close, lemma_congruent_residue, lemma_congruent_plus,
    lemma_congruent_times,
};

verus! {

/// The number of values of a `usize`.
pub open spec fn range_size() -> int {
    usize::MAX + 1
}

/// `a` and `b` differ by a multiple of the number of values of a `usize`.
pub open spec fn congruent_size(a: int, b: int) -> bool {
    congruent(a, b, range_size())
}

/// The `usize` that is congruent to `x`.
pub open spec fn wrap_usize(x: int) -> usize {
    (x % range_size()) as usize
}

/// `wrap_usize(x)` is congruent to `x`, and it is the only such `usize`.
pub proof fn lemma_wrap_usize(x: int)
    ensures
        congruent_size(wrap_usize(x) as int, x),
        forall|v: usize| congruent_size(v as int, x) ==> v == wrap_usize(x),
{
    lemma_congruent_residue(x, range_size());
    assert forall|v: usize| congruent_size(v as int, x) implies v == wrap_usize(x) by {
        lemma_unique_usize(v, wrap_usize(x));
    }
}

/// Two values of `usize` that are congruent are equal.
pub proof fn lemma_unique_usize(a: usize, b: usize)
    requires
        congruent_size(a as int, b as int),
    ensures
        a == b,
{
    lemma_congruent_close(a as int, b as int, range_size());
}

/// Wrapping addition is addition, wrapped.
pub proof fn lemma_wrapping_add_usize(a: usize, b: usize)
    ensures
        usize_specs::wrapping_add(a, b) == wrap_usize(a + b),
{
    lemma_congruent_residue(a + b, range_size());
    lemma_congruent_residue(a + b - range_size(), range_size());
    lemma_wrap_usize(a + b);
}

/// Wrapping subtraction is subtraction, wrapped.
pub proof fn lemma_wrapping_sub_usize(a: usize, b: usize)
    ensures
        usize_specs::wrapping_sub(a, b) == wrap_usize(a - b),
{
    lemma_congruent_residue(a - b, range_size());
    lemma_congruent_residue(a - b + range_size(), range_size());
    lemma_wrap_usize(a - b);
}

/// Wrapping multiplication is multiplication, wrapped.
pub proof fn lemma_wrapping_mul_usize(a: usize, b: usize)
    ensures
        usize_specs::wrapping_mul(a, b) == wrap_usize(a * b),
{
    assert(a as nat * b as nat == a * b) by (nonlinear_arith);
    assert(a * b >= 0) by (nonlinear_arith);
}

/// A matrix of unsigned integers of the width of an address.
pub type MatrixUInt = Matrix<usize>;

impl Number for usize {
    open spec fn zero_spec() -> usize {
        0
    }

    open spec fn one_spec() -> usize {
        1
    }

    open spec fn plus_spec(self, rhs: usize) -> usize {
        wrap_usize(self + rhs)
    }

    open spec fn minus_spec(self, rhs: usize) -> usize {
        wrap_usize(self - rhs)
    }

    open spec fn times_spec(self, rhs: usize) -> usize {
        wrap_usize(self * rhs)
    }

    open spec fn negated_spec(self) -> usize {
        wrap_usize(-self)
    }

    open spec fn divisor_spec(self) -> bool {
        self != 0
    }

    open spec fn over_spec(self, rhs: usize) -> usize {
        (self / rhs) as usize
    }

    fn zero() -> (r: usize) {
        0
    }

    fn one() -> (r: usize) {
        1
    }

    fn plus(self, rhs: usize) -> (r: usize) {
        proof {
            lemma_wrapping_add_usize(self, rhs);
        }
        self.wrapping_add(rhs)
    }

    fn minus(self, rhs: usize) -> (r: usize) {
        proof {
            lemma_wrapping_sub_usize(self, rhs);
        }
        self.wrapping_sub(rhs)
    }

    fn times(self, rhs: usize) -> (r: usize) {
        proof {
            lemma_wrapping_mul_usize(self, rhs);
        }
        self.wrapping_mul(rhs)
    }

    fn negated(self) -> (r: usize) {
        proof {
            lemma_wrapping_sub_usize(0, self);
        }
        0usize.wrapping_sub(self)
    }

    fn over(self, rhs: usize) -> (r: usize) {
        self / rhs
    }

    fn same(self, rhs: usize) -> (r: bool) {
        self == rhs
    }

    proof fn lemma_plus_commutes(a: usize, b: usize) {
    }

    proof fn lemma_plus_associates(a: usize, b: usize, c: usize) {
        lemma_wrap_usize(a + b);
        lemma_wrap_usize(b + c);
        lemma_congruent_plus(wrap_usize(a + b) as int, a + b, c as int, c as int, range_size());
        lemma_congruent_plus(a as int, a as int, wrap_usize(b + c) as int, b + c, range_size());
        lemma_wrap_usize(wrap_usize(a + b) + c);
        lemma_wrap_usize(a + wrap_usize(b + c));
        lemma_unique_usize(wrap_usize(wrap_usize(a + b) + c), wrap_usize(a + wrap_usize(b + c)));
    }

    proof fn lemma_plus_zero(a: usize) {
        lemma_wrap_usize(a as int);
        lemma_unique_usize(a, wrap_usize(a as int));
    }

    proof fn lemma_plus_negated(a: usize) {
        lemma_wrap_usize(-a);
        lemma_congruent_plus(a as int, a as int, wrap_usize(-a) as int, -a, range_size());
        lemma_wrap_usize(a + wrap_usize(-a));
        lemma_unique_usize(wrap_usize(a + wrap_usize(-a)), 0);
    }

    proof fn lemma_minus_is_plus_negated(a: usize, b: usize) {
        lemma_wrap_usize(-b);
        lemma_congruent_plus(a as int, a as int, wrap_usize(-b) as int, -b, range_size());
        lemma_wrap_usize(a + wrap_usize(-b));
        lemma_wrap_usize(a - b);
        lemma_unique_usize(wrap_usize(a - b), wrap_usize(a + wrap_usize(-b)));
    }

    proof fn lemma_times_commutes(a: usize, b: usize) {
        assert(a * b == b * a) by (nonlinear_arith);
    }

    proof fn lemma_times_associates(a: usize, b: usize, c: usize) {
        lemma_wrap_usize(a * b);
        lemma_wrap_usize(b * c);
        lemma_congruent_times(wrap_usize(a * b) as int, a * b, c as int, c as int, range_size());
        lemma_congruent_times(a as int, a as int, wrap_usize(b * c) as int, b * c, range_size());
        assert((a * b) * c == a * (b * c)) by (nonlinear_arith);
        lemma_wrap_usize(wrap_usize(a * b) * c);
        lemma_wrap_usize(a * wrap_usize(b * c));
        lemma_unique_usize(wrap_usize(wrap_usize(a * b) * c), wrap_usize(a * wrap_usize(b * c)));
    }

    proof fn lemma_times_one(a: usize) {
        assert(a * 1 == a) by (nonlinear_arith);
        lemma_wrap_usize(a as int);
        lemma_unique_usize(a, wrap_usize(a as int));
    }

    proof fn lemma_times_zero(a: usize) {
        assert(a * 0 == 0) by (nonlinear_arith);
    }

    proof fn lemma_times_distributes(a: usize, b: usize, c: usize) {
        lemma_wrap_usize(b + c);
        lemma_wrap_usize(a * b);
        lemma_wrap_usize(a * c);
        lemma_congruent_times(a as int, a as int, wrap_usize(b + c) as int, b + c, range_size());
        lemma_congruent_plus(wrap_usize(a * b) as int, a * b, wrap_usize(a * c) as int, a * c, range_size());
        assert(a * (b + c) == a * b + a * c) by (nonlinear_arith);
        lemma_wrap_usize(a * wrap_usize(b + c));
        lemma_wrap_usize(wrap_usize(a * b) + wrap_usize(a * c));
        lemma_unique_usize(
            wrap_usize(a * wrap_usize(b + c)),
            wrap_usize(wrap_usize(a * b) + wrap_usize(a * c)),
        );
    }
}

impl Ordered for usize {
    open spec fn less_spec(self, rhs: usize) -> bool {
        self < rhs
    }

    fn less(self, rhs: usize) -> (r: bool) {
        self < rhs
    }

    proof fn lemma_less_asymmetric(a: usize, b: usize) {
    }

    proof fn lemma_less_transitive(a: usize, b: usize, c: usize) {
    }

    proof fn lemma_less_total(a: usize, b: usize) {
    }
}

} // verus!
