//! 16-bit unsigned integers as matrix elements: arithmetic wraps around.

use vstd::prelude::*;
use vstd::arithmetic::div_mod::*;
use vstd::wrapping::u16_specs;
use crate::number::{Number, Ordered};
use crate::matrix::Matrix;
use crate::modular::{
    congruent, lemma_congruent_close, lemma_congruent_residue, lemma_congruent_plus,
    lemma_congruent_times,
};

verus! {

/// The number of values of a 16-bit integer.
pub open spec fn range16() -> int {
    0x1_0000
}

/// `a` and `b` differ by a multiple of 2^16.
pub open spec fn congruent16(a: int, b: int) -> bool {
    congruent(a, b, range16())
}

/// The 16-bit unsigned integer that is congruent to `x`.
pub open spec fn wrap_u16(x: int) -> u16 {
    (x % range16()) as u16
}

/// `wrap_u16(x)` is congruent to `x`, and it is the only such `u16`.
pub proof fn lemma_wrap_u16(x: int)
    ensures
        congruent16(wrap_u16(x) as int, x),
        forall|v: u16| congruent16(v as int, x) ==> v == wrap_u16(x),
{
    lemma_congruent_residue(x, range16());
    assert forall|v: u16| congruent16(v as int, x) implies v == wrap_u16(x) by {
        lemma_unique_u16(v, wrap_u16(x));
    }
}

/// Two 16-bit unsigned integers that are congruent are equal.
pub proof fn lemma_unique_u16(a: u16, b: u16)
    requires
        congruent16(a as int, b as int),
    ensures
        a == b,
{
    lemma_congruent_close(a as int, b as int, range16());
}

/// Wrapping addition is addition, wrapped.
pub proof fn lemma_wrapping_add_u16(a: u16, b: u16)
    ensures
        u16_specs::wrapping_add(a, b) == wrap_u16(a + b),
{
    lemma_congruent_residue(a + b, range16());
    lemma_congruent_residue(a + b - range16(), range16());
    lemma_wrap_u16(a + b);
}

/// Wrapping subtraction is subtraction, wrapped.
pub proof fn lemma_wrapping_sub_u16(a: u16, b: u16)
    ensures
        u16_specs::wrapping_sub(a, b) == wrap_u16(a - b),
{
    lemma_congruent_residue(a - b, range16());
    lemma_congruent_residue(a - b + range16(), range16());
    lemma_wrap_u16(a - b);
}

/// Wrapping multiplication is multiplication, wrapped.
pub proof fn lemma_wrapping_mul_u16(a: u16, b: u16)
    ensures
        u16_specs::wrapping_mul(a, b) == wrap_u16(a * b),
{
    assert(a as nat * b as nat == a * b) by (nonlinear_arith);
    assert(a * b >= 0) by (nonlinear_arith);
}

/// A matrix of 16-bit unsigned integers.
pub type MatrixU16 = Matrix<u16>;

impl Number for u16 {
    open spec fn zero_spec() -> u16 {
        0
    }

    open spec fn one_spec() -> u16 {
        1
    }

    open spec fn plus_spec(self, rhs: u16) -> u16 {
        wrap_u16(self + rhs)
    }

    open spec fn minus_spec(self, rhs: u16) -> u16 {
        wrap_u16(self - rhs)
    }

    open spec fn times_spec(self, rhs: u16) -> u16 {
        wrap_u16(self * rhs)
    }

    open spec fn negated_spec(self) -> u16 {
        wrap_u16(-self)
    }

    open spec fn divisor_spec(self) -> bool {
        self != 0
    }

    open spec fn over_spec(self, rhs: u16) -> u16 {
        (self / rhs) as u16
    }

    fn zero() -> (r: u16) {
        0
    }

    fn one() -> (r: u16) {
        1
    }

    fn plus(self, rhs: u16) -> (r: u16) {
        proof {
            lemma_wrapping_add_u16(self, rhs);
        }
        self.wrapping_add(rhs)
    }

    fn minus(self, rhs: u16) -> (r: u16) {
        proof {
            lemma_wrapping_sub_u16(self, rhs);
        }
        self.wrapping_sub(rhs)
    }

    fn times(self, rhs: u16) -> (r: u16) {
        proof {
            lemma_wrapping_mul_u16(self, rhs);
        }
        self.wrapping_mul(rhs)
    }

    fn negated(self) -> (r: u16) {
        proof {
            lemma_wrapping_sub_u16(0, self);
        }
        0u16.wrapping_sub(self)
    }

    fn over(self, rhs: u16) -> (r: u16) {
        self / rhs
    }

    fn same(self, rhs: u16) -> (r: bool) {
        self == rhs
    }

    proof fn lemma_plus_commutes(a: u16, b: u16) {
    }

    proof fn lemma_plus_associates(a: u16, b: u16, c: u16) {
        lemma_wrap_u16(a + b);
        lemma_wrap_u16(b + c);
        lemma_congruent_plus(wrap_u16(a + b) as int, a + b, c as int, c as int, range16());
        lemma_congruent_plus(a as int, a as int, wrap_u16(b + c) as int, b + c, range16());
        lemma_wrap_u16(wrap_u16(a + b) + c);
        lemma_wrap_u16(a + wrap_u16(b + c));
        lemma_unique_u16(wrap_u16(wrap_u16(a + b) + c), wrap_u16(a + wrap_u16(b + c)));
    }

    proof fn lemma_plus_zero(a: u16) {
        lemma_wrap_u16(a as int);
    }

    proof fn lemma_plus_negated(a: u16) {
        lemma_wrap_u16(-a);
        lemma_congruent_plus(a as int, a as int, wrap_u16(-a) as int, -a, range16());
        lemma_wrap_u16(a + wrap_u16(-a));
        lemma_unique_u16(wrap_u16(a + wrap_u16(-a)), 0);
    }

    proof fn lemma_minus_is_plus_negated(a: u16, b: u16) {
        lemma_wrap_u16(-b);
        lemma_congruent_plus(a as int, a as int, wrap_u16(-b) as int, -b, range16());
        lemma_wrap_u16(a + wrap_u16(-b));
        lemma_wrap_u16(a - b);
        lemma_unique_u16(wrap_u16(a - b), wrap_u16(a + wrap_u16(-b)));
    }

    proof fn lemma_times_commutes(a: u16, b: u16) {
        assert(a * b == b * a) by (nonlinear_arith);
    }

    proof fn lemma_times_associates(a: u16, b: u16, c: u16) {
        lemma_wrap_u16(a * b);
        lemma_wrap_u16(b * c);
        lemma_congruent_times(wrap_u16(a * b) as int, a * b, c as int, c as int, range16());
        lemma_congruent_times(a as int, a as int, wrap_u16(b * c) as int, b * c, range16());
        assert((a * b) * c == a * (b * c)) by (nonlinear_arith);
        lemma_wrap_u16(wrap_u16(a * b) * c);
        lemma_wrap_u16(a * wrap_u16(b * c));
        lemma_unique_u16(wrap_u16(wrap_u16(a * b) * c), wrap_u16(a * wrap_u16(b * c)));
    }

    proof fn lemma_times_one(a: u16) {
        assert(a * 1 == a) by (nonlinear_arith);
        lemma_wrap_u16(a as int);
    }

    proof fn lemma_times_zero(a: u16) {
        assert(a * 0 == 0) by (nonlinear_arith);
    }

    proof fn lemma_times_distributes(a: u16, b: u16, c: u16) {
        lemma_wrap_u16(b + c);
        lemma_wrap_u16(a * b);
        lemma_wrap_u16(a * c);
        lemma_congruent_times(a as int, a as int, wrap_u16(b + c) as int, b + c, range16());
        lemma_congruent_plus(wrap_u16(a * b) as int, a * b, wrap_u16(a * c) as int, a * c, range16());
        assert(a * (b + c) == a * b + a * c) by (nonlinear_arith);
        lemma_wrap_u16(a * wrap_u16(b + c));
        lemma_wrap_u16(wrap_u16(a * b) + wrap_u16(a * c));
        lemma_unique_u16(
            wrap_u16(a * wrap_u16(b + c)),
            wrap_u16(wrap_u16(a * b) + wrap_u16(a * c)),
        );
    }
}

impl Ordered for u16 {
    open spec fn less_spec(self, rhs: u16) -> bool {
        self < rhs
    }

    fn less(self, rhs: u16) -> (r: bool) {
        self < rhs
    }

    proof fn lemma_less_asymmetric(a: u16, b: u16) {
    }

    proof fn lemma_less_transitive(a: u16, b: u16, c: u16) {
    }

    proof fn lemma_less_total(a: u16, b: u16) {
    }
}

} // verus!
