//! 8-bit unsigned integers as matrix elements: arithmetic wraps around.

use vstd::prelude::*;
use vstd::arithmetic::div_mod::*;
use vstd::wrapping::u8_specs;
use crate::number::{Number, Ordered};
use crate::matrix::Matrix;
use crate::modular::{
    congruent, lemma_congruent_close, lemma_congruent_residue, lemma_congruent_plus,
    lemma_congruent_times,
};

verus! {

/// The number of values of a 8-bit integer.
pub open spec fn range8() -> int {
    0x100
}

/// `a` and `b` differ by a multiple of 2^8.
pub open spec fn congruent8(a: int, b: int) -> bool {
    congruent(a, b, range8())
}

/// The 8-bit unsigned integer that is congruent to `x`.
pub open spec fn wrap_u8(x: int) -> u8 {
    (x % range8()) as u8
}

/// `wrap_u8(x)` is congruent to `x`, and it is the only such `u8`.
pub proof fn lemma_wrap_u8(x: int)
    ensures
        congruent8(wrap_u8(x) as int, x),
        forall|v: u8| congruent8(v as int, x) ==> v == wrap_u8(x),
{
    lemma_congruent_residue(x, range8());
    assert forall|v: u8| congruent8(v as int, x) implies v == wrap_u8(x) by {
        lemma_unique_u8(v, wrap_u8(x));
    }
}

/// Two 8-bit unsigned integers that are congruent are equal.
pub proof fn lemma_unique_u8(a: u8, b: u8)
    requires
        congruent8(a as int, b as int),
    ensures
        a == b,
{
    lemma_congruent_close(a as int, b as int, range8());
}

/// Wrapping addition is addition, wrapped.
pub proof fn lemma_wrapping_add_u8(a: u8, b: u8)
    ensures
        u8_specs::wrapping_add(a, b) == wrap_u8(a + b),
{
    lemma_congruent_residue(a + b, range8());
    lemma_congruent_residue(a + b - range8(), range8());
    lemma_wrap_u8(a + b);
}

/// Wrapping subtraction is subtraction, wrapped.
pub proof fn lemma_wrapping_sub_u8(a: u8, b: u8)
    ensures
        u8_specs::wrapping_sub(a, b) == wrap_u8(a - b),
{
    lemma_congruent_residue(a - b, range8());
    lemma_congruent_residue(a - b + range8(), range8());
    lemma_wrap_u8(a - b);
}

/// Wrapping multiplication is multiplication, wrapped.
pub proof fn lemma_wrapping_mul_u8(a: u8, b: u8)
    ensures
        u8_specs::wrapping_mul(a, b) == wrap_u8(a * b),
{
    assert(a as nat * b as nat == a * b) by (nonlinear_arith);
    assert(a * b >= 0) by (nonlinear_arith);
}

/// A matrix of 8-bit unsigned integers.
pub type MatrixU8 = Matrix<u8>;

impl Number for u8 {
    open spec fn zero_spec() -> u8 {
        0
    }

    open spec fn one_spec() -> u8 {
        1
    }

    open spec fn plus_spec(self, rhs: u8) -> u8 {
        wrap_u8(self + rhs)
    }

    open spec fn minus_spec(self, rhs: u8) -> u8 {
        wrap_u8(self - rhs)
    }

    open spec fn times_spec(self, rhs: u8) -> u8 {
        wrap_u8(self * rhs)
    }

    open spec fn negated_spec(self) -> u8 {
        wrap_u8(-self)
    }

    open spec fn divisor_spec(self) -> bool {
        self != 0
    }

    open spec fn over_spec(self, rhs: u8) -> u8 {
        (self / rhs) as u8
    }

    fn zero() -> (r: u8) {
        0
    }

    fn one() -> (r: u8) {
        1
    }

    fn plus(self, rhs: u8) -> (r: u8) {
        proof {
            lemma_wrapping_add_u8(self, rhs);
        }
        self.wrapping_add(rhs)
    }

    fn minus(self, rhs: u8) -> (r: u8) {
        proof {
            lemma_wrapping_sub_u8(self, rhs);
        }
        self.wrapping_sub(rhs)
    }

    fn times(self, rhs: u8) -> (r: u8) {
        proof {
            lemma_wrapping_mul_u8(self, rhs);
        }
        self.wrapping_mul(rhs)
    }

    fn negated(self) -> (r: u8) {
        proof {
            lemma_wrapping_sub_u8(0, self);
        }
        0u8.wrapping_sub(self)
    }

    fn over(self, rhs: u8) -> (r: u8) {
        self / rhs
    }

    fn same(self, rhs: u8) -> (r: bool) {
        self == rhs
    }

    proof fn lemma_plus_commutes(a: u8, b: u8) {
    }

    proof fn lemma_plus_associates(a: u8, b: u8, c: u8) {
        lemma_wrap_u8(a + b);
        lemma_wrap_u8(b + c);
        lemma_congruent_plus(wrap_u8(a + b) as int, a + b, c as int, c as int, range8());
        lemma_congruent_plus(a as int, a as int, wrap_u8(b + c) as int, b + c, range8());
        lemma_wrap_u8(wrap_u8(a + b) + c);
        lemma_wrap_u8(a + wrap_u8(b + c));
        lemma_unique_u8(wrap_u8(wrap_u8(a + b) + c), wrap_u8(a + wrap_u8(b + c)));
    }

    proof fn lemma_plus_zero(a: u8) {
        lemma_wrap_u8(a as int);
    }

    proof fn lemma_plus_negated(a: u8) {
        lemma_wrap_u8(-a);
        lemma_congruent_plus(a as int, a as int, wrap_u8(-a) as int, -a, range8());
        lemma_wrap_u8(a + wrap_u8(-a));
        lemma_unique_u8(wrap_u8(a + wrap_u8(-a)), 0);
    }

    proof fn lemma_minus_is_plus_negated(a: u8, b: u8) {
        lemma_wrap_u8(-b);
        lemma_congruent_plus(a as int, a as int, wrap_u8(-b) as int, -b, range8());
        lemma_wrap_u8(a + wrap_u8(-b));
        lemma_wrap_u8(a - b);
        lemma_unique_u8(wrap_u8(a - b), wrap_u8(a + wrap_u8(-b)));
    }

    proof fn lemma_times_commutes(a: u8, b: u8) {
        assert(a * b == b * a) by (nonlinear_arith);
    }

    proof fn lemma_times_associates(a: u8, b: u8, c: u8) {
        lemma_wrap_u8(a * b);
        lemma_wrap_u8(b * c);
        lemma_congruent_times(wrap_u8(a * b) as int, a * b, c as int, c as int, range8());
        lemma_congruent_times(a as int, a as int, wrap_u8(b * c) as int, b * c, range8());
        assert((a * b) * c == a * (b * c)) by (nonlinear_arith);
        lemma_wrap_u8(wrap_u8(a * b) * c);
        lemma_wrap_u8(a * wrap_u8(b * c));
        lemma_unique_u8(wrap_u8(wrap_u8(a * b) * c), wrap_u8(a * wrap_u8(b * c)));
    }

    proof fn lemma_times_one(a: u8) {
        assert(a * 1 == a) by (nonlinear_arith);
        lemma_wrap_u8(a as int);
    }

    proof fn lemma_times_zero(a: u8) {
        assert(a * 0 == 0) by (nonlinear_arith);
    }

    proof fn lemma_times_distributes(a: u8, b: u8, c: u8) {
        lemma_wrap_u8(b + c);
        lemma_wrap_u8(a * b);
        lemma_wrap_u8(a * c);
        lemma_congruent_times(a as int, a as int, wrap_u8(b + c) as int, b + c, range8());
        lemma_congruent_plus(wrap_u8(a * b) as int, a * b, wrap_u8(a * c) as int, a * c, range8());
        assert(a * (b + c) == a * b + a * c) by (nonlinear_arith);
        lemma_wrap_u8(a * wrap_u8(b + c));
        lemma_wrap_u8(wrap_u8(a * b) + wrap_u8(a * c));
        lemma_unique_u8(
            wrap_u8(a * wrap_u8(b + c)),
            wrap_u8(wrap_u8(a * b) + wrap_u8(a * c)),
        );
    }
}

impl Ordered for u8 {
    open spec fn less_spec(self, rhs: u8) -> bool {
        self < rhs
    }

    fn less(self, rhs: u8) -> (r: bool) {
        self < rhs
    }

    proof fn lemma_less_asymmetric(a: u8, b: u8) {
    }

    proof fn lemma_less_transitive(a: u8, b: u8, c: u8) {
    }

    proof fn lemma_less_total(a: u8, b: u8) {
    }
}

} // verus!
