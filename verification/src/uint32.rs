//! 32-bit unsigned integers as matrix elements: arithmetic wraps around.

use vstd::prelude::*;
use vstd::arithmetic::div_mod::*;
use vstd::wrapping::u32_specs;
use crate::number::{Number, Ordered};
use crate::matrix::Matrix;
use crate::modular::{
    congruent, lemma_congruent_close, lemma_congruent_residue, lemma_congruent_plus,
    lemma_congruent_times,
};

verus! {

/// The number of values of a 32-bit integer.
pub open spec fn range32() -> int {
    0x1_0000_0000
}

/// `a` and `b` differ by a multiple of 2^32.
pub open spec fn congruent32(a: int, b: int) -> bool {
    congruent(a, b, range32())
}

/// The 32-bit unsigned integer that is congruent to `x`.
pub open spec fn wrap_u32(x: int) -> u32 {
    (x % range32()) as u32
}

/// `wrap_u32(x)` is congruent to `x`, and it is the only such `u32`.
pub proof fn lemma_wrap_u32(x: int)
    ensures
        congruent32(wrap_u32(x) as int, x),
        forall|v: u32| congruent32(v as int, x) ==> v == wrap_u32(x),
{
    lemma_congruent_residue(x, range32());
    assert forall|v: u32| congruent32(v as int, x) implies v == wrap_u32(x) by {
        lemma_unique_u32(v, wrap_u32(x));
    }
}

/// Two 32-bit unsigned integers that are congruent are equal.
pub proof fn lemma_unique_u32(a: u32, b: u32)
    requires
        congruent32(a as int, b as int),
    ensures
        a == b,
{
    lemma_congruent_close(a as int, b as int, range32());
}

/// Wrapping addition is addition, wrapped.
pub proof fn lemma_wrapping_add_u32(a: u32, b: u32)
    ensures
        u32_specs::wrapping_add(a, b) == wrap_u32(a + b),
{
    lemma_congruent_residue(a + b, range32());
    lemma_congruent_residue(a + b - range32(), range32());
    lemma_wrap_u32(a + b);
}

/// Wrapping subtraction is subtraction, wrapped.
pub proof fn lemma_wrapping_sub_u32(a: u32, b: u32)
    ensures
        u32_specs::wrapping_sub(a, b) == wrap_u32(a - b),
{
    lemma_congruent_residue(a - b, range32());
    lemma_congruent_residue(a - b + range32(), range32());
    lemma_wrap_u32(a - b);
}

/// Wrapping multiplication is multiplication, wrapped.
pub proof fn lemma_wrapping_mul_u32(a: u32, b: u32)
    ensures
        u32_specs::wrapping_mul(a, b) == wrap_u32(a * b),
{
    assert(a as nat * b as nat == a * b) by (nonlinear_arith);
    assert(a * b >= 0) by (nonlinear_arith);
}

/// A matrix of 32-bit unsigned integers.
pub type MatrixU32 = Matrix<u32>;

impl Number for u32 {
    open spec fn zero_spec() -> u32 {
        0
    }

    open spec fn one_spec() -> u32 {
        1
    }

    open spec fn plus_spec(self, rhs: u32) -> u32 {
        wrap_u32(self + rhs)
    }

    open spec fn minus_spec(self, rhs: u32) -> u32 {
        wrap_u32(self - rhs)
    }

    open spec fn times_spec(self, rhs: u32) -> u32 {
        wrap_u32(self * rhs)
    }

    open spec fn negated_spec(self) -> u32 {
        wrap_u32(-self)
    }

    open spec fn divisor_spec(self) -> bool {
        self != 0
    }

    open spec fn over_spec(self, rhs: u32) -> u32 {
        (self / rhs) as u32
    }

    fn zero() -> (r: u32) {
        0
    }

    fn one() -> (r: u32) {
        1
    }

    fn plus(self, rhs: u32) -> (r: u32) {
        proof {
            lemma_wrapping_add_u32(self, rhs);
        }
        self.wrapping_add(rhs)
    }

    fn minus(self, rhs: u32) -> (r: u32) {
        proof {
            lemma_wrapping_sub_u32(self, rhs);
        }
        self.wrapping_sub(rhs)
    }

    fn times(self, rhs: u32) -> (r: u32) {
        proof {
            lemma_wrapping_mul_u32(self, rhs);
        }
        self.wrapping_mul(rhs)
    }

    fn negated(self) -> (r: u32) {
        proof {
            lemma_wrapping_sub_u32(0, self);
        }
        0u32.wrapping_sub(self)
    }

    fn over(self, rhs: u32) -> (r: u32) {
        self / rhs
    }

    fn same(self, rhs: u32) -> (r: bool) {
        self == rhs
    }

    proof fn lemma_plus_commutes(a: u32, b: u32) {
    }

    proof fn lemma_plus_associates(a: u32, b: u32, c: u32) {
        lemma_wrap_u32(a + b);
        lemma_wrap_u32(b + c);
        lemma_congruent_plus(wrap_u32(a + b) as int, a + b, c as int, c as int, range32());
        lemma_congruent_plus(a as int, a as int, wrap_u32(b + c) as int, b + c, range32());
        lemma_wrap_u32(wrap_u32(a + b) + c);
        lemma_wrap_u32(a + wrap_u32(b + c));
        lemma_unique_u32(wrap_u32(wrap_u32(a + b) + c), wrap_u32(a + wrap_u32(b + c)));
    }

    proof fn lemma_plus_zero(a: u32) {
        lemma_wrap_u32(a as int);
    }

    proof fn lemma_plus_negated(a: u32) {
        lemma_wrap_u32(-a);
        lemma_congruent_plus(a as int, a as int, wrap_u32(-a) as int, -a, range32());
        lemma_wrap_u32(a + wrap_u32(-a));
        lemma_unique_u32(wrap_u32(a + wrap_u32(-a)), 0);
    }

    proof fn lemma_minus_is_plus_negated(a: u32, b: u32) {
        lemma_wrap_u32(-b);
        lemma_congruent_plus(a as int, a as int, wrap_u32(-b) as int, -b, range32());
        lemma_wrap_u32(a + wrap_u32(-b));
        lemma_wrap_u32(a - b);
        lemma_unique_u32(wrap_u32(a - b), wrap_u32(a + wrap_u32(-b)));
    }

    proof fn lemma_times_commutes(a: u32, b: u32) {
        assert(a * b == b * a) by (nonlinear_arith);
    }

    proof fn lemma_times_associates(a: u32, b: u32, c: u32) {
        lemma_wrap_u32(a * b);
        lemma_wrap_u32(b * c);
        lemma_congruent_times(wrap_u32(a * b) as int, a * b, c as int, c as int, range32());
        lemma_congruent_times(a as int, a as int, wrap_u32(b * c) as int, b * c, range32());
        assert((a * b) * c == a * (b * c)) by (nonlinear_arith);
        lemma_wrap_u32(wrap_u32(a * b) * c);
        lemma_wrap_u32(a * wrap_u32(b * c));
        lemma_unique_u32(wrap_u32(wrap_u32(a * b) * c), wrap_u32(a * wrap_u32(b * c)));
    }

    proof fn lemma_times_one(a: u32) {
        assert(a * 1 == a) by (nonlinear_arith);
        lemma_wrap_u32(a as int);
    }

    proof fn lemma_times_zero(a: u32) {
        assert(a * 0 == 0) by (nonlinear_arith);
    }

    proof fn lemma_times_distributes(a: u32, b: u32, c: u32) {
        lemma_wrap_u32(b + c);
        lemma_wrap_u32(a * b);
        lemma_wrap_u32(a * c);
        lemma_congruent_times(a as int, a as int, wrap_u32(b + c) as int, b + c, range32());
        lemma_congruent_plus(wrap_u32(a * b) as int, a * b, wrap_u32(a * c) as int, a * c, range32());
        assert(a * (b + c) == a * b + a * c) by (nonlinear_arith);
        lemma_wrap_u32(a * wrap_u32(b + c));
        lemma_wrap_u32(wrap_u32(a * b) + wrap_u32(a * c));
        lemma_unique_u32(
            wrap_u32(a * wrap_u32(b + c)),
            wrap_u32(wrap_u32(a * b) + wrap_u32(a * c)),
        );
    }
}

impl Ordered for u32 {
    open spec fn less_spec(self, rhs: u32) -> bool {
        self < rhs
    }

    fn less(self, rhs: u32) -> (r: bool) {
        self < rhs
    }

    proof fn lemma_less_asymmetric(a: u32, b: u32) {
    }

    proof fn lemma_less_transitive(a: u32, b: u32, c: u32) {
    }

    proof fn lemma_less_total(a: u32, b: u32) {
    }
}

} // verus!
