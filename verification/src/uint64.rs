//! 64-bit unsigned integers as matrix elements: arithmetic wraps around.

use vstd::prelude::*;
use vstd::arithmetic::div_mod::*;
use vstd::wrapping::u64_specs;
use crate::number::{Number, Ordered};
use crate::matrix::Matrix;
use crate::modular::{
    congruent, lemma_congruent_close, lemma_congruent_residue, lemma_congruent_plus,
    lemma_congruent_times,
};

verus! {

/// The number of values of a 64-bit integer.
pub open spec fn range64() -> int {
    0x1_0000_0000_0000_0000
}

/// `a` and `b` differ by a multiple of 2^64.
pub open spec fn congruent64(a: int, b: int) -> bool {
    congruent(a, b, range64())
}

/// The 64-bit unsigned integer that is congruent to `x`.
pub open spec fn wrap_u64(x: int) -> u64 {
    (x % range64()) as u64
}

/// `wrap_u64(x)` is congruent to `x`, and it is the only such `u64`.
pub proof fn lemma_wrap_u64(x: int)
    ensures
        congruent64(wrap_u64(x) as int, x),
        forall|v: u64| congruent64(v as int, x) ==> v == wrap_u64(x),
{
    lemma_congruent_residue(x, range64());
    assert forall|v: u64| congruent64(v as int, x) implies v == wrap_u64(x) by {
        lemma_unique_u64(v, wrap_u64(x));
    }
}

/// Two 64-bit unsigned integers that are congruent are equal.
pub proof fn lemma_unique_u64(a: u64, b: u64)
    requires
        congruent64(a as int, b as int),
    ensures
        a == b,
{
    lemma_congruent_close(a as int, b as int, range64());
}

/// Wrapping addition is addition, wrapped.
pub proof fn lemma_wrapping_add_u64(a: u64, b: u64)
    ensures
        u64_specs::wrapping_add(a, b) == wrap_u64(a + b),
{
    lemma_congruent_residue(a + b, range64());
    lemma_congruent_residue(a + b - range64(), range64());
    lemma_wrap_u64(a + b);
}

/// Wrapping subtraction is subtraction, wrapped.
pub proof fn lemma_wrapping_sub_u64(a: u64, b: u64)
    ensures
        u64_specs::wrapping_sub(a, b) == wrap_u64(a - b),
{
    lemma_congruent_residue(a - b, range64());
    lemma_congruent_residue(a - b + range64(), range64());
    lemma_wrap_u64(a - b);
}

/// Wrapping multiplication is multiplication, wrapped.
pub proof fn lemma_wrapping_mul_u64(a: u64, b: u64)
    ensures
        u64_specs::wrapping_mul(a, b) == wrap_u64(a * b),
{
    assert(a as nat * b as nat == a * b) by (nonlinear_arith);
    assert(a * b >= 0) by (nonlinear_arith);
}

/// A matrix of 64-bit unsigned integers.
pub type MatrixU64 = Matrix<u64>;

impl Number for u64 {
    open spec fn zero_spec() -> u64 {
        0
    }

    open spec fn one_spec() -> u64 {
        1
    }

    open spec fn plus_spec(self, rhs: u64) -> u64 {
        wrap_u64(self + rhs)
    }

    open spec fn minus_spec(self, rhs: u64) -> u64 {
        wrap_u64(self - rhs)
    }

    open spec fn times_spec(self, rhs: u64) -> u64 {
        wrap_u64(self * rhs)
    }

    open spec fn negated_spec(self) -> u64 {
        wrap_u64(-self)
    }

    open spec fn divisor_spec(self) -> bool {
        self != 0
    }

    open spec fn over_spec(self, rhs: u64) -> u64 {
        (self / rhs) as u64
    }

    fn zero() -> (r: u64) {
        0
    }

    fn one() -> (r: u64) {
        1
    }

    fn plus(self, rhs: u64) -> (r: u64) {
        proof {
            lemma_wrapping_add_u64(self, rhs);
        }
        self.wrapping_add(rhs)
    }

    fn minus(self, rhs: u64) -> (r: u64) {
        proof {
            lemma_wrapping_sub_u64(self, rhs);
        }
        self.wrapping_sub(rhs)
    }

    fn times(self, rhs: u64) -> (r: u64) {
        proof {
            lemma_wrapping_mul_u64(self, rhs);
        }
        self.wrapping_mul(rhs)
    }

    fn negated(self) -> (r: u64) {
        proof {
            lemma_wrapping_sub_u64(0, self);
        }
        0u64.wrapping_sub(self)
    }

    fn over(self, rhs: u64) -> (r: u64) {
        self / rhs
    }

    fn same(self, rhs: u64) -> (r: bool) {
        self == rhs
    }

    proof fn lemma_plus_commutes(a: u64, b: u64) {
    }

    proof fn lemma_plus_associates(a: u64, b: u64, c: u64) {
        lemma_wrap_u64(a + b);
        lemma_wrap_u64(b + c);
        lemma_congruent_plus(wrap_u64(a + b) as int, a + b, c as int, c as int, range64());
        lemma_congruent_plus(a as int, a as int, wrap_u64(b + c) as int, b + c, range64());
        lemma_wrap_u64(wrap_u64(a + b) + c);
        lemma_wrap_u64(a + wrap_u64(b + c));
        lemma_unique_u64(wrap_u64(wrap_u64(a + b) + c), wrap_u64(a + wrap_u64(b + c)));
    }

    proof fn lemma_plus_zero(a: u64) {
        lemma_wrap_u64(a as int);
    }

    proof fn lemma_plus_negated(a: u64) {
        lemma_wrap_u64(-a);
        lemma_congruent_plus(a as int, a as int, wrap_u64(-a) as int, -a, range64());
        lemma_wrap_u64(a + wrap_u64(-a));
        lemma_unique_u64(wrap_u64(a + wrap_u64(-a)), 0);
    }

    proof fn lemma_minus_is_plus_negated(a: u64, b: u64) {
        lemma_wrap_u64(-b);
        lemma_congruent_plus(a as int, a as int, wrap_u64(-b) as int, -b, range64());
        lemma_wrap_u64(a + wrap_u64(-b));
        lemma_wrap_u64(a - b);
        lemma_unique_u64(wrap_u64(a - b), wrap_u64(a + wrap_u64(-b)));
    }

    proof fn lemma_times_commutes(a: u64, b: u64) {
        assert(a * b == b * a) by (nonlinear_arith);
    }

    proof fn lemma_times_associates(a: u64, b: u64, c: u64) {
        lemma_wrap_u64(a * b);
        lemma_wrap_u64(b * c);
        lemma_congruent_times(wrap_u64(a * b) as int, a * b, c as int, c as int, range64());
        lemma_congruent_times(a as int, a as int, wrap_u64(b * c) as int, b * c, range64());
        assert((a * b) * c == a * (b * c)) by (nonlinear_arith);
        lemma_wrap_u64(wrap_u64(a * b) * c);
        lemma_wrap_u64(a * wrap_u64(b * c));
        lemma_unique_u64(wrap_u64(wrap_u64(a * b) * c), wrap_u64(a * wrap_u64(b * c)));
    }

    proof fn lemma_times_one(a: u64) {
        assert(a * 1 == a) by (nonlinear_arith);
        lemma_wrap_u64(a as int);
    }

    proof fn lemma_times_zero(a: u64) {
        assert(a * 0 == 0) by (nonlinear_arith);
    }

    proof fn lemma_times_distributes(a: u64, b: u64, c: u64) {
        lemma_wrap_u64(b + c);
        lemma_wrap_u64(a * b);
        lemma_wrap_u64(a * c);
        lemma_congruent_times(a as int, a as int, wrap_u64(b + c) as int, b + c, range64());
        lemma_congruent_plus(wrap_u64(a * b) as int, a * b, wrap_u64(a * c) as int, a * c, range64());
        assert(a * (b + c) == a * b + a * c) by (nonlinear_arith);
        lemma_wrap_u64(a * wrap_u64(b + c));
        lemma_wrap_u64(wrap_u64(a * b) + wrap_u64(a * c));
        lemma_unique_u64(
            wrap_u64(a * wrap_u64(b + c)),
            wrap_u64(wrap_u64(a * b) + wrap_u64(a * c)),
        );
    }
}

impl Ordered for u64 {
    open spec fn less_spec(self, rhs: u64) -> bool {
        self < rhs
    }

    fn less(self, rhs: u64) -> (r: bool) {
        self < rhs
    }

    proof fn lemma_less_asymmetric(a: u64, b: u64) {
    }

    proof fn lemma_less_transitive(a: u64, b: u64, c: u64) {
    }

    proof fn lemma_less_total(a: u64, b: u64) {
    }
}

} // verus!
