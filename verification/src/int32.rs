//! 32-bit signed integers as matrix elements: arithmetic wraps around.

use vstd::prelude::*;
use vstd::arithmetic::div_mod::*;
use vstd::wrapping::i32_specs;
use crate::number::{Number, Ordered, Signed};
use crate::matrix::Matrix;
use crate::modular::{
    congruent, lemma_congruent_close, lemma_congruent_residue, lemma_congruent_plus,
    lemma_congruent_times,
};

verus! {

/// The number of values of a 32-bit integer.
pub open spec fn range32() -> int {
    0x1_0000_0000
}

/// `a` and `b` differ by a multiple of 2^32.
pub open spec fn congruent32(a: int, b: int) -> bool {
    congruent(a, b, range32())
}

/// The 32-bit signed integer that is congruent to `x`.
pub open spec fn wrap_i32(x: int) -> i32 {
    i32_specs::signed_crop(x)
}

/// `wrap_i32(x)` is congruent to `x`, and it is the only such `i32`.
pub proof fn lemma_wrap_i32(x: int)
    ensures
        congruent32(wrap_i32(x) as int, x),
        forall|v: i32| congruent32(v as int, x) ==> v == wrap_i32(x),
{
    lemma_congruent_residue(x, range32());
    assert forall|v: i32| congruent32(v as int, x) implies v == wrap_i32(x) by {
        lemma_unique_i32(v, wrap_i32(x));
    }
}

/// Two 32-bit signed integers that are congruent are equal.
pub proof fn lemma_unique_i32(a: i32, b: i32)
    requires
        congruent32(a as int, b as int),
    ensures
        a == b,
{
    lemma_congruent_close(a as int, b as int, range32());
}

/// Wrapping addition is addition, wrapped.
pub proof fn lemma_wrapping_add_i32(a: i32, b: i32)
    ensures
        i32_specs::wrapping_add(a, b) == wrap_i32(a + b),
{
    lemma_congruent_residue(a + b, range32());
    lemma_wrap_i32(a + b);
}

/// Wrapping subtraction is subtraction, wrapped.
pub proof fn lemma_wrapping_sub_i32(a: i32, b: i32)
    ensures
        i32_specs::wrapping_sub(a, b) == wrap_i32(a - b),
{
    lemma_congruent_residue(a - b, range32());
    lemma_wrap_i32(a - b);
}

/// Integer division that rounds toward zero, for a divisor other than zero.
pub open spec fn truncated_quotient(a: int, b: int) -> int {
    if a >= 0 && b > 0 {
        a / b
    } else if a >= 0 {
        -(a / (-b))
    } else if b > 0 {
        -((-a) / b)
    } else {
        (-a) / (-b)
    }
}

/// A matrix of 32-bit signed integers.
pub type MatrixI32 = Matrix<i32>;

impl Number for i32 {
    open spec fn zero_spec() -> i32 {
        0
    }

    open spec fn one_spec() -> i32 {
        1
    }

    open spec fn plus_spec(self, rhs: i32) -> i32 {
        wrap_i32(self + rhs)
    }

    open spec fn minus_spec(self, rhs: i32) -> i32 {
        wrap_i32(self - rhs)
    }

    open spec fn times_spec(self, rhs: i32) -> i32 {
        wrap_i32(self * rhs)
    }

    open spec fn negated_spec(self) -> i32 {
        wrap_i32(-self)
    }

    open spec fn divisor_spec(self) -> bool {
        self != 0
    }

    open spec fn over_spec(self, rhs: i32) -> i32 {
        wrap_i32(truncated_quotient(self as int, rhs as int))
    }

    fn zero() -> (r: i32) {
        0
    }

    fn one() -> (r: i32) {
        1
    }

    fn plus(self, rhs: i32) -> (r: i32) {
        proof {
            lemma_wrapping_add_i32(self, rhs);
        }
        self.wrapping_add(rhs)
    }

    fn minus(self, rhs: i32) -> (r: i32) {
        proof {
            lemma_wrapping_sub_i32(self, rhs);
        }
        self.wrapping_sub(rhs)
    }

    fn times(self, rhs: i32) -> (r: i32) {
        self.wrapping_mul(rhs)
    }

    fn negated(self) -> (r: i32) {
        proof {
            lemma_wrapping_sub_i32(0, self);
        }
        0i32.wrapping_sub(self)
    }

    fn over(self, rhs: i32) -> (r: i32) {
        proof {
            lemma_wrap_i32(truncated_quotient(self as int, rhs as int));
        }
        if rhs > 0 {
            self / rhs
        } else if rhs == i32::MIN {
            proof {
                if self >= 0 {
                    lemma_basic_div(self as int, -(rhs as int));
                } else if self != i32::MIN {
                    lemma_basic_div(-(self as int), -(rhs as int));
                } else {
                    lemma_div_by_self(-(rhs as int));
                }
            }
            if self == i32::MIN {
                1
            } else {
                0
            }
        } else if rhs == -1 {
            proof {
                lemma_wrapping_sub_i32(0, self);
                lemma_div_basics(self as int);
                lemma_div_basics(-(self as int));
            }
            0i32.wrapping_sub(self)
        } else {
            let q: i32 = self / (-rhs);
            proof {
                let d = -(rhs as int);
                if self > 0 {
                    lemma_div_decreases(self as int, d);
                } else if self < 0 {
                    lemma_div_decreases(-(self as int), d);
                    lemma_div_pos_is_pos(-(self as int), d);
                }
            }
            -q
        }
    }

    fn same(self, rhs: i32) -> (r: bool) {
        self == rhs
    }

    proof fn lemma_plus_commutes(a: i32, b: i32) {
    }

    proof fn lemma_plus_associates(a: i32, b: i32, c: i32) {
        lemma_wrap_i32(a + b);
        lemma_wrap_i32(b + c);
        lemma_congruent_plus(wrap_i32(a + b) as int, a + b, c as int, c as int, range32());
        lemma_congruent_plus(a as int, a as int, wrap_i32(b + c) as int, b + c, range32());
        lemma_wrap_i32(wrap_i32(a + b) + c);
        lemma_wrap_i32(a + wrap_i32(b + c));
        lemma_unique_i32(wrap_i32(wrap_i32(a + b) + c), wrap_i32(a + wrap_i32(b + c)));
    }

    proof fn lemma_plus_zero(a: i32) {
        lemma_wrap_i32(a as int);
    }

    proof fn lemma_plus_negated(a: i32) {
        lemma_wrap_i32(-a);
        lemma_congruent_plus(a as int, a as int, wrap_i32(-a) as int, -a, range32());
        lemma_wrap_i32(a + wrap_i32(-a));
        lemma_unique_i32(wrap_i32(a + wrap_i32(-a)), 0);
    }

    proof fn lemma_minus_is_plus_negated(a: i32, b: i32) {
        lemma_wrap_i32(-b);
        lemma_congruent_plus(a as int, a as int, wrap_i32(-b) as int, -b, range32());
        lemma_wrap_i32(a + wrap_i32(-b));
        lemma_wrap_i32(a - b);
        lemma_unique_i32(wrap_i32(a - b), wrap_i32(a + wrap_i32(-b)));
    }

    proof fn lemma_times_commutes(a: i32, b: i32) {
        assert(a * b == b * a) by (nonlinear_arith);
    }

    proof fn lemma_times_associates(a: i32, b: i32, c: i32) {
        lemma_wrap_i32(a * b);
        lemma_wrap_i32(b * c);
        lemma_congruent_times(wrap_i32(a * b) as int, a * b, c as int, c as int, range32());
        lemma_congruent_times(a as int, a as int, wrap_i32(b * c) as int, b * c, range32());
        assert((a * b) * c == a * (b * c)) by (nonlinear_arith);
        lemma_wrap_i32(wrap_i32(a * b) * c);
        lemma_wrap_i32(a * wrap_i32(b * c));
        lemma_unique_i32(wrap_i32(wrap_i32(a * b) * c), wrap_i32(a * wrap_i32(b * c)));
    }

    proof fn lemma_times_one(a: i32) {
        assert(a * 1 == a) by (nonlinear_arith);
        lemma_wrap_i32(a as int);
    }

    proof fn lemma_times_zero(a: i32) {
        assert(a * 0 == 0) by (nonlinear_arith);
    }

    proof fn lemma_times_distributes(a: i32, b: i32, c: i32) {
        lemma_wrap_i32(b + c);
        lemma_wrap_i32(a * b);
        lemma_wrap_i32(a * c);
        lemma_congruent_times(a as int, a as int, wrap_i32(b + c) as int, b + c, range32());
        lemma_congruent_plus(wrap_i32(a * b) as int, a * b, wrap_i32(a * c) as int, a * c, range32());
        assert(a * (b + c) == a * b + a * c) by (nonlinear_arith);
        lemma_wrap_i32(a * wrap_i32(b + c));
        lemma_wrap_i32(wrap_i32(a * b) + wrap_i32(a * c));
        lemma_unique_i32(
            wrap_i32(a * wrap_i32(b + c)),
            wrap_i32(wrap_i32(a * b) + wrap_i32(a * c)),
        );
    }
}

impl Ordered for i32 {
    open spec fn less_spec(self, rhs: i32) -> bool {
        self < rhs
    }

    fn less(self, rhs: i32) -> (r: bool) {
        self < rhs
    }

    proof fn lemma_less_asymmetric(a: i32, b: i32) {
    }

    proof fn lemma_less_transitive(a: i32, b: i32, c: i32) {
    }

    proof fn lemma_less_total(a: i32, b: i32) {
    }
}

impl Signed for i32 {
    /// The absolute value. That of the least `i32`, which has none among the
    /// `i32`, is the least `i32` itself.
    open spec fn magnitude_spec(self) -> i32 {
        if self < 0 {
            wrap_i32(-self)
        } else {
            self
        }
    }

    fn magnitude(self) -> (r: i32) {
        if self < 0 {
            self.negated()
        } else {
            self
        }
    }
}

} // verus!
