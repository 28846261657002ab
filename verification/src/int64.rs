//! 64-bit signed integers as matrix elements: arithmetic wraps around.

use vstd::prelude::*;
use vstd::arithmetic::div_mod::*;
use vstd::wrapping::i64_specs;
use crate::number::{Number, Ordered, Signed};
use crate::matrix::Matrix;
use crate::modular::{
    congruent, lemma_congruent_close, lemma_congruent_residue, lemma_congruent_plus,
    lemma_congruent_times,
};

verus! {

/// The number of values of a 64-bit integer.
pub open spec fn range64() -> int {
    0x1_0000_0000_0000_0000
}

/// `a` and `b` differ by a multiple of 2^64.
pub open spec fn congruent64(a: int, b: int) -> bool {
    congruent(a, b, range64())
}

/// The 64-bit signed integer that is congruent to `x`.
pub open spec fn wrap_i64(x: int) -> i64 {
    i64_specs::signed_crop(x)
}

/// `wrap_i64(x)` is congruent to `x`, and it is the only such `i64`.
pub proof fn lemma_wrap_i64(x: int)
    ensures
        congruent64(wrap_i64(x) as int, x),
        forall|v: i64| congruent64(v as int, x) ==> v == wrap_i64(x),
{
    lemma_congruent_residue(x, range64());
    assert forall|v: i64| congruent64(v as int, x) implies v == wrap_i64(x) by {
        lemma_unique_i64(v, wrap_i64(x));
    }
}

/// Two 64-bit signed integers that are congruent are equal.
pub proof fn lemma_unique_i64(a: i64, b: i64)
    requires
        congruent64(a as int, b as int),
    ensures
        a == b,
{
    lemma_congruent_close(a as int, b as int, range64());
}

/// Wrapping addition is addition, wrapped.
pub proof fn lemma_wrapping_add_i64(a: i64, b: i64)
    ensures
        i64_specs::wrapping_add(a, b) == wrap_i64(a + b),
{
    lemma_congruent_residue(a + b, range64());
    lemma_wrap_i64(a + b);
}

/// Wrapping subtraction is subtraction, wrapped.
pub proof fn lemma_wrapping_sub_i64(a: i64, b: i64)
    ensures
        i64_specs::wrapping_sub(a, b) == wrap_i64(a - b),
{
    lemma_congruent_residue(a - b, range64());
    lemma_wrap_i64(a - b);
}

/// Integer division that rounds toward zero, for a divisor other than zero.
pub open spec fn truncated_quotient(a: int, b: int) -> int {
    if a >= 0 && b > 0 {
        a / b
    } else if a >= 0 {
        -(a / (-b))
    } else if b > 0 {
        -((-a) / b)
    } else {
        (-a) / (-b)
    }
}

/// A matrix of 64-bit signed integers.
pub type MatrixI64 = Matrix<i64>;

impl Number for i64 {
    open spec fn zero_spec() -> i64 {
        0
    }

    open spec fn one_spec() -> i64 {
        1
    }

    open spec fn plus_spec(self, rhs: i64) -> i64 {
        wrap_i64(self + rhs)
    }

    open spec fn minus_spec(self, rhs: i64) -> i64 {
        wrap_i64(self - rhs)
    }

    open spec fn times_spec(self, rhs: i64) -> i64 {
        wrap_i64(self * rhs)
    }

    open spec fn negated_spec(self) -> i64 {
        wrap_i64(-self)
    }

    open spec fn divisor_spec(self) -> bool {
        self != 0
    }

    open spec fn over_spec(self, rhs: i64) -> i64 {
        wrap_i64(truncated_quotient(self as int, rhs as int))
    }

    fn zero() -> (r: i64) {
        0
    }

    fn one() -> (r: i64) {
        1
    }

    fn plus(self, rhs: i64) -> (r: i64) {
        proof {
            lemma_wrapping_add_i64(self, rhs);
        }
        self.wrapping_add(rhs)
    }

    fn minus(self, rhs: i64) -> (r: i64) {
        proof {
            lemma_wrapping_sub_i64(self, rhs);
        }
        self.wrapping_sub(rhs)
    }

    fn times(self, rhs: i64) -> (r: i64) {
        self.wrapping_mul(rhs)
    }

    fn negated(self) -> (r: i64) {
        proof {
            lemma_wrapping_sub_i64(0, self);
        }
        0i64.wrapping_sub(self)
    }

    fn over(self, rhs: i64) -> (r: i64) {
        proof {
            lemma_wrap_i64(truncated_quotient(self as int, rhs as int));
        }
        if rhs > 0 {
            self / rhs
        } else if rhs == i64::MIN {
            proof {
                if self >= 0 {
                    lemma_basic_div(self as int, -(rhs as int));
                } else if self != i64::MIN {
                    lemma_basic_div(-(self as int), -(rhs as int));
                } else {
                    lemma_div_by_self(-(rhs as int));
                }
            }
            if self == i64::MIN {
                1
            } else {
                0
            }
        } else if rhs == -1 {
            proof {
                lemma_wrapping_sub_i64(0, self);
                lemma_div_basics(self as int);
                lemma_div_basics(-(self as int));
            }
            0i64.wrapping_sub(self)
        } else {
            let q: i64 = self / (-rhs);
            proof {
                let d = -(rhs as int);
                if self > 0 {
                    lemma_div_decreases(self as int, d);
                } else if self < 0 {
                    lemma_div_decreases(-(self as int), d);
                    lemma_div_pos_is_pos(-(self as int), d);
                }
            }
            -q
        }
    }

    fn same(self, rhs: i64) -> (r: bool) {
        self == rhs
    }

    proof fn lemma_plus_commutes(a: i64, b: i64) {
    }

    proof fn lemma_plus_associates(a: i64, b: i64, c: i64) {
        lemma_wrap_i64(a + b);
        lemma_wrap_i64(b + c);
        lemma_congruent_plus(wrap_i64(a + b) as int, a + b, c as int, c as int, range64());
        lemma_congruent_plus(a as int, a as int, wrap_i64(b + c) as int, b + c, range64());
        lemma_wrap_i64(wrap_i64(a + b) + c);
        lemma_wrap_i64(a + wrap_i64(b + c));
        lemma_unique_i64(wrap_i64(wrap_i64(a + b) + c), wrap_i64(a + wrap_i64(b + c)));
    }

    proof fn lemma_plus_zero(a: i64) {
        lemma_wrap_i64(a as int);
    }

    proof fn lemma_plus_negated(a: i64) {
        lemma_wrap_i64(-a);
        lemma_congruent_plus(a as int, a as int, wrap_i64(-a) as int, -a, range64());
        lemma_wrap_i64(a + wrap_i64(-a));
        lemma_unique_i64(wrap_i64(a + wrap_i64(-a)), 0);
    }

    proof fn lemma_minus_is_plus_negated(a: i64, b: i64) {
        lemma_wrap_i64(-b);
        lemma_congruent_plus(a as int, a as int, wrap_i64(-b) as int, -b, range64());
        lemma_wrap_i64(a + wrap_i64(-b));
        lemma_wrap_i64(a - b);
        lemma_unique_i64(wrap_i64(a - b), wrap_i64(a + wrap_i64(-b)));
    }

    proof fn lemma_times_commutes(a: i64, b: i64) {
        assert(a * b == b * a) by (nonlinear_arith);
    }

    proof fn lemma_times_associates(a: i64, b: i64, c: i64) {
        lemma_wrap_i64(a * b);
        lemma_wrap_i64(b * c);
        lemma_congruent_times(wrap_i64(a * b) as int, a * b, c as int, c as int, range64());
        lemma_congruent_times(a as int, a as int, wrap_i64(b * c) as int, b * c, range64());
        assert((a * b) * c == a * (b * c)) by (nonlinear_arith);
        lemma_wrap_i64(wrap_i64(a * b) * c);
        lemma_wrap_i64(a * wrap_i64(b * c));
        lemma_unique_i64(wrap_i64(wrap_i64(a * b) * c), wrap_i64(a * wrap_i64(b * c)));
    }

    proof fn lemma_times_one(a: i64) {
        assert(a * 1 == a) by (nonlinear_arith);
        lemma_wrap_i64(a as int);
    }

    proof fn lemma_times_zero(a: i64) {
        assert(a * 0 == 0) by (nonlinear_arith);
    }

    proof fn lemma_times_distributes(a: i64, b: i64, c: i64) {
        lemma_wrap_i64(b + c);
        lemma_wrap_i64(a * b);
        lemma_wrap_i64(a * c);
        lemma_congruent_times(a as int, a as int, wrap_i64(b + c) as int, b + c, range64());
        lemma_congruent_plus(wrap_i64(a * b) as int, a * b, wrap_i64(a * c) as int, a * c, range64());
        assert(a * (b + c) == a * b + a * c) by (nonlinear_arith);
        lemma_wrap_i64(a * wrap_i64(b + c));
        lemma_wrap_i64(wrap_i64(a * b) + wrap_i64(a * c));
        lemma_unique_i64(
            wrap_i64(a * wrap_i64(b + c)),
            wrap_i64(wrap_i64(a * b) + wrap_i64(a * c)),
        );
    }
}

impl Ordered for i64 {
    open spec fn less_spec(self, rhs: i64) -> bool {
        self < rhs
    }

    fn less(self, rhs: i64) -> (r: bool) {
        self < rhs
    }

    proof fn lemma_less_asymmetric(a: i64, b: i64) {
    }

    proof fn lemma_less_transitive(a: i64, b: i64, c: i64) {
    }

    proof fn lemma_less_total(a: i64, b: i64) {
    }
}

impl Signed for i64 {
    /// The absolute value. That of the least `i64`, which has none among the
    /// `i64`, is the least `i64` itself.
    open spec fn magnitude_spec(self) -> i64 {
        if self < 0 {
            wrap_i64(-self)
        } else {
            self
        }
    }

    fn magnitude(self) -> (r: i64) {
        if self < 0 {
            self.negated()
        } else {
            self
        }
    }
}

} // verus!
