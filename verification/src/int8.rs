//! 8-bit signed integers as matrix elements: arithmetic wraps around.

use vstd::prelude::*;
use vstd::arithmetic::div_mod::*;
use vstd::wrapping::i8_specs;
use crate::number::{Number, Ordered, Signed};
use crate::matrix::Matrix;
use crate::modular::{
    congruent, lemma_congruent_close, lemma_congruent_residue, lemma_congruent_plus,
    lemma_congruent_times,
};

verus! {

/// The number of values of a 8-bit integer.
pub open spec fn range8() -> int {
    0x100
}

/// `a` and `b` differ by a multiple of 2^8.
pub open spec fn congruent8(a: int, b: int) -> bool {
    congruent(a, b, range8())
}

/// The 8-bit signed integer that is congruent to `x`.
pub open spec fn wrap_i8(x: int) -> i8 {
    i8_specs::signed_crop(x)
}

/// `wrap_i8(x)` is congruent to `x`, and it is the only such `i8`.
pub proof fn lemma_wrap_i8(x: int)
    ensures
        congruent8(wrap_i8(x) as int, x),
        forall|v: i8| congruent8(v as int, x) ==> v == wrap_i8(x),
{
    lemma_congruent_residue(x, range8());
    assert forall|v: i8| congruent8(v as int, x) implies v == wrap_i8(x) by {
        lemma_unique_i8(v, wrap_i8(x));
    }
}

/// Two 8-bit signed integers that are congruent are equal.
pub proof fn lemma_unique_i8(a: i8, b: i8)
    requires
        congruent8(a as int, b as int),
    ensures
        a == b,
{
    lemma_congruent_close(a as int, b as int, range8());
}

/// Wrapping addition is addition, wrapped.
pub proof fn lemma_wrapping_add_i8(a: i8, b: i8)
    ensures
        i8_specs::wrapping_add(a, b) == wrap_i8(a + b),
{
    lemma_congruent_residue(a + b, range8());
    lemma_wrap_i8(a + b);
}

/// Wrapping subtraction is subtraction, wrapped.
pub proof fn lemma_wrapping_sub_i8(a: i8, b: i8)
    ensures
        i8_specs::wrapping_sub(a, b) == wrap_i8(a - b),
{
    lemma_congruent_residue(a - b, range8());
    lemma_wrap_i8(a - b);
}

/// Integer division that rounds toward zero, for a divisor other than zero.
pub open spec fn truncated_quotient(a: int, b: int) -> int {
    if a >= 0 && b > 0 {
        a / b
    } else if a >= 0 {
        -(a / (-b))
    } else if b > 0 {
        -((-a) / b)
    } else {
        (-a) / (-b)
    }
}

/// A matrix of 8-bit signed integers.
pub type MatrixI8 = Matrix<i8>;

impl Number for i8 {
    open spec fn zero_spec() -> i8 {
        0
    }

    open spec fn one_spec() -> i8 {
        1
    }

    open spec fn plus_spec(self, rhs: i8) -> i8 {
        wrap_i8(self + rhs)
    }

    open spec fn minus_spec(self, rhs: i8) -> i8 {
        wrap_i8(self - rhs)
    }

    open spec fn times_spec(self, rhs: i8) -> i8 {
        wrap_i8(self * rhs)
    }

    open spec fn negated_spec(self) -> i8 {
        wrap_i8(-self)
    }

    open spec fn divisor_spec(self) -> bool {
        self != 0
    }

    open spec fn over_spec(self, rhs: i8) -> i8 {
        wrap_i8(truncated_quotient(self as int, rhs as int))
    }

    fn zero() -> (r: i8) {
        0
    }

    fn one() -> (r: i8) {
        1
    }

    fn plus(self, rhs: i8) -> (r: i8) {
        proof {
            lemma_wrapping_add_i8(self, rhs);
        }
        self.wrapping_add(rhs)
    }

    fn minus(self, rhs: i8) -> (r: i8) {
        proof {
            lemma_wrapping_sub_i8(self, rhs);
        }
        self.wrapping_sub(rhs)
    }

    fn times(self, rhs: i8) -> (r: i8) {
        self.wrapping_mul(rhs)
    }

    fn negated(self) -> (r: i8) {
        proof {
            lemma_wrapping_sub_i8(0, self);
        }
        0i8.wrapping_sub(self)
    }

    fn over(self, rhs: i8) -> (r: i8) {
        proof {
            lemma_wrap_i8(truncated_quotient(self as int, rhs as int));
        }
        if rhs > 0 {
            self / rhs
        } else if rhs == i8::MIN {
            proof {
                if self >= 0 {
                    lemma_basic_div(self as int, -(rhs as int));
                } else if self != i8::MIN {
                    lemma_basic_div(-(self as int), -(rhs as int));
                } else {
                    lemma_div_by_self(-(rhs as int));
                }
            }
            if self == i8::MIN {
                1
            } else {
                0
            }
        } else if rhs == -1 {
            proof {
                lemma_wrapping_sub_i8(0, self);
                lemma_div_basics(self as int);
                lemma_div_basics(-(self as int));
            }
            0i8.wrapping_sub(self)
        } else {
            let q: i8 = self / (-rhs);
            proof {
                let d = -(rhs as int);
                if self > 0 {
                    lemma_div_decreases(self as int, d);
                } else if self < 0 {
                    lemma_div_decreases(-(self as int), d);
                    lemma_div_pos_is_pos(-(self as int), d);
                }
            }
            -q
        }
    }

    fn same(self, rhs: i8) -> (r: bool) {
        self == rhs
    }

    proof fn lemma_plus_commutes(a: i8, b: i8) {
    }

    proof fn lemma_plus_associates(a: i8, b: i8, c: i8) {
        lemma_wrap_i8(a + b);
        lemma_wrap_i8(b + c);
        lemma_congruent_plus(wrap_i8(a + b) as int, a + b, c as int, c as int, range8());
        lemma_congruent_plus(a as int, a as int, wrap_i8(b + c) as int, b + c, range8());
        lemma_wrap_i8(wrap_i8(a + b) + c);
        lemma_wrap_i8(a + wrap_i8(b + c));
        lemma_unique_i8(wrap_i8(wrap_i8(a + b) + c), wrap_i8(a + wrap_i8(b + c)));
    }

    proof fn lemma_plus_zero(a: i8) {
        lemma_wrap_i8(a as int);
    }

    proof fn lemma_plus_negated(a: i8) {
        lemma_wrap_i8(-a);
        lemma_congruent_plus(a as int, a as int, wrap_i8(-a) as int, -a, range8());
        lemma_wrap_i8(a + wrap_i8(-a));
        lemma_unique_i8(wrap_i8(a + wrap_i8(-a)), 0);
    }

    proof fn lemma_minus_is_plus_negated(a: i8, b: i8) {
        lemma_wrap_i8(-b);
        lemma_congruent_plus(a as int, a as int, wrap_i8(-b) as int, -b, range8());
        lemma_wrap_i8(a + wrap_i8(-b));
        lemma_wrap_i8(a - b);
        lemma_unique_i8(wrap_i8(a - b), wrap_i8(a + wrap_i8(-b)));
    }

    proof fn lemma_times_commutes(a: i8, b: i8) {
        assert(a * b == b * a) by (nonlinear_arith);
    }

    proof fn lemma_times_associates(a: i8, b: i8, c: i8) {
        lemma_wrap_i8(a * b);
        lemma_wrap_i8(b * c);
        lemma_congruent_times(wrap_i8(a * b) as int, a * b, c as int, c as int, range8());
        lemma_congruent_times(a as int, a as int, wrap_i8(b * c) as int, b * c, range8());
        assert((a * b) * c == a * (b * c)) by (nonlinear_arith);
        lemma_wrap_i8(wrap_i8(a * b) * c);
        lemma_wrap_i8(a * wrap_i8(b * c));
        lemma_unique_i8(wrap_i8(wrap_i8(a * b) * c), wrap_i8(a * wrap_i8(b * c)));
    }

    proof fn lemma_times_one(a: i8) {
        assert(a * 1 == a) by (nonlinear_arith);
        lemma_wrap_i8(a as int);
    }

    proof fn lemma_times_zero(a: i8) {
        assert(a * 0 == 0) by (nonlinear_arith);
    }

    proof fn lemma_times_distributes(a: i8, b: i8, c: i8) {
        lemma_wrap_i8(b + c);
        lemma_wrap_i8(a * b);
        lemma_wrap_i8(a * c);
        lemma_congruent_times(a as int, a as int, wrap_i8(b + c) as int, b + c, range8());
        lemma_congruent_plus(wrap_i8(a * b) as int, a * b, wrap_i8(a * c) as int, a * c, range8());
        assert(a * (b + c) == a * b + a * c) by (nonlinear_arith);
        lemma_wrap_i8(a * wrap_i8(b + c));
        lemma_wrap_i8(wrap_i8(a * b) + wrap_i8(a * c));
        lemma_unique_i8(
            wrap_i8(a * wrap_i8(b + c)),
            wrap_i8(wrap_i8(a * b) + wrap_i8(a * c)),
        );
    }
}

impl Ordered for i8 {
    open spec fn less_spec(self, rhs: i8) -> bool {
        self < rhs
    }

    fn less(self, rhs: i8) -> (r: bool) {
        self < rhs
    }

    proof fn lemma_less_asymmetric(a: i8, b: i8) {
    }

    proof fn lemma_less_transitive(a: i8, b: i8, c: i8) {
    }

    proof fn lemma_less_total(a: i8, b: i8) {
    }
}

impl Signed for i8 {
    /// The absolute value. That of the least `i8`, which has none among the
    /// `i8`, is the least `i8` itself.
    open spec fn magnitude_spec(self) -> i8 {
        if self < 0 {
            wrap_i8(-self)
        } else {
            self
        }
    }

    fn magnitude(self) -> (r: i8) {
        if self < 0 {
            self.negated()
        } else {
            self
        }
    }
}

} // verus!
