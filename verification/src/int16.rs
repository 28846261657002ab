//! 16-bit signed integers as matrix elements: arithmetic wraps around.

use vstd::prelude::*;
use vstd::arithmetic::div_mod::*;
use vstd::wrapping::i16_specs;
use crate::number::{Number, Ordered, Signed};
use crate::matrix::Matrix;
use crate::modular::{
    congruent, lemma_congruent_close, lemma_congruent_residue, lemma_congruent_plus,
    lemma_congruent_times,
};

verus! {

/// The number of values of a 16-bit integer.
pub open spec fn range16() -> int {
    0x1_0000
}

/// `a` and `b` differ by a multiple of 2^16.
pub open spec fn congruent16(a: int, b: int) -> bool {
    congruent(a, b, range16())
}

/// The 16-bit signed integer that is congruent to `x`.
pub open spec fn wrap_i16(x: int) -> i16 {
    i16_specs::signed_crop(x)
}

/// `wrap_i16(x)` is congruent to `x`, and it is the only such `i16`.
pub proof fn lemma_wrap_i16(x: int)
    ensures
        congruent16(wrap_i16(x) as int, x),
        forall|v: i16| congruent16(v as int, x) ==> v == wrap_i16(x),
{
    lemma_congruent_residue(x, range16());
    assert forall|v: i16| congruent16(v as int, x) implies v == wrap_i16(x) by {
        lemma_unique_i16(v, wrap_i16(x));
    }
}

/// Two 16-bit signed integers that are congruent are equal.
pub proof fn lemma_unique_i16(a: i16, b: i16)
    requires
        congruent16(a as int, b as int),
    ensures
        a == b,
{
    lemma_congruent_close(a as int, b as int, range16());
}

/// Wrapping addition is addition, wrapped.
pub proof fn lemma_wrapping_add_i16(a: i16, b: i16)
    ensures
        i16_specs::wrapping_add(a, b) == wrap_i16(a + b),
{
    lemma_congruent_residue(a + b, range16());
    lemma_wrap_i16(a + b);
}

/// Wrapping subtraction is subtraction, wrapped.
pub proof fn lemma_wrapping_sub_i16(a: i16, b: i16)
    ensures
        i16_specs::wrapping_sub(a, b) == wrap_i16(a - b),
{
    lemma_congruent_residue(a - b, range16());
    lemma_wrap_i16(a - b);
}

/// Integer division that rounds toward zero, for a divisor other than zero.
pub open spec fn truncated_quotient(a: int, b: int) -> int {
    if a >= 0 && b > 0 {
        a / b
    } else if a >= 0 {
        -(a / (-b))
    } else if b > 0 {
        -((-a) / b)
    } else {
        (-a) / (-b)
    }
}

/// A matrix of 16-bit signed integers.
pub type MatrixI16 = Matrix<i16>;

impl Number for i16 {
    open spec fn zero_spec() -> i16 {
        0
    }

    open spec fn one_spec() -> i16 {
        1
    }

    open spec fn plus_spec(self, rhs: i16) -> i16 {
        wrap_i16(self + rhs)
    }

    open spec fn minus_spec(self, rhs: i16) -> i16 {
        wrap_i16(self - rhs)
    }

    open spec fn times_spec(self, rhs: i16) -> i16 {
        wrap_i16(self * rhs)
    }

    open spec fn negated_spec(self) -> i16 {
        wrap_i16(-self)
    }

    open spec fn divisor_spec(self) -> bool {
        self != 0
    }

    open spec fn over_spec(self, rhs: i16) -> i16 {
        wrap_i16(truncated_quotient(self as int, rhs as int))
    }

    fn zero() -> (r: i16) {
        0
    }

    fn one() -> (r: i16) {
        1
    }

    fn plus(self, rhs: i16) -> (r: i16) {
        proof {
            lemma_wrapping_add_i16(self, rhs);
        }
        self.wrapping_add(rhs)
    }

    fn minus(self, rhs: i16) -> (r: i16) {
        proof {
            lemma_wrapping_sub_i16(self, rhs);
        }
        self.wrapping_sub(rhs)
    }

    fn times(self, rhs: i16) -> (r: i16) {
        self.wrapping_mul(rhs)
    }

    fn negated(self) -> (r: i16) {
        proof {
            lemma_wrapping_sub_i16(0, self);
        }
        0i16.wrapping_sub(self)
    }

    fn over(self, rhs: i16) -> (r: i16) {
        proof {
            lemma_wrap_i16(truncated_quotient(self as int, rhs as int));
        }
        if rhs > 0 {
            self / rhs
        } else if rhs == i16::MIN {
            proof {
                if self >= 0 {
                    lemma_basic_div(self as int, -(rhs as int));
                } else if self != i16::MIN {
                    lemma_basic_div(-(self as int), -(rhs as int));
                } else {
                    lemma_div_by_self(-(rhs as int));
                }
            }
            if self == i16::MIN {
                1
            } else {
                0
            }
        } else if rhs == -1 {
            proof {
                lemma_wrapping_sub_i16(0, self);
                lemma_div_basics(self as int);
                lemma_div_basics(-(self as int));
            }
            0i16.wrapping_sub(self)
        } else {
            let q: i16 = self / (-rhs);
            proof {
                let d = -(rhs as int);
                if self > 0 {
                    lemma_div_decreases(self as int, d);
                } else if self < 0 {
                    lemma_div_decreases(-(self as int), d);
                    lemma_div_pos_is_pos(-(self as int), d);
                }
            }
            -q
        }
    }

    fn same(self, rhs: i16) -> (r: bool) {
        self == rhs
    }

    proof fn lemma_plus_commutes(a: i16, b: i16) {
    }

    proof fn lemma_plus_associates(a: i16, b: i16, c: i16) {
        lemma_wrap_i16(a + b);
        lemma_wrap_i16(b + c);
        lemma_congruent_plus(wrap_i16(a + b) as int, a + b, c as int, c as int, range16());
        lemma_congruent_plus(a as int, a as int, wrap_i16(b + c) as int, b + c, range16());
        lemma_wrap_i16(wrap_i16(a + b) + c);
        lemma_wrap_i16(a + wrap_i16(b + c));
        lemma_unique_i16(wrap_i16(wrap_i16(a + b) + c), wrap_i16(a + wrap_i16(b + c)));
    }

    proof fn lemma_plus_zero(a: i16) {
        lemma_wrap_i16(a as int);
    }

    proof fn lemma_plus_negated(a: i16) {
        lemma_wrap_i16(-a);
        lemma_congruent_plus(a as int, a as int, wrap_i16(-a) as int, -a, range16());
        lemma_wrap_i16(a + wrap_i16(-a));
        lemma_unique_i16(wrap_i16(a + wrap_i16(-a)), 0);
    }

    proof fn lemma_minus_is_plus_negated(a: i16, b: i16) {
        lemma_wrap_i16(-b);
        lemma_congruent_plus(a as int, a as int, wrap_i16(-b) as int, -b, range16());
        lemma_wrap_i16(a + wrap_i16(-b));
        lemma_wrap_i16(a - b);
        lemma_unique_i16(wrap_i16(a - b), wrap_i16(a + wrap_i16(-b)));
    }

    proof fn lemma_times_commutes(a: i16, b: i16) {
        assert(a * b == b * a) by (nonlinear_arith);
    }

    proof fn lemma_times_associates(a: i16, b: i16, c: i16) {
        lemma_wrap_i16(a * b);
        lemma_wrap_i16(b * c);
        lemma_congruent_times(wrap_i16(a * b) as int, a * b, c as int, c as int, range16());
        lemma_congruent_times(a as int, a as int, wrap_i16(b * c) as int, b * c, range16());
        assert((a * b) * c == a * (b * c)) by (nonlinear_arith);
        lemma_wrap_i16(wrap_i16(a * b) * c);
        lemma_wrap_i16(a * wrap_i16(b * c));
        lemma_unique_i16(wrap_i16(wrap_i16(a * b) * c), wrap_i16(a * wrap_i16(b * c)));
    }

    proof fn lemma_times_one(a: i16) {
        assert(a * 1 == a) by (nonlinear_arith);
        lemma_wrap_i16(a as int);
    }

    proof fn lemma_times_zero(a: i16) {
        assert(a * 0 == 0) by (nonlinear_arith);
    }

    proof fn lemma_times_distributes(a: i16, b: i16, c: i16) {
        lemma_wrap_i16(b + c);
        lemma_wrap_i16(a * b);
        lemma_wrap_i16(a * c);
        lemma_congruent_times(a as int, a as int, wrap_i16(b + c) as int, b + c, range16());
        lemma_congruent_plus(wrap_i16(a * b) as int, a * b, wrap_i16(a * c) as int, a * c, range16());
        assert(a * (b + c) == a * b + a * c) by (nonlinear_arith);
        lemma_wrap_i16(a * wrap_i16(b + c));
        lemma_wrap_i16(wrap_i16(a * b) + wrap_i16(a * c));
        lemma_unique_i16(
            wrap_i16(a * wrap_i16(b + c)),
            wrap_i16(wrap_i16(a * b) + wrap_i16(a * c)),
        );
    }
}

impl Ordered for i16 {
    open spec fn less_spec(self, rhs: i16) -> bool {
        self < rhs
    }

    fn less(self, rhs: i16) -> (r: bool) {
        self < rhs
    }

    proof fn lemma_less_asymmetric(a: i16, b: i16) {
    }

    proof fn lemma_less_transitive(a: i16, b: i16, c: i16) {
    }

    proof fn lemma_less_total(a: i16, b: i16) {
    }
}

impl Signed for i16 {
    /// The absolute value. That of the least `i16`, which has none among the
    /// `i16`, is the least `i16` itself.
    open spec fn magnitude_spec(self) -> i16 {
        if self < 0 {
            wrap_i16(-self)
        } else {
            self
        }
    }

    fn magnitude(self) -> (r: i16) {
        if self < 0 {
            self.negated()
        } else {
            self
        }
    }
}

} // verus!
