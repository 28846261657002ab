//! Arithmetic modulo a power of two: what wrapping machine arithmetic
//! computes.

use vstd::prelude::*;
use vstd::arithmetic::div_mod::*;

verus! {

/// `a` and `b` differ by a multiple of `m`.
pub open spec fn congruent(a: int, b: int, m: int) -> bool {
    a % m == b % m
}

/// Two congruent numbers that are less than the modulus apart are equal.
pub proof fn lemma_congruent_close(a: int, b: int, m: int)
    requires
        m > 0,
        congruent(a, b, m),
        -m < a - b < m,
    ensures
        a == b,
{
    lemma_fundamental_div_mod(a, m);
    lemma_fundamental_div_mod(b, m);
    let qa = a / m;
    let qb = b / m;
    assert(a - b == m * (qa - qb)) by (nonlinear_arith)
        requires
            a == m * qa + a % m,
            b == m * qb + b % m,
            a % m == b % m,
    ;
    assert(qa == qb) by (nonlinear_arith)
        requires
            a - b == m * (qa - qb),
            -m < a - b < m,
            m > 0,
    ;
}

/// A number and what is left of it after division by the modulus are
/// congruent, and so is the number moved by the modulus.
pub proof fn lemma_congruent_residue(x: int, m: int)
    requires
        m > 0,
    ensures
        congruent(x % m, x, m),
        congruent(x % m - m, x, m),
        congruent(x + m, x, m),
        congruent(x - m, x, m),
        0 <= x % m < m,
{
    lemma_mod_bound(x, m);
    lemma_mod_twice(x, m);
    lemma_mod_add_multiples_vanish(x % m - m, m);
    lemma_mod_add_multiples_vanish(x, m);
    lemma_mod_add_multiples_vanish(x - m, m);
}

/// Sums of congruent numbers are congruent.
pub proof fn lemma_congruent_plus(a: int, a2: int, b: int, b2: int, m: int)
    requires
        m > 0,
        congruent(a, a2, m),
        congruent(b, b2, m),
    ensures
        congruent(a + b, a2 + b2, m),
{
    lemma_add_mod_noop(a, b, m);
    lemma_add_mod_noop(a2, b2, m);
}

/// Products of congruent numbers are congruent.
pub proof fn lemma_congruent_times(a: int, a2: int, b: int, b2: int, m: int)
    requires
        m > 0,
        congruent(a, a2, m),
        congruent(b, b2, m),
    ensures
        congruent(a * b, a2 * b2, m),
{
    lemma_mul_mod_noop(a, b, m);
    lemma_mul_mod_noop(a2, b2, m);
}

} // verus!
