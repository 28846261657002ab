//! Allocated dimensions: each is zero or a power of two.

use vstd::prelude::*;

verus! {

/// `n` is one of 1, 2, 4, 8, ...
pub open spec fn is_power_of_two(n: nat) -> bool
    decreases n,
{
    n == 1 || (n >= 2 && n % 2 == 0 && is_power_of_two(n / 2))
}

/// The first of `p`, `2p`, `4p`, ... that is not below `n`.
pub open spec fn doubled_until(n: nat, p: nat) -> nat
    decreases 2 * n - p,
{
    if p == 0 || p >= n {
        p
    } else {
        doubled_until(n, 2 * p)
    }
}

/// The allocated dimension for a logical dimension `n`: zero for zero, else
/// the least power of two that is not below `n`.
pub open spec fn next_power_of_two(n: nat) -> nat {
    if n == 0 {
        0
    } else {
        doubled_until(n, 1)
    }
}

/// Doubling from a power of two `p` stops at a power of two that is at least
/// `n` and `p`, and below `2n` where `p` started below `n`.
pub proof fn lemma_doubled_until(n: nat, p: nat)
    requires
        is_power_of_two(p),
    ensures
        is_power_of_two(doubled_until(n, p)),
        doubled_until(n, p) >= n,
        doubled_until(n, p) >= p,
        p < n ==> doubled_until(n, p) < 2 * n,
    decreases 2 * n - p,
{
    if p < n {
        assert(is_power_of_two(2 * p)) by {
            assert((2 * p) / 2 == p);
        }
        lemma_doubled_until(n, 2 * p);
    }
}

/// The allocated dimension is zero or a power of two, is never below the
/// logical one and is less than twice as large.
pub proof fn lemma_next_power_of_two(n: nat)
    ensures
        n == 0 ==> next_power_of_two(n) == 0,
        n > 0 ==> is_power_of_two(next_power_of_two(n)),
        next_power_of_two(n) >= n,
        n > 0 ==> next_power_of_two(n) < 2 * n,
{
    if n > 0 {
        lemma_doubled_until(n, 1);
    }
}

/// No power of two lies between `n` and the allocated dimension for `n`.
pub proof fn lemma_next_power_of_two_least(n: nat, q: nat)
    requires
        is_power_of_two(q),
        q >= n,
    ensures
        next_power_of_two(n) <= q,
{
    if n > 0 {
        lemma_doubled_until_least(n, 1, q);
    }
}

/// A larger logical dimension never has a smaller allocated dimension.
pub proof fn lemma_next_power_of_two_monotone(n: nat, m: nat)
    requires
        n <= m,
    ensures
        next_power_of_two(n) <= next_power_of_two(m),
{
    lemma_next_power_of_two(m);
    if m > 0 {
        lemma_next_power_of_two_least(n, next_power_of_two(m));
    }
}

proof fn lemma_doubled_until_least(n: nat, p: nat, q: nat)
    requires
        is_power_of_two(p),
        is_power_of_two(q),
        p <= q,
        q >= n,
    ensures
        doubled_until(n, p) <= q,
    decreases 2 * n - p,
{
    if p < n {
        lemma_power_of_two_gap(p, q);
        assert(is_power_of_two(2 * p)) by {
            assert((2 * p) / 2 == p);
        }
        lemma_doubled_until_least(n, 2 * p, q);
    }
}

/// Two powers of two differ by a factor of at least two.
proof fn lemma_power_of_two_gap(p: nat, q: nat)
    requires
        is_power_of_two(p),
        is_power_of_two(q),
        p < q,
    ensures
        2 * p <= q,
    decreases q,
{
    if p > 1 {
        lemma_power_of_two_gap(p / 2, q / 2);
    }
}

/// The allocated dimension for `n`.
pub fn target_allocation(n: usize) -> (p: usize)
    requires
        next_power_of_two(n as nat) <= usize::MAX,
    ensures
        p == next_power_of_two(n as nat),
{
    if n == 0 {
        return 0;
    }
    let mut p: usize = 1;
    while p < n
        invariant
            n > 0,
            p > 0,
            is_power_of_two(p as nat),
            doubled_until(n as nat, p as nat) == next_power_of_two(n as nat),
            next_power_of_two(n as nat) <= usize::MAX,
        decreases 2 * n - p,
    {
        proof {
            assert(is_power_of_two(2 * p as nat)) by {
                assert((2 * p as nat) / 2 == p as nat);
            }
            lemma_doubled_until(n as nat, 2 * p as nat);
        }
        p = 2 * p;
    }
    p
}

/// The allocated dimension for `n`, where it fits in a `usize`.
pub fn checked_target_allocation(n: usize) -> (result: Option<usize>)
    ensures
        match result {
            Some(p) => p == next_power_of_two(n as nat),
            None => next_power_of_two(n as nat) > usize::MAX,
        },
{
    if n == 0 {
        return Some(0);
    }
    let mut p: usize = 1;
    while p < n
        invariant
            n > 0,
            p > 0,
            is_power_of_two(p as nat),
            doubled_until(n as nat, p as nat) == next_power_of_two(n as nat),
        decreases 2 * n - p,
    {
        proof {
            assert(is_power_of_two(2 * p as nat)) by {
                assert((2 * p as nat) / 2 == p as nat);
            }
            lemma_doubled_until(n as nat, 2 * p as nat);
        }
        match p.checked_mul(2) {
            Some(q) => {
                p = q;
            },
            None => {
                return None;
            },
        }
    }
    Some(p)
}

} // verus!
