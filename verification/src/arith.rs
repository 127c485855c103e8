//! Rounded division on the integers, with the facts the planner relies on.

use vstd::prelude::*;

verus! {

/// The quotient rounded up: the least `q` with `q * divisor >= dividend`,
/// for a positive divisor.
pub open spec fn ceil_div(dividend: int, divisor: int) -> int {
    (dividend + divisor - 1) / divisor
}

/// The smaller of two integers.
pub open spec fn min_int(a: int, b: int) -> int {
    if a <= b {
        a
    } else {
        b
    }
}

/// The larger of two integers.
pub open spec fn max_int(a: int, b: int) -> int {
    if a >= b {
        a
    } else {
        b
    }
}

/// Rounding down gives the greatest `k` with `k * b <= a`.
pub proof fn lemma_floor_div_galois(a: int, b: int, k: int)
    requires
        b > 0,
    ensures
        k <= a / b <==> k * b <= a,
{
    assert(k <= a / b <==> k * b <= a) by (nonlinear_arith)
        requires
            b > 0,
    ;
}

/// Rounding up gives the least `k` with `a <= k * b`.
pub proof fn lemma_ceil_div_galois(a: int, b: int, k: int)
    requires
        b > 0,
    ensures
        ceil_div(a, b) <= k <==> a <= k * b,
{
    let c = a + b - 1;
    assert(c / b <= k <==> c < (k + 1) * b) by (nonlinear_arith)
        requires
            b > 0,
    ;
    assert((k + 1) * b == k * b + b) by (nonlinear_arith);
}

/// The rounded-up quotient in terms of the rounded-down one.
pub proof fn lemma_ceil_div_by_cases(a: int, b: int)
    requires
        b > 0,
    ensures
        a % b == 0 ==> ceil_div(a, b) == a / b,
        a % b != 0 ==> ceil_div(a, b) == a / b + 1,
{
    assert(a % b == 0 ==> (a + b - 1) / b == a / b) by (nonlinear_arith)
        requires
            b > 0,
    ;
    assert(a % b != 0 ==> (a + b - 1) / b == a / b + 1) by (nonlinear_arith)
        requires
            b > 0,
    ;
}

/// Rounding up keeps the sign of a non-negative dividend, and a positive
/// dividend gives at least one.
pub proof fn lemma_ceil_div_sign(a: int, b: int)
    requires
        b > 0,
        a >= 0,
    ensures
        ceil_div(a, b) >= 0,
        a > 0 <==> ceil_div(a, b) >= 1,
{
    lemma_ceil_div_galois(a, b, -1);
    lemma_ceil_div_galois(a, b, 0);
    assert((-1) * b < 0) by (nonlinear_arith)
        requires
            b > 0,
    ;
    assert(0 * b == 0);
}

/// A larger dividend never gives a smaller rounded-up quotient.
pub proof fn lemma_ceil_div_monotone(a1: int, a2: int, b: int)
    requires
        b > 0,
        a1 <= a2,
    ensures
        ceil_div(a1, b) <= ceil_div(a2, b),
{
    lemma_ceil_div_galois(a2, b, ceil_div(a2, b));
    lemma_ceil_div_galois(a1, b, ceil_div(a2, b));
}

/// A larger divisor never gives a larger rounded-up quotient.
pub proof fn lemma_ceil_div_antitone(a: int, b1: int, b2: int)
    requires
        0 < b1 <= b2,
        a >= 0,
    ensures
        ceil_div(a, b2) <= ceil_div(a, b1),
{
    let q = ceil_div(a, b1);
    lemma_ceil_div_sign(a, b1);
    lemma_ceil_div_galois(a, b1, q);
    assert(q * b1 <= q * b2) by (nonlinear_arith)
        requires
            q >= 0,
            b1 <= b2,
    ;
    lemma_ceil_div_galois(a, b2, q);
}

/// An exact multiple divides without rounding.
pub proof fn lemma_ceil_div_of_multiple(k: int, b: int)
    requires
        b > 0,
    ensures
        ceil_div(k * b, b) == k,
{
    lemma_ceil_div_galois(k * b, b, k);
    lemma_ceil_div_galois(k * b, b, k - 1);
    assert((k - 1) * b < k * b) by (nonlinear_arith)
        requires
            b > 0,
    ;
}

/// With a divisor of one or more the rounded-up quotient is at most the
/// dividend.
pub proof fn lemma_ceil_div_at_most_dividend(a: int, b: int)
    requires
        b > 0,
        a >= 0,
    ensures
        ceil_div(a, b) <= a,
{
    lemma_ceil_div_galois(a, b, a);
    assert(a <= a * b) by (nonlinear_arith)
        requires
            b >= 1,
            a >= 0,
    ;
}

/// A dividend that the divisor covers needs one part, and none if it is zero.
pub proof fn lemma_ceil_div_covered(a: int, b: int)
    requires
        b > 0,
        0 <= a <= b,
    ensures
        ceil_div(a, b) == if a == 0 {
            0int
        } else {
            1int
        },
{
    lemma_ceil_div_sign(a, b);
    lemma_ceil_div_galois(a, b, 1);
    lemma_ceil_div_galois(a, b, 0);
    assert(1 * b == b);
    assert(0 * b == 0);
}

/// Capping the divisor at a limit that the dividend does not exceed leaves
/// the rounded-up quotient unchanged.
pub proof fn lemma_ceil_div_capped_divisor(a: int, b: int, limit: int)
    requires
        b > 0,
        limit > 0,
        0 <= a <= limit,
    ensures
        ceil_div(a, min_int(b, limit)) == ceil_div(a, b),
{
    if b > limit {
        lemma_ceil_div_covered(a, b);
        lemma_ceil_div_covered(a, limit);
    }
}

/// Dividing by the smaller of two divisors gives the larger of the two
/// rounded-up quotients.
pub proof fn lemma_ceil_div_by_min(a: int, b1: int, b2: int)
    requires
        b1 > 0,
        b2 > 0,
        a >= 0,
    ensures
        ceil_div(a, min_int(b1, b2)) == max_int(ceil_div(a, b1), ceil_div(a, b2)),
{
    if b1 <= b2 {
        lemma_ceil_div_antitone(a, b1, b2);
    } else {
        lemma_ceil_div_antitone(a, b2, b1);
    }
}

/// Rounds `a / b` up.
pub fn ceil_div_u64(a: u64, b: u64) -> (q: u64)
    requires
        b > 0,
    ensures
        q == ceil_div(a as int, b as int),
{
    proof {
        lemma_ceil_div_by_cases(a as int, b as int);
        lemma_floor_div_galois(a as int, b as int, a as int + 1);
    }
    let q: u64 = a / b;
    if a % b == 0 {
        q
    } else {
        assert(q < a) by (nonlinear_arith)
            requires
                q == a as int / b as int,
                a as int % b as int != 0,
                b > 0,
                a >= 0,
        ;
        q + 1
    }
}

} // verus!
