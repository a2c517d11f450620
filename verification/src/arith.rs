//! Small arithmetic helpers the fixed-point model shares: clamping, floor
//! division on signed values, and the division bounds the proofs lean on.

use vstd::arithmetic::div_mod::{
    lemma_div_is_ordered, lemma_div_is_ordered_by_denominator, lemma_div_multiples_vanish,
    lemma_div_nonincreasing, lemma_div_pos_is_pos, lemma_fundamental_div_mod,
    lemma_fundamental_div_mod_converse, lemma_mod_division_less_than_divisor,
};
use vstd::prelude::*;

verus! {

pub open spec fn spec_clamp(x: int, lo: int, hi: int) -> int {
    if x < lo {
        lo
    } else if x > hi {
        hi
    } else {
        x
    }
}

/// Clamps `x` into `[lo, hi]`.
pub fn clamp_i64(x: i64, lo: i64, hi: i64) -> (r: i64)
    requires
        lo <= hi,
    ensures
        r == spec_clamp(x as int, lo as int, hi as int),
{
    if x < lo {
        lo
    } else if x > hi {
        hi
    } else {
        x
    }
}

/// Floor division of `a` by a positive `b`; agrees with mathematical `/`.
pub fn div_floor(a: i64, b: i64) -> (q: i64)
    requires
        0 < b,
        i64::MIN < a,
    ensures
        q == a as int / b as int,
{
    if a >= 0 {
        let q = a / b;
        proof {
            lemma_div_pos_is_pos(a as int, b as int);
            lemma_div_is_ordered(a as int, i64::MAX as int, b as int);
        }
        q
    } else {
        let n = -a;
        let q0 = n / b;
        let r0 = n % b;
        proof {
            lemma_fundamental_div_mod(n as int, b as int);
            lemma_div_pos_is_pos(n as int, b as int);
            lemma_div_is_ordered(n as int, i64::MAX as int, b as int);
            if r0 == 0 {
                assert(a as int == (-(q0 as int)) * (b as int) + 0) by (nonlinear_arith)
                    requires
                        a == -(n as int),
                        n as int == b as int * (q0 as int) + r0 as int,
                        r0 == 0,
                ;
                lemma_fundamental_div_mod_converse(a as int, b as int, -(q0 as int), 0);
            } else {
                assert(a as int == (-(q0 as int) - 1) * (b as int) + (b as int - r0 as int))
                    by (nonlinear_arith)
                    requires
                        a == -(n as int),
                        n as int == b as int * (q0 as int) + r0 as int,
                ;
                lemma_fundamental_div_mod_converse(a as int, b as int, -(q0 as int) - 1, b - r0);
            }
        }
        if r0 == 0 {
            -q0
        } else {
            -q0 - 1
        }
    }
}

/// A quotient with a positive divisor is bounded by any `k` whose product
/// with the divisor bounds the dividend.
pub proof fn lemma_div_bounded(a: int, b: int, k: int)
    requires
        0 < b,
        0 <= k,
        -k * b <= a <= k * b,
    ensures
        -k <= a / b <= k,
{
    lemma_div_multiples_vanish(k, b);
    lemma_div_multiples_vanish(-k, b);
    assert(k * b == b * k && -k * b == b * -k) by (nonlinear_arith);
    lemma_div_is_ordered(a, k * b, b);
    lemma_div_is_ordered(-k * b, a, b);
}

/// A positive dividend divided by a divisor from `[1, dmax]` lands in
/// `[q_lo, n]` whenever `q_lo * dmax` still fits under the dividend.
pub proof fn lemma_div_in_range(n: int, d: int, q_lo: int, dmax: int)
    requires
        0 < d <= dmax,
        0 < q_lo,
        q_lo * dmax <= n,
    ensures
        q_lo <= n / d <= n,
{
    lemma_div_is_ordered_by_denominator(n, d, dmax);
    lemma_div_multiples_vanish(q_lo, dmax);
    assert(q_lo * dmax == dmax * q_lo) by (nonlinear_arith);
    lemma_div_is_ordered(q_lo * dmax, n, dmax);
    lemma_div_pos_is_pos(n, d);
    lemma_div_nonincreasing(n, d);
}

/// The product of a quotient with its positive divisor is at most the
/// dividend, and misses it by less than the divisor.
pub proof fn lemma_mul_div_le(a: int, b: int)
    requires
        0 <= a,
        0 < b,
    ensures
        a / b * b <= a,
        a - b < a / b * b,
{
    lemma_fundamental_div_mod(a, b);
    lemma_mod_division_less_than_divisor(a, b);
    lemma_div_pos_is_pos(a, b);
    assert(a / b * b == b * (a / b)) by (nonlinear_arith);
}

/// Rounding up by adding `b - 1` counts exactly the chunks of size `b`:
/// whenever `(q - 1) * b < n <= q * b`, the ceiling quotient is `q`.
pub proof fn lemma_ceil_div(n: int, b: int, q: int)
    requires
        0 < b,
        (q - 1) * b < n <= q * b,
    ensures
        (n + b - 1) / b == q,
{
    assert(n + b - 1 == q * b + (n - 1 - (q - 1) * b)) by (nonlinear_arith);
    assert(0 <= n - 1 - (q - 1) * b < b) by (nonlinear_arith)
        requires
            (q - 1) * b < n <= q * b,
            0 < b,
    ;
    lemma_fundamental_div_mod_converse(n + b - 1, b, q, n - 1 - (q - 1) * b);
}

} // verus!
