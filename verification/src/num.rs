//! Integer rounding helpers: the fixed-point counterpart of rounding a real
//! quotient to the nearest integer (ties away from zero), and an integer
//! square root used for perimeter measurement.

use vstd::prelude::*;
use vstd::arithmetic::div_mod::lemma_fundamental_div_mod_converse;

verus! {

/// The nearest integer to the real quotient `n / d` (for `d > 0`), with
/// halves rounded away from zero. This is the rounding rule of the grid:
/// a coordinate is snapped to the cell whose center is nearest.
pub open spec fn round_div(n: int, d: int) -> int
    recommends
        d > 0,
{
    if n >= 0 {
        (2 * n + d) / (2 * d)
    } else {
        -((2 * -n + d) / (2 * d))
    }
}

pub open spec fn abs(n: int) -> int {
    if n >= 0 {
        n
    } else {
        -n
    }
}

/// Rounding is exact on values within half a step of a multiple of the
/// divisor: `q * d + e` rounds to `q` whenever `|e|` is strictly below `d / 2`.
pub proof fn lemma_round_div_exact(q: int, e: int, d: int)
    requires
        d > 0,
        2 * abs(e) < d,
    ensures
        round_div(q * d + e, d) == q,
{
    let n = q * d + e;
    if n >= 0 {
        assert(2 * n + d == q * (2 * d) + (2 * e + d)) by (nonlinear_arith)
            requires
                n == q * d + e,
        ;
        assert(0 <= 2 * e + d < 2 * d);
        lemma_fundamental_div_mod_converse(2 * n + d, 2 * d, q, 2 * e + d);
    } else {
        assert(2 * -n + d == (-q) * (2 * d) + (-2 * e + d)) by (nonlinear_arith)
            requires
                n == q * d + e,
        ;
        assert(0 <= -2 * e + d < 2 * d);
        lemma_fundamental_div_mod_converse(2 * -n + d, 2 * d, -q, -2 * e + d);
    }
}

/// The rounded quotient differs from the true quotient by at most half a
/// step: `|round_div(n, d) * d - n| <= d / 2` (stated without division).
pub proof fn lemma_round_div_near(n: int, d: int)
    requires
        d > 0,
    ensures
        2 * abs(round_div(n, d) * d - n) <= d,
{
    if n >= 0 {
        let q = (2 * n + d) / (2 * d);
        let r = (2 * n + d) % (2 * d);
        vstd::arithmetic::div_mod::lemma_fundamental_div_mod(2 * n + d, 2 * d);
        vstd::arithmetic::div_mod::lemma_mod_bound(2 * n + d, 2 * d);
        assert(2 * n + d == (2 * d) * q + r);
        assert(2 * (q * d - n) == d - r) by (nonlinear_arith)
            requires
                2 * n + d == (2 * d) * q + r,
        ;
    } else {
        let m = -n;
        let q = (2 * m + d) / (2 * d);
        let r = (2 * m + d) % (2 * d);
        vstd::arithmetic::div_mod::lemma_fundamental_div_mod(2 * m + d, 2 * d);
        vstd::arithmetic::div_mod::lemma_mod_bound(2 * m + d, 2 * d);
        assert(2 * m + d == (2 * d) * q + r);
        assert(2 * (q * d - m) == d - r) by (nonlinear_arith)
            requires
                2 * m + d == (2 * d) * q + r,
        ;
        assert(round_div(n, d) == -q);
        assert(-q * d - n == -(q * d - m)) by (nonlinear_arith)
            requires
                m == -n,
        ;
    }
}

/// Computes `round_div(n, d)` executably.
pub fn round_div_i128(n: i128, d: i128) -> (r: i128)
    requires
        d > 0,
        -0x1000_0000_0000_0000_0000_0000_0000 <= n <= 0x1000_0000_0000_0000_0000_0000_0000,
        d <= 0x1000_0000_0000_0000_0000_0000_0000,
    ensures
        r == round_div(n as int, d as int),
{
    if n >= 0 {
        let num = 2 * n + d;
        let den = 2 * d;
        num / den
    } else {
        let num = 2 * (-n) + d;
        let den = 2 * d;
        proof {
            vstd::arithmetic::div_mod::lemma_div_nonincreasing(num as int, den as int);
            vstd::arithmetic::div_mod::lemma_div_pos_is_pos(num as int, den as int);
        }
        -(num / den)
    }
}

} // verus!
