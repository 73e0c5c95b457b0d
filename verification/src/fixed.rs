//! Fixed-point helpers: rounding division and the integer square root.

use vstd::arithmetic::div_mod::{lemma_fundamental_div_mod, lemma_mod_bound};
use vstd::prelude::*;

verus! {

/// Steps per world unit, per second, per radian and per unit of direction length.
pub const UNIT: u32 = 1_000_000;

/// Largest magnitude that [`round_div`] accepts for either operand.
pub const ROUND_LIMIT: i128 = 0x1000_0000_0000_0000_0000_0000_0000_0000;

/// The absolute value.
pub open spec fn magnitude(x: int) -> int {
    if x < 0 {
        -x
    } else {
        x
    }
}

/// `a / b` rounded to the nearest integer, halves away from zero.
pub open spec fn div_round(a: int, b: int) -> int {
    if a >= 0 {
        (2 * a + b) / (2 * b)
    } else {
        -((b - 2 * a) / (2 * b))
    }
}

/// The rounded quotient is within half a divisor of the exact one and has the
/// sign of the dividend.
pub proof fn lemma_div_round_error(a: int, b: int)
    requires
        b > 0,
    ensures
        -b <= 2 * (a - div_round(a, b) * b) <= b,
        a >= 0 ==> div_round(a, b) >= 0,
        a <= 0 ==> div_round(a, b) <= 0,
{
    let m = if a >= 0 { 2 * a + b } else { b - 2 * a };
    let d = 2 * b;
    lemma_fundamental_div_mod(m, d);
    lemma_mod_bound(m, d);
    let q = m / d;
    assert(d * q == 2 * (q * b)) by (nonlinear_arith)
        requires
            d == 2 * b,
    ;
    assert(q >= 0) by (nonlinear_arith)
        requires
            m >= 0,
            d > 0,
            m == d * q + m % d,
            m % d < d,
    ;
    assert((-q) * b == -(q * b)) by (nonlinear_arith);
    if a == 0 {
        assert(q == 0) by (nonlinear_arith)
            requires
                q >= 0,
                b > 0,
                b == (2 * b) * q + m % d,
                m % d >= 0,
        ;
    }
}

/// Rounding division: see [`div_round`].
pub fn round_div(a: i128, b: i128) -> (q: i128)
    requires
        -ROUND_LIMIT <= a <= ROUND_LIMIT,
        0 < b <= ROUND_LIMIT,
    ensures
        q == div_round(a as int, b as int),
{
    proof {
        lemma_div_round_error(a as int, b as int);
        lemma_div_round_bound(a as int, b as int);
    }
    if a >= 0 {
        (2 * a + b) / (2 * b)
    } else {
        -((b - 2 * a) / (2 * b))
    }
}

/// The rounded quotient is no larger in magnitude than the dividend.
pub proof fn lemma_div_round_bound(a: int, b: int)
    requires
        b > 0,
    ensures
        a >= 0 ==> 0 <= div_round(a, b) <= a,
        a <= 0 ==> a <= div_round(a, b) <= 0,
{
    lemma_div_round_error(a, b);
    let q = div_round(a, b);
    if a >= 0 {
        assert(q <= a) by (nonlinear_arith)
            requires
                b >= 1,
                q >= 0,
                a >= 0,
                2 * (q * b) <= 2 * a + b,
        ;
    } else {
        assert(a <= q) by (nonlinear_arith)
            requires
                b >= 1,
                q <= 0,
                a <= 0,
                2 * (q * b) >= 2 * a - b,
        ;
    }
}

/// A quotient of whole-number size `k` at most rounds to at most `k`.
pub proof fn lemma_div_round_le(a: int, b: int, k: int)
    requires
        b > 0,
        k >= 0,
        -(k * b) <= a <= k * b,
    ensures
        -k <= div_round(a, b) <= k,
{
    lemma_div_round_error(a, b);
    let q = div_round(a, b);
    assert(-k <= q <= k) by (nonlinear_arith)
        requires
            b > 0,
            k >= 0,
            -(k * b) <= a <= k * b,
            -b <= 2 * (a - q * b) <= b,
    ;
}

/// `r` is the largest number whose square is at most `n`.
pub open spec fn is_sqrt_floor(n: nat, r: nat) -> bool {
    r * r <= n < (r + 1) * (r + 1)
}

/// The integer square root: the largest `r` with `r * r <= n`.
pub open spec fn sqrt_floor(n: nat) -> nat {
    choose|r: nat| is_sqrt_floor(n, r)
}

/// Every number has an integer square root.
proof fn lemma_sqrt_exists(n: nat)
    ensures
        exists|r: nat| is_sqrt_floor(n, r),
    decreases n,
{
    if n == 0 {
        assert(0nat * 0nat == 0 && (0nat + 1) * (0nat + 1) == 1) by (nonlinear_arith);
        assert(is_sqrt_floor(n, 0));
    } else {
        let m = (n - 1) as nat;
        lemma_sqrt_exists(m);
        let r = choose|r: nat| is_sqrt_floor(m, r);
        if (r + 1) * (r + 1) <= n {
            let s = r + 1;
            assert(n < (s + 1) * (s + 1)) by (nonlinear_arith)
                requires
                    n - 1 < s * s,
                    s >= 0,
            ;
            assert(is_sqrt_floor(n, s));
        } else {
            assert(is_sqrt_floor(n, r));
        }
    }
}

/// What [`sqrt_floor`] is: its square is at most `n`, the next square is more.
pub proof fn lemma_sqrt_floor(n: nat)
    ensures
        is_sqrt_floor(n, sqrt_floor(n)),
{
    lemma_sqrt_exists(n);
}

/// Only one number lies between the two squares.
pub proof fn lemma_sqrt_floor_unique(n: nat, r: nat)
    requires
        is_sqrt_floor(n, r),
    ensures
        r == sqrt_floor(n),
{
    lemma_sqrt_floor(n);
    let s = sqrt_floor(n);
    if r < s {
        assert((r + 1) * (r + 1) <= s * s) by (nonlinear_arith)
            requires
                0 <= r + 1 <= s,
        ;
    } else if s < r {
        assert((s + 1) * (s + 1) <= r * r) by (nonlinear_arith)
            requires
                0 <= s + 1 <= r,
        ;
    }
}

/// Integer square root by bisection.
pub fn isqrt(n: u128) -> (r: u64)
    ensures
        r == sqrt_floor(n as nat),
{
    let mut lo: u128 = 0;
    let mut hi: u128 = 0x1_0000_0000_0000_0000;
    assert(n < hi * hi) by (nonlinear_arith)
        requires
            hi == 0x1_0000_0000_0000_0000,
            n <= u128::MAX,
    ;
    while hi - lo > 1
        invariant
            lo < hi <= 0x1_0000_0000_0000_0000,
            lo * lo <= n < hi * hi,
        decreases hi - lo,
    {
        let mid: u128 = lo + (hi - lo) / 2;
        assert(mid * mid <= u128::MAX) by (nonlinear_arith)
            requires
                mid < 0x1_0000_0000_0000_0000,
        ;
        if mid * mid <= n {
            lo = mid;
        } else {
            hi = mid;
        }
    }
    proof {
        lemma_sqrt_floor_unique(n as nat, lo as nat);
    }
    lo as u64
}

} // verus!
