//! Integer arithmetic shared by the geometry and the tree: square roots,
//! floor division and weighted means, each with the lemmas its callers need.

use vstd::prelude::*;
use vstd::arithmetic::div_mod::lemma_fundamental_div_mod_converse;

verus! {

/// The integer square root of `n`: the largest `r` with `r * r <= n`.
pub open spec fn isqrt(n: nat) -> nat
    decreases n,
{
    if n == 0 {
        0
    } else {
        let r = isqrt((n - 1) as nat);
        if (r + 1) * (r + 1) <= n {
            r + 1
        } else {
            r
        }
    }
}

/// `isqrt(n)` squares to at most `n`, and its successor squares to more.
pub proof fn lemma_isqrt_bounds(n: nat)
    ensures
        isqrt(n) * isqrt(n) <= n,
        n < (isqrt(n) + 1) * (isqrt(n) + 1),
    decreases n,
{
    if n > 0 {
        let r = isqrt((n - 1) as nat);
        let s = isqrt(n);
        lemma_isqrt_bounds((n - 1) as nat);
        if (r + 1) * (r + 1) <= n {
            assert(s == r + 1);
            assert(n < (s + 1) * (s + 1)) by (nonlinear_arith)
                requires
                    n <= s * s,
            ;
        } else {
            assert(s == r);
        }
    } else {
        assert(isqrt(n) == 0);
        assert(0 < (0 + 1) * (0 + 1)) by (nonlinear_arith);
    }
}

/// Squaring is strictly monotone on the naturals.
pub proof fn lemma_square_monotone(a: nat, b: nat)
    requires
        a < b,
    ensures
        (a + 1) * (a + 1) <= b * b,
{
    assert((a + 1) * (a + 1) <= b * b) by (nonlinear_arith)
        requires
            a + 1 <= b,
    ;
}

/// Only one number lies between the bounds that `lemma_isqrt_bounds` gives.
pub proof fn lemma_isqrt_unique(n: nat, r: nat)
    requires
        r * r <= n,
        n < (r + 1) * (r + 1),
    ensures
        r == isqrt(n),
{
    let s = isqrt(n);
    lemma_isqrt_bounds(n);
    if r < s {
        lemma_square_monotone(r, s);
    } else if s < r {
        lemma_square_monotone(s, r);
    }
}

/// The integer square root is zero only at zero.
pub proof fn lemma_isqrt_positive(n: nat)
    requires
        n > 0,
    ensures
        isqrt(n) >= 1,
{
    lemma_isqrt_bounds(n);
    if isqrt(n) == 0 {
        assert((0 + 1) * (0 + 1) == 1) by (nonlinear_arith);
    }
}

/// Whether `n` is a power of two: one, or twice a power of two.
pub open spec fn is_power_of_two(n: nat) -> bool
    decreases n,
{
    n == 1 || (n >= 2 && n % 2 == 0 && is_power_of_two(n / 2))
}

/// Computes the integer square root by bisection.
pub fn integer_sqrt(n: u128) -> (r: u64)
    ensures
        r == isqrt(n as nat),
{
    let mut lo: u128 = 0;
    let mut hi: u128 = 0x1_0000_0000_0000_0000;
    assert(n < hi * hi) by (nonlinear_arith)
        requires
            n <= u128::MAX,
            hi == 0x1_0000_0000_0000_0000,
    ;
    while hi - lo > 1
        invariant
            lo < hi <= 0x1_0000_0000_0000_0000,
            lo * lo <= n,
            n < hi * hi,
        decreases hi - lo,
    {
        let mid: u128 = lo + (hi - lo) / 2;
        assert(mid * mid <= u128::MAX) by (nonlinear_arith)
            requires
                mid < 0x1_0000_0000_0000_0000,
        ;
        if mid * mid <= n {
            lo = mid;
        } else {
            hi = mid;
        }
    }
    proof {
        lemma_isqrt_unique(n as nat, lo as nat);
    }
    lo as u64
}

/// Divides rounding toward negative infinity.
pub fn floor_div(n: i128, d: u64) -> (q: i128)
    requires
        d > 0,
    ensures
        q == (n as int) / (d as int),
{
    if n >= 0 {
        let q: u128 = (n as u128) / (d as u128);
        assert(q <= n) by (nonlinear_arith)
            requires
                q == (n as u128) / (d as u128),
                n >= 0,
                d > 0,
        ;
        q as i128
    } else {
        // the magnitude of `n`, and its quotient rounded up
        let m: u128 = ((-(n + 1)) as u128) + 1;
        let shifted: u128 = m + (d - 1) as u128;
        let c: u128 = shifted / (d as u128);
        let ghost r = shifted % (d as u128);
        proof {
            assert(shifted == c * d + r) by (nonlinear_arith)
                requires
                    c == shifted / (d as u128),
                    r == shifted % (d as u128),
                    d > 0,
            ;
            assert(n == (-(c as int)) * d + (d - 1 - r)) by (nonlinear_arith)
                requires
                    shifted == c * d + r,
                    shifted == -n + d - 1,
            ;
            lemma_fundamental_div_mod_converse(n as int, d as int, -(c as int), d - 1 - r);
            assert(1 <= c <= m) by (nonlinear_arith)
                requires
                    shifted == c * d + r,
                    shifted == m + d - 1,
                    0 <= r < d,
                    m >= 1,
                    c >= 0,
            ;
        }
        -((c - 1) as i128) - 1
    }
}

/// The mean of `a` and `b` with weights `wa` and `wb`, rounded toward
/// negative infinity.
pub open spec fn weighted_mean(a: int, wa: nat, b: int, wb: nat) -> int {
    (a * wa + b * wb) / ((wa + wb) as int)
}

/// A weighted mean lies between the two values it averages.
pub proof fn lemma_weighted_mean_between(a: int, wa: nat, b: int, wb: nat, lo: int, hi: int)
    requires
        wa + wb > 0,
        lo <= a <= hi,
        lo <= b <= hi,
    ensures
        lo <= weighted_mean(a, wa, b, wb) <= hi,
{
    let w = (wa + wb) as int;
    let n = a * wa + b * wb;
    assert(lo * w <= n <= hi * w) by (nonlinear_arith)
        requires
            lo <= a <= hi,
            lo <= b <= hi,
            w == wa + wb,
            n == a * wa + b * wb,
            wa >= 0,
            wb >= 0,
    ;
    assert(lo <= n / w <= hi) by (nonlinear_arith)
        requires
            lo * w <= n <= hi * w,
            w > 0,
    ;
}

/// Computes one coordinate of a weighted mean.
pub fn mean_coordinate(a: i32, wa: u64, b: i32, wb: u64) -> (m: i32)
    requires
        wa + wb > 0,
        wa + wb <= u64::MAX,
    ensures
        m == weighted_mean(a as int, wa as nat, b as int, wb as nat),
{
    assert(-0x8000_0000_0000_0000_0000_0000 <= a * wa <= 0x8000_0000_0000_0000_0000_0000)
        by (nonlinear_arith)
        requires
            -0x8000_0000 <= a <= 0x8000_0000,
            0 <= wa <= 0x1_0000_0000_0000_0000,
    ;
    assert(-0x8000_0000_0000_0000_0000_0000 <= b * wb <= 0x8000_0000_0000_0000_0000_0000)
        by (nonlinear_arith)
        requires
            -0x8000_0000 <= b <= 0x8000_0000,
            0 <= wb <= 0x1_0000_0000_0000_0000,
    ;
    let n: i128 = (a as i128) * (wa as i128) + (b as i128) * (wb as i128);
    let q: i128 = floor_div(n, wa + wb);
    proof {
        lemma_weighted_mean_between(
            a as int,
            wa as nat,
            b as int,
            wb as nat,
            i32::MIN as int,
            i32::MAX as int,
        );
    }
    q as i32
}

} // verus!
