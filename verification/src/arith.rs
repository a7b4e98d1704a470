//! Exact integer arithmetic used by the tree: absolute value, floor and
//! truncating division, and the integer square root.

use vstd::prelude::*;

verus! {

/// Absolute value over the mathematical integers.
pub open spec fn abs_i(a: int) -> int {
    if a < 0 {
        -a
    } else {
        a
    }
}

/// Division that rounds toward zero, defined by sign and magnitude
/// (`0` when the divisor is `0`, so the function is total).
pub open spec fn div_trunc(a: int, b: int) -> int {
    let q = abs_i(a) / abs_i(b);
    if (a < 0) != (b < 0) {
        -q
    } else {
        q
    }
}

/// The integer square root: the largest `r` with `r * r <= n`
/// (`0` for negative `n`, so the function is total).
pub open spec fn sqrt_floor(n: int) -> int
    decreases n,
{
    if n <= 0 {
        0
    } else {
        let r = sqrt_floor(n - 1);
        if (r + 1) * (r + 1) <= n {
            r + 1
        } else {
            r
        }
    }
}

pub proof fn lemma_sqrt_floor_bounds(n: int)
    requires
        n >= 0,
    ensures
        0 <= sqrt_floor(n),
        sqrt_floor(n) * sqrt_floor(n) <= n,
        n < (sqrt_floor(n) + 1) * (sqrt_floor(n) + 1),
    decreases n,
{
    if n > 0 {
        lemma_sqrt_floor_bounds(n - 1);
        let r = sqrt_floor(n - 1);
        if (r + 1) * (r + 1) <= n {
            assert(n < (r + 2) * (r + 2)) by (nonlinear_arith)
                requires
                    n - 1 < (r + 1) * (r + 1),
                    r >= 0;
        }
    }
}

pub proof fn lemma_sqrt_floor_unique(n: int, r: int)
    requires
        n >= 0,
        r >= 0,
        r * r <= n,
        n < (r + 1) * (r + 1),
    ensures
        r == sqrt_floor(n),
{
    lemma_sqrt_floor_bounds(n);
    let s = sqrt_floor(n);
    if r < s {
        assert((r + 1) * (r + 1) <= s * s) by (nonlinear_arith)
            requires
                0 <= r,
                r + 1 <= s;
    }
    if s < r {
        assert((s + 1) * (s + 1) <= r * r) by (nonlinear_arith)
            requires
                0 <= s,
                s + 1 <= r;
    }
}

/// The square root does not reach `c` while its argument is below `c * c`.
pub proof fn lemma_sqrt_floor_lt(n: int, c: int)
    requires
        0 <= n,
        0 < c,
        n < c * c,
    ensures
        sqrt_floor(n) < c,
{
    lemma_sqrt_floor_bounds(n);
    let s = sqrt_floor(n);
    if s >= c {
        vstd::arithmetic::mul::lemma_mul_inequality(c, s, s);
        vstd::arithmetic::mul::lemma_mul_inequality(c, s, c);
        assert(s * c == c * s) by (nonlinear_arith);
        assert(false);
    }
}

/// The integer square root of a 128-bit value, by bisection.
pub fn isqrt(n: u128) -> (r: u64)
    ensures
        r == sqrt_floor(n as int),
{
    if n == 0 {
        proof {
            lemma_sqrt_floor_unique(n as int, 0);
        }
        return 0;
    }
    let mut lo: u128 = 0;
    let mut hi: u128 = 0x1_0000_0000_0000_0000;
    proof {
        assert((hi as int) * (hi as int) > n as int) by (nonlinear_arith)
            requires
                hi == 0x1_0000_0000_0000_0000u128,
                n as int <= u128::MAX as int;
    }
    while hi - lo > 1
        invariant
            0 <= lo < hi <= 0x1_0000_0000_0000_0000u128,
            (lo as int) * (lo as int) <= n as int,
            (n as int) < (hi as int) * (hi as int),
        decreases hi - lo,
    {
        let mid = lo + (hi - lo) / 2;
        proof {
            assert(lo < mid < hi);
            assert((mid as int) * (mid as int) <= u128::MAX as int) by (nonlinear_arith)
                requires
                    0 <= mid as int,
                    mid as int <= 0xffff_ffff_ffff_ffffu128;
        }
        if mid * mid <= n {
            lo = mid;
        } else {
            hi = mid;
        }
    }
    proof {
        assert(hi == lo + 1);
        lemma_sqrt_floor_unique(n as int, lo as int);
    }
    lo as u64
}

/// Floor division by two (rounds toward negative infinity).
pub fn div2_floor(a: i64) -> (r: i64)
    requires
        -0x4000_0000_0000_0000 < a < 0x4000_0000_0000_0000,
    ensures
        r == a as int / 2,
{
    if a >= 0 {
        ((a as u64) / 2) as i64
    } else {
        let m: u64 = (-a) as u64;
        -(((m + 1) / 2) as i64)
    }
}

/// The square of a 64-bit value, widened so it cannot overflow.
pub fn sq128(a: i64) -> (r: u128)
    requires
        -0x4000_0000_0000_0000 < a < 0x4000_0000_0000_0000,
    ensures
        r == (a as int) * (a as int),
{
    let m: u64 = if a >= 0 {
        a as u64
    } else {
        (-a) as u64
    };
    proof {
        assert((m as int) * (m as int) == (a as int) * (a as int) && (m as int) * (m as int)
            < 0x4000_0000_0000_0000 * 0x4000_0000_0000_0000) by (nonlinear_arith)
            requires
                (a >= 0 ==> m == a) && (a < 0 ==> m as int == -(a as int)),
                -0x4000_0000_0000_0000 < a as int,
                (a as int) < 0x4000_0000_0000_0000;
    }
    (m as u128) * (m as u128)
}

/// Division rounding toward zero, by sign and magnitude.
pub fn div_trunc_i64(a: i64, b: i64) -> (r: i64)
    requires
        b != 0,
        -0x4000_0000_0000_0000 < a < 0x4000_0000_0000_0000,
        -0x4000_0000_0000_0000 < b < 0x4000_0000_0000_0000,
    ensures
        r == div_trunc(a as int, b as int),
{
    let ua: u64 = if a >= 0 {
        a as u64
    } else {
        (-a) as u64
    };
    let ub: u64 = if b >= 0 {
        b as u64
    } else {
        (-b) as u64
    };
    let q: u64 = ua / ub;
    if (a < 0) != (b < 0) {
        -(q as i64)
    } else {
        q as i64
    }
}

} // verus!
