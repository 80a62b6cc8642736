//! Integer square root: the distance routines report the floor of the
//! Euclidean distance computed from an exact squared distance.

use vstd::prelude::*;

verus! {

/// Floor of the square root of `n` (0 when `n < 1`).
pub open spec fn sqrt_floor(n: int) -> int
    decreases n,
{
    if n < 1 {
        0
    } else {
        let r = sqrt_floor(n - 1);
        if (r + 1) * (r + 1) <= n {
            r + 1
        } else {
            r
        }
    }
}

pub proof fn lemma_sqrt_floor_bounds(n: int)
    requires
        n >= 0,
    ensures
        sqrt_floor(n) >= 0,
        sqrt_floor(n) * sqrt_floor(n) <= n,
        n < (sqrt_floor(n) + 1) * (sqrt_floor(n) + 1),
    decreases n,
{
    if n == 0 {
    } else {
        lemma_sqrt_floor_bounds(n - 1);
        let r = sqrt_floor(n - 1);
        if (r + 1) * (r + 1) <= n {
            assert(n <= (r + 1) * (r + 1));
            assert((r + 1) * (r + 1) < (r + 2) * (r + 2)) by (nonlinear_arith)
                requires r >= 0;
        }
    }
}

pub proof fn lemma_sqrt_floor_unique(n: int, r: int)
    requires
        n >= 0,
        r >= 0,
        r * r <= n,
        n < (r + 1) * (r + 1),
    ensures
        r == sqrt_floor(n),
{
    lemma_sqrt_floor_bounds(n);
    let s = sqrt_floor(n);
    if r < s {
        assert((r + 1) * (r + 1) <= s * s) by (nonlinear_arith)
            requires 0 <= r + 1 <= s;
        assert(false);
    }
    if s < r {
        assert((s + 1) * (s + 1) <= r * r) by (nonlinear_arith)
            requires 0 <= s + 1 <= r;
        assert(false);
    }
}

/// Floor square root of an unsigned 128-bit value, by bisection.
pub fn isqrt_u128(n: u128) -> (r: u64)
    requires
        n < 0x4000_0000_0000_0000_0000_0000_0000_0000u128,
    ensures
        r as int == sqrt_floor(n as int),
{
    let mut lo: u64 = 0;
    let mut hi: u64 = 0x8000_0000_0000_0000u64;
    proof {
        assert((hi as int) * (hi as int) == 0x4000_0000_0000_0000_0000_0000_0000_0000int);
    }
    while lo + 1 < hi
        invariant
            lo < hi,
            hi <= 0x8000_0000_0000_0000u64,
            (lo as int) * (lo as int) <= n as int,
            (n as int) < (hi as int) * (hi as int),
        decreases hi - lo,
    {
        let mid: u64 = lo + (hi - lo) / 2;
        assert(lo < mid < hi);
        proof {
            assert((mid as int) * (mid as int) <= 0x4000_0000_0000_0000_0000_0000_0000_0000int)
                by (nonlinear_arith)
                requires mid as int <= 0x8000_0000_0000_0000int;
        }
        let sq: u128 = (mid as u128) * (mid as u128);
        if sq <= n {
            lo = mid;
        } else {
            hi = mid;
        }
    }
    proof {
        assert((lo + 1) * (lo + 1) >= (hi as int) * (hi as int)) by (nonlinear_arith)
            requires lo + 1 >= hi as int && hi as int >= 1;
        lemma_sqrt_floor_unique(n as int, lo as int);
    }
    lo
}

/// Floor square root of a nonnegative `i128` below `2^122`; the result
/// always fits in `i64`.
pub fn isqrt_i128(n: i128) -> (r: i64)
    requires
        0 <= n < 0x400_0000_0000_0000_0000_0000_0000_0000i128,
    ensures
        r as int == sqrt_floor(n as int),
        0 <= r,
{
    let u = isqrt_u128(n as u128);
    proof {
        lemma_sqrt_floor_bounds(n as int);
        assert(sqrt_floor(n as int) <= 0x8000_0000_0000_0000int) by {
            if sqrt_floor(n as int) > 0x8000_0000_0000_0000int {
                assert(sqrt_floor(n as int) * sqrt_floor(n as int)
                    > 0x4000_0000_0000_0000_0000_0000_0000_0000int) by (nonlinear_arith)
                    requires sqrt_floor(n as int) > 0x8000_0000_0000_0000int;
            }
        }
        assert(u < 0x8000_0000_0000_0000u64) by {
            if u as int >= 0x8000_0000_0000_0000int {
                assert((u as int) * (u as int) >= 0x4000_0000_0000_0000_0000_0000_0000_0000int)
                    by (nonlinear_arith)
                    requires u as int >= 0x8000_0000_0000_0000int;
            }
        }
    }
    u as i64
}

} // verus!
