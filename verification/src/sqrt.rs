//! Integer square roots.
//!
//! Key distances are irrational in general, so the library works with the
//! integer square root of scaled squared distances. This module defines what
//! an integer square root is, proves it exists and is unique, and provides a
//! verified executable implementation.

use vstd::prelude::*;

verus! {

/// `r` is the integer square root of `n`: the greatest integer whose square
/// does not exceed `n`.
pub open spec fn is_sqrt_floor(n: int, r: int) -> bool {
    0 <= r && r * r <= n && n < (r + 1) * (r + 1)
}

/// The integer square root of a non-negative integer `n`.
pub open spec fn sqrt_floor(n: int) -> int {
    choose|r: int| is_sqrt_floor(n, r)
}

/// Every non-negative integer has an integer square root, so `sqrt_floor`
/// satisfies its defining property.
pub proof fn lemma_sqrt_floor_exists(n: int)
    requires
        0 <= n,
    ensures
        is_sqrt_floor(n, sqrt_floor(n)),
    decreases n,
{
    if n == 0 {
        assert(is_sqrt_floor(0, 0));
    } else {
        lemma_sqrt_floor_exists(n - 1);
        let r = sqrt_floor(n - 1);
        if n < (r + 1) * (r + 1) {
            assert(is_sqrt_floor(n, r));
        } else {
            assert(n == (r + 1) * (r + 1));
            assert((r + 1) * (r + 1) < (r + 2) * (r + 2)) by (nonlinear_arith)
                requires 0 <= r;
            assert(is_sqrt_floor(n, r + 1));
        }
    }
}

/// The integer square root is unique: any `r` satisfying the defining
/// property equals `sqrt_floor(n)`.
pub proof fn lemma_sqrt_floor_unique(n: int, r: int)
    requires
        is_sqrt_floor(n, r),
    ensures
        sqrt_floor(n) == r,
{
    assert(0 <= n) by (nonlinear_arith)
        requires 0 <= r, r * r <= n;
    lemma_sqrt_floor_exists(n);
    let s = sqrt_floor(n);
    if r < s {
        assert((r + 1) * (r + 1) <= s * s) by (nonlinear_arith)
            requires 0 <= r, r < s;
        assert(false);
    } else if s < r {
        assert((s + 1) * (s + 1) <= r * r) by (nonlinear_arith)
            requires 0 <= s, s < r;
        assert(false);
    }
}

/// If `n` lies strictly below `b * b` then its square root lies strictly
/// below `b`.
pub proof fn lemma_sqrt_floor_bound(n: int, b: int)
    requires
        0 <= n,
        0 < b,
        n < b * b,
    ensures
        sqrt_floor(n) < b,
{
    lemma_sqrt_floor_exists(n);
    let r = sqrt_floor(n);
    if b <= r {
        assert(b * b <= r * r) by (nonlinear_arith)
            requires 0 < b, b <= r;
        assert(false);
    }
}

/// Computes the integer square root of `n` by binary search.
pub fn isqrt(n: u64) -> (r: u64)
    ensures
        r == sqrt_floor(n as int),
{
    let mut lo: u64 = 0;
    let mut hi: u64 = 4294967296;
    while hi - lo > 1
        invariant
            lo < hi <= 4294967296,
            (lo as int) * (lo as int) <= n as int,
            (n as int) < (hi as int) * (hi as int),
        decreases hi - lo,
    {
        let mid: u64 = lo + (hi - lo) / 2;
        proof {
            assert((mid as int) * (mid as int) <= 4294967296int * 4294967296int)
                by (nonlinear_arith)
                requires 0 <= mid as int <= 4294967296int;
        }
        let sq: u128 = (mid as u128) * (mid as u128);
        if sq <= n as u128 {
            lo = mid;
        } else {
            hi = mid;
        }
    }
    proof {
        assert(is_sqrt_floor(n as int, lo as int));
        lemma_sqrt_floor_unique(n as int, lo as int);
    }
    lo
}

} // verus!
