//! Floor integer square root: the specification `sqrt_floor`, its defining
//! bracket property, and an executable binary-search implementation.

use vstd::prelude::*;

verus! {

/// `r` is the floor square root of `n`: the unique nonnegative integer with
/// `r * r <= n < (r + 1) * (r + 1)`.
pub open spec fn is_sqrt_floor(n: int, r: int) -> bool {
    0 <= r && r * r <= n && n < (r + 1) * (r + 1)
}

/// The floor square root of `n`, as a mathematical function. It is pinned
/// down (for `n >= 0`) by `lemma_sqrt_floor_exists` and
/// `lemma_sqrt_floor_unique`.
pub open spec fn sqrt_floor(n: int) -> int {
    choose|r: int| is_sqrt_floor(n, r)
}

/// Every nonnegative integer has a floor square root.
pub proof fn lemma_sqrt_floor_exists(n: int)
    requires
        0 <= n,
    ensures
        is_sqrt_floor(n, sqrt_floor(n)),
    decreases n,
{
    if n == 0 {
        assert(is_sqrt_floor(0, 0));
    } else {
        lemma_sqrt_floor_exists(n - 1);
        let r = sqrt_floor(n - 1);
        if (r + 1) * (r + 1) == n {
            assert((r + 2) * (r + 2) > n) by (nonlinear_arith)
                requires
                    0 <= r,
                    (r + 1) * (r + 1) == n,
            ;
            assert(is_sqrt_floor(n, r + 1));
        } else {
            assert(is_sqrt_floor(n, r));
        }
    }
}

/// The bracket property determines the root: any witness equals `sqrt_floor`.
pub proof fn lemma_sqrt_floor_unique(n: int, r: int)
    requires
        is_sqrt_floor(n, r),
    ensures
        sqrt_floor(n) == r,
{
    let q = sqrt_floor(n);
    assert(is_sqrt_floor(n, q));
    assert(q == r) by (nonlinear_arith)
        requires
            is_sqrt_floor(n, q),
            is_sqrt_floor(n, r),
    ;
}

/// The floor square root never exceeds its argument.
pub proof fn lemma_sqrt_floor_le(n: int)
    requires
        0 <= n,
    ensures
        0 <= sqrt_floor(n) <= n,
{
    lemma_sqrt_floor_exists(n);
    let r = sqrt_floor(n);
    assert(r <= n) by (nonlinear_arith)
        requires
            0 <= r,
            r * r <= n,
    ;
}

/// Floor square root of a machine integer, by binary search.
pub fn isqrt(n: u64) -> (r: u64)
    ensures
        is_sqrt_floor(n as int, r as int),
        r as int == sqrt_floor(n as int),
{
    let mut lo: u64 = 0;
    let mut hi: u64 = 0xFFFF_FFFF;
    if n < hi {
        hi = n;
        assert(n < (hi + 1) * (hi + 1)) by (nonlinear_arith)
            requires
                hi == n,
        ;
    } else {
        assert(n < (hi + 1) * (hi + 1)) by (nonlinear_arith)
            requires
                hi == 0xFFFF_FFFFu64,
                n <= u64::MAX,
        ;
    }
    while lo < hi
        invariant
            lo <= hi <= 0xFFFF_FFFF,
            lo * lo <= n,
            n < (hi + 1) * (hi + 1),
        decreases hi - lo,
    {
        let mid = lo + (hi - lo + 1) / 2;
        assert(lo < mid <= hi);
        assert(mid * mid <= 0xFFFF_FFFE_0000_0001) by (nonlinear_arith)
            requires
                mid <= 0xFFFF_FFFFu64,
        ;
        let sq = mid * mid;
        if sq <= n {
            lo = mid;
        } else {
            hi = mid - 1;
        }
    }
    proof {
        lemma_sqrt_floor_unique(n as int, lo as int);
    }
    lo
}

} // verus!
