//! Integer square roots, rounded down.

use vstd::prelude::*;

verus! {

/// `r` is the square root of `q`, rounded down.
pub open spec fn is_floor_sqrt(r: int, q: int) -> bool {
    0 <= r && r * r <= q && q < (r + 1) * (r + 1)
}

/// The square root of `q`, rounded down.
pub open spec fn floor_sqrt(q: int) -> int {
    choose|r: int| is_floor_sqrt(r, q)
}

/// Squaring keeps the order of non-negative numbers.
pub proof fn lemma_square_le(a: int, b: int)
    by (nonlinear_arith)
    requires
        0 <= a <= b,
    ensures
        a * a <= b * b,
{
}

/// Squaring keeps the strict order of non-negative numbers.
pub proof fn lemma_square_lt(a: int, b: int)
    by (nonlinear_arith)
    requires
        0 <= a < b,
    ensures
        a * a < b * b,
{
}

/// A smaller square has the smaller non-negative root.
pub proof fn lemma_square_lt_rev(a: int, b: int)
    by (nonlinear_arith)
    requires
        0 <= a,
        0 <= b,
        a * a < b * b,
    ensures
        a < b,
{
}

/// At most one number is the rounded-down square root of `q`.
pub proof fn lemma_floor_sqrt_unique(r1: int, r2: int, q: int)
    requires
        is_floor_sqrt(r1, q),
        is_floor_sqrt(r2, q),
    ensures
        r1 == r2,
{
    lemma_square_lt_rev(r1, r2 + 1);
    lemma_square_lt_rev(r2, r1 + 1);
}

/// Every non-negative number has a rounded-down square root.
pub proof fn lemma_floor_sqrt_exists(q: int)
    requires
        0 <= q,
    ensures
        is_floor_sqrt(floor_sqrt(q), q),
    decreases q,
{
    if q == 0 {
        assert(is_floor_sqrt(0, q));
    } else {
        lemma_floor_sqrt_exists(q - 1);
        let r = floor_sqrt(q - 1);
        if q < (r + 1) * (r + 1) {
            assert(is_floor_sqrt(r, q));
        } else {
            assert((r + 1) * (r + 1) < (r + 2) * (r + 2)) by (nonlinear_arith)
                requires
                    0 <= r,
            ;
            assert(is_floor_sqrt(r + 1, q));
        }
    }
}

/// A number that passes the test is the rounded-down square root.
pub proof fn lemma_floor_sqrt_is(r: int, q: int)
    requires
        is_floor_sqrt(r, q),
    ensures
        floor_sqrt(q) == r,
{
    lemma_floor_sqrt_unique(r, floor_sqrt(q), q);
}

/// Computes the square root of `q`, rounded down, by bisection.
pub fn isqrt(q: u64) -> (r: u64)
    ensures
        r == floor_sqrt(q as int),
        is_floor_sqrt(r as int, q as int),
        r < 0x1_0000_0000,
{
    let mut lo: u64 = 0;
    let mut hi: u64 = 0x1_0000_0000;
    assert(0x1_0000_0000 * 0x1_0000_0000 > u64::MAX) by (nonlinear_arith);
    while hi - lo > 1
        invariant
            lo < hi <= 0x1_0000_0000,
            lo * lo <= q,
            q < hi * hi,
        decreases hi - lo,
    {
        let mid: u64 = lo + (hi - lo) / 2;
        assert(mid * mid <= 0xffff_ffff * 0xffff_ffff) by (nonlinear_arith)
            requires
                0 <= mid <= 0xffff_ffff,
        ;
        if mid * mid <= q {
            lo = mid;
        } else {
            hi = mid;
        }
    }
    proof {
        lemma_floor_sqrt_is(lo as int, q as int);
    }
    lo
}

} // verus!
