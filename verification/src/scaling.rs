//! Scaling a direction to a given length, one component at a time.
//!
//! A component `c` of a direction whose squared length is `n` becomes
//! `len * c / sqrt(n)`, rounded away from zero. The rounding is done
//! once, on the exact quotient, so the result depends on the direction
//! alone and not on how long the direction vector happens to be; and no
//! component comes out shorter than its exact value.

use vstd::prelude::*;
use vstd::arithmetic::div_mod::lemma_fundamental_div_mod;
use vstd::arithmetic::div_mod::lemma_mod_bound;
use crate::roots::{floor_sqrt, isqrt, lemma_floor_sqrt_exists, lemma_square_le};

verus! {

/// The sign of `v`: -1, 0 or 1.
pub open spec fn sign(v: int) -> int {
    if v < 0 {
        -1
    } else if v == 0 {
        0
    } else {
        1
    }
}

/// The absolute value of `v`.
pub open spec fn abs(v: int) -> int {
    if v < 0 {
        -v
    } else {
        v
    }
}

/// The product of a sign and a magnitude, case by case.
pub proof fn lemma_sign_times(c: int, m: int)
    ensures
        sign(c) * m == if c < 0 {
            -m
        } else if c == 0 {
            0
        } else {
            m
        },
{
    if c < 0 {
        assert((-1) * m == -m);
    } else if c == 0 {
        assert(0 * m == 0);
    } else {
        assert(1 * m == m);
    }
}

/// The quotient of `a` by `n`, rounded up.
pub open spec fn ceil_quotient(a: int, n: int) -> int {
    (a + n - 1) / n
}

/// The square root of `q`, rounded up.
pub open spec fn ceil_sqrt(q: int) -> int {
    if q <= 0 {
        0
    } else {
        floor_sqrt(q - 1) + 1
    }
}

/// `m` is `len * |c| / sqrt(n)`, rounded up: the least magnitude whose
/// square, times `n`, reaches the square of `len * c`.
pub open spec fn is_scaled_magnitude(m: int, c: int, n: int, len: int) -> bool {
    &&& 0 <= m
    &&& len * len * (c * c) <= m * m * n
    &&& m > 0 ==> (m - 1) * (m - 1) * n < len * len * (c * c)
}

/// `len * |c| / sqrt(n)`, rounded up.
pub open spec fn scaled_magnitude(c: int, n: int, len: int) -> int {
    ceil_sqrt(ceil_quotient(len * len * (c * c), n))
}

/// `len * c / sqrt(n)`, rounded away from zero.
pub open spec fn scaled_component(c: int, n: int, len: int) -> int {
    sign(c) * scaled_magnitude(c, n, len)
}

/// The rounded-up quotient of a non-negative number is the least
/// multiplier that reaches it.
pub proof fn lemma_ceil_quotient(a: int, n: int)
    requires
        0 <= a,
        0 < n,
    ensures
        0 <= ceil_quotient(a, n),
        a <= ceil_quotient(a, n) * n,
        (ceil_quotient(a, n) - 1) * n < a || a == 0,
        a == 0 ==> ceil_quotient(a, n) == 0,
{
    let b = a + n - 1;
    let q = b / n;
    lemma_fundamental_div_mod(b, n);
    lemma_mod_bound(b, n);
    assert(0 <= q && a <= q * n && ((q - 1) * n < a || a == 0) && (a == 0 ==> q == 0))
        by (nonlinear_arith)
        requires
            b == n * q + b % n,
            0 <= b % n < n,
            b == a + n - 1,
            0 <= a,
            0 < n,
    ;
}

/// The rounded-up square root of a non-negative number is the least
/// number whose square reaches it.
pub proof fn lemma_ceil_sqrt(q: int)
    requires
        0 <= q,
    ensures
        0 <= ceil_sqrt(q),
        q <= ceil_sqrt(q) * ceil_sqrt(q),
        q > 0 ==> ceil_sqrt(q) > 0 && (ceil_sqrt(q) - 1) * (ceil_sqrt(q) - 1) < q,
        q == 0 ==> ceil_sqrt(q) == 0,
{
    if q > 0 {
        lemma_floor_sqrt_exists(q - 1);
    }
}

/// The rounded-up magnitude passes the test that defines it.
pub proof fn lemma_scaled_magnitude_holds(c: int, n: int, len: int)
    requires
        n > 0,
    ensures
        is_scaled_magnitude(scaled_magnitude(c, n, len), c, n, len),
{
    let num = len * len * (c * c);
    assert(num >= 0) by (nonlinear_arith)
        requires
            num == len * len * (c * c),
    ;
    let q = ceil_quotient(num, n);
    lemma_ceil_quotient(num, n);
    lemma_ceil_sqrt(q);
    let m = ceil_sqrt(q);
    assert(num <= m * m * n) by (nonlinear_arith)
        requires
            num <= q * n,
            q <= m * m,
            n > 0,
    ;
    if m > 0 {
        assert((m - 1) * (m - 1) * n < num) by (nonlinear_arith)
            requires
                (q - 1) * n < num,
                (m - 1) * (m - 1) <= q - 1,
                n > 0,
        ;
    }
}

/// Only the rounded-up magnitude passes the test.
pub proof fn lemma_scaled_magnitude_is(m: int, c: int, n: int, len: int)
    requires
        n > 0,
        is_scaled_magnitude(m, c, n, len),
    ensures
        scaled_magnitude(c, n, len) == m,
{
    let num = len * len * (c * c);
    let k = scaled_magnitude(c, n, len);
    lemma_scaled_magnitude_holds(c, n, len);
    if k < m {
        lemma_square_le(k, m - 1);
        assert(k * k * n <= (m - 1) * (m - 1) * n) by (nonlinear_arith)
            requires
                k * k <= (m - 1) * (m - 1),
                n > 0,
        ;
    }
    if m < k {
        lemma_square_le(m, k - 1);
        assert(m * m * n <= (k - 1) * (k - 1) * n) by (nonlinear_arith)
            requires
                m * m <= (k - 1) * (k - 1),
                n > 0,
        ;
    }
}

/// A component never grows beyond the length asked for, when it is no
/// longer than the whole direction.
pub proof fn lemma_scaled_magnitude_bound(c: int, n: int, len: int)
    requires
        n > 0,
        c * c <= n,
        0 <= len,
    ensures
        0 <= scaled_magnitude(c, n, len) <= len,
{
    lemma_scaled_magnitude_holds(c, n, len);
    let m = scaled_magnitude(c, n, len);
    assert(0 <= c * c) by (nonlinear_arith);
    if m > len {
        lemma_square_le(len, m - 1);
        assert(len * len * (c * c) <= (m - 1) * (m - 1) * n) by (nonlinear_arith)
            requires
                0 <= len * len <= (m - 1) * (m - 1),
                0 <= c * c <= n,
        {
            assert(0 <= len * len);
        }
    }
}

/// A component other than zero keeps a magnitude of at least one when
/// the length asked for is positive.
pub proof fn lemma_scaled_magnitude_positive(c: int, n: int, len: int)
    requires
        n > 0,
        c != 0,
        1 <= len,
    ensures
        scaled_magnitude(c, n, len) >= 1,
{
    lemma_scaled_magnitude_holds(c, n, len);
    let m = scaled_magnitude(c, n, len);
    assert(len * len * (c * c) > 0) by (nonlinear_arith)
        requires
            c != 0,
            1 <= len,
    ;
    if m == 0 {
        assert(m * m * n == 0) by (nonlinear_arith)
            requires
                m == 0,
        ;
    }
}

/// The largest component, in absolute value, that [`scale_component`]
/// takes.
pub const COMPONENT_LIMIT: i64 = 0x1_0000_0000;

/// Computes `len * c / sqrt(n)`, rounded away from zero, where `n` is the
/// squared length of the direction that `c` is a component of.
pub fn scale_component(c: i64, n: u128, len: i32) -> (r: i64)
    requires
        -COMPONENT_LIMIT <= c <= COMPONENT_LIMIT,
        0 <= len,
        0 < n,
        c * c <= n,
    ensures
        r == scaled_component(c as int, n as int, len as int),
        -len <= r <= len,
{
    let a: u128 = if c < 0 {
        (-c) as u128
    } else {
        c as u128
    };
    let l: u128 = len as u128;
    assert(l * l < 0x4000_0000_0000_0000) by (nonlinear_arith)
        requires
            0 <= l < 0x8000_0000,
    ;
    assert(a * a <= 0x1_0000_0000_0000_0000 && a * a == c * c) by (nonlinear_arith)
        requires
            0 <= a <= 0x1_0000_0000,
            a == c || a == -c,
    ;
    let ll: u128 = l * l;
    let aa: u128 = a * a;
    assert(ll * aa <= 0x4000_0000_0000_0000 * 0x1_0000_0000_0000_0000) by (nonlinear_arith)
        requires
            0 <= ll <= 0x4000_0000_0000_0000,
            0 <= aa <= 0x1_0000_0000_0000_0000,
    ;
    let num: u128 = ll * aa;
    let q: u128 = if num % n == 0 {
        num / n
    } else {
        num / n + 1
    };
    proof {
        lemma_fundamental_div_mod(num as int, n as int);
        lemma_mod_bound(num as int, n as int);
        lemma_ceil_quotient(num as int, n as int);
        let cq = ceil_quotient(num as int, n as int);
        assert(q == cq) by (nonlinear_arith)
            requires
                num == n * (num / n) + (num as int) % (n as int),
                0 <= (num as int) % (n as int) < n,
                q == if (num as int) % (n as int) == 0 {
                    (num / n) as int
                } else {
                    num / n + 1
                },
                num <= cq * n,
                (cq - 1) * n < num || num == 0,
                num == 0 ==> cq == 0,
                0 < n,
        ;
        assert(q <= ll) by (nonlinear_arith)
            requires
                (q - 1) * n < num || num == 0,
                num == 0 ==> q == 0,
                num == ll * aa,
                aa <= n,
                0 < n,
                0 <= ll,
        ;
        assert(len * len * (c * c) == num);
        lemma_scaled_magnitude_bound(c as int, n as int, len as int);
    }
    let m: u64 = if q == 0 {
        0
    } else {
        isqrt((q - 1) as u64) + 1
    };
    if c < 0 {
        -(m as i64)
    } else if c == 0 {
        0
    } else {
        m as i64
    }
}

} // verus!
