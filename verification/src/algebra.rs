//! Inequalities between sums of products, as the laws on support points
//! need them.

use vstd::prelude::*;
use crate::roots::lemma_square_lt;

verus! {

/// The square of a dot product is at most the product of the squared
/// lengths.
pub proof fn lemma_dot_square(a: int, b: int, c: int, d: int)
    ensures
        (a * c + b * d) * (a * c + b * d) <= (a * a + b * b) * (c * c + d * d),
{
    let p = a * c;
    let q = b * d;
    let r = a * d;
    let s = b * c;
    assert(p * q == r * s) by (nonlinear_arith)
        requires
            p == a * c,
            q == b * d,
            r == a * d,
            s == b * c,
    ;
    assert(a * a * (c * c) == p * p) by (nonlinear_arith)
        requires
            p == a * c,
    ;
    assert(b * b * (d * d) == q * q) by (nonlinear_arith)
        requires
            q == b * d,
    ;
    assert(a * a * (d * d) == r * r) by (nonlinear_arith)
        requires
            r == a * d,
    ;
    assert(b * b * (c * c) == s * s) by (nonlinear_arith)
        requires
            s == b * c,
    ;
    assert((a * a + b * b) * (c * c + d * d) == a * a * (c * c) + a * a * (d * d) + b * b * (c
        * c) + b * b * (d * d)) by (nonlinear_arith);
    assert((p + q) * (p + q) == p * p + 2 * (p * q) + q * q) by (nonlinear_arith);
    assert(2 * (r * s) <= r * r + s * s) by (nonlinear_arith);
}

/// Numbers that each hold their own against a scaled counterpart do so
/// together: from `pf^2 <= p^2 n` and `qf^2 <= q^2 n` follows
/// `(pf + qf)^2 <= (p + q)^2 n`.
pub proof fn lemma_scaled_sum(p: int, q: int, pf: int, qf: int, n: int)
    requires
        0 <= p,
        0 <= q,
        0 <= pf,
        0 <= qf,
        0 <= n,
        pf * pf <= p * p * n,
        qf * qf <= q * q * n,
    ensures
        (pf + qf) * (pf + qf) <= (p + q) * (p + q) * n,
{
    let w = p * q * n;
    let z = pf * qf;
    assert(0 <= w && 0 <= z) by (nonlinear_arith)
        requires
            0 <= p,
            0 <= q,
            0 <= pf,
            0 <= qf,
            0 <= n,
            w == p * q * n,
            z == pf * qf,
    ;
    assert(z * z == (pf * pf) * (qf * qf)) by (nonlinear_arith)
        requires
            z == pf * qf,
    ;
    assert(w * w == (p * p * n) * (q * q * n)) by (nonlinear_arith)
        requires
            w == p * q * n,
    ;
    assert((pf * pf) * (qf * qf) <= (p * p * n) * (q * q * n)) by (nonlinear_arith)
        requires
            0 <= pf * pf <= p * p * n,
            0 <= qf * qf <= q * q * n,
    {
        assert(0 <= pf * pf);
        assert(0 <= qf * qf);
    }
    if w < z {
        lemma_square_lt(w, z);
    }
    assert((p + q) * (p + q) * n == p * p * n + 2 * w + q * q * n) by (nonlinear_arith)
        requires
            w == p * q * n,
    ;
    assert((pf + qf) * (pf + qf) == pf * pf + 2 * z + qf * qf) by (nonlinear_arith)
        requires
            z == pf * qf,
    ;
}

/// If `u` and `v` reach the shares `r * a / sqrt(n)` and
/// `r * b / sqrt(n)` of a length `r`, where `n` is `a * a + b * b`, then
/// `k * (u * a + v * b)` reaches every `t` whose square is at most
/// `n * (k * r)^2`.
pub proof fn lemma_reach(a: int, b: int, u: int, v: int, r: int, k: int, t: int)
    requires
        0 <= a,
        0 <= b,
        0 < a + b,
        0 <= u,
        0 <= v,
        0 <= r,
        0 < k,
        r * r * (a * a) <= u * u * (a * a + b * b),
        r * r * (b * b) <= v * v * (a * a + b * b),
        t * t <= (a * a + b * b) * ((k * r) * (k * r)),
    ensures
        t <= k * (u * a + v * b),
{
    let n = a * a + b * b;
    let ga = a * a;
    let gb = b * b;
    let p = u * a;
    let q = v * b;
    let pf = r * ga;
    let qf = r * gb;
    assert(n > 0 && 0 <= ga && 0 <= gb && 0 <= p && 0 <= q && 0 <= pf && 0 <= qf)
        by (nonlinear_arith)
        requires
            0 <= a,
            0 <= b,
            0 < a + b,
            0 <= u,
            0 <= v,
            0 <= r,
            n == a * a + b * b,
            ga == a * a,
            gb == b * b,
            p == u * a,
            q == v * b,
            pf == r * ga,
            qf == r * gb,
    ;
    assert(p * p * n == (u * u * n) * ga) by (nonlinear_arith)
        requires
            p == u * a,
            ga == a * a,
    ;
    assert(pf * pf == (r * r * ga) * ga) by (nonlinear_arith)
        requires
            pf == r * ga,
    ;
    assert((r * r * ga) * ga <= (u * u * n) * ga) by (nonlinear_arith)
        requires
            r * r * ga <= u * u * n,
            0 <= ga,
    ;
    assert(q * q * n == (v * v * n) * gb) by (nonlinear_arith)
        requires
            q == v * b,
            gb == b * b,
    ;
    assert(qf * qf == (r * r * gb) * gb) by (nonlinear_arith)
        requires
            qf == r * gb,
    ;
    assert((r * r * gb) * gb <= (v * v * n) * gb) by (nonlinear_arith)
        requires
            r * r * gb <= v * v * n,
            0 <= gb,
    ;
    lemma_scaled_sum(p, q, pf, qf, n);
    let s = p + q;
    let f = pf + qf;
    assert(f == r * n) by (nonlinear_arith)
        requires
            f == r * ga + r * gb,
            n == ga + gb,
    ;
    assert(f * f == (r * r * n) * n) by (nonlinear_arith)
        requires
            f == r * n,
    ;
    assert(r * r * n <= s * s) by (nonlinear_arith)
        requires
            n > 0,
            (r * r * n) * n <= s * s * n,
    ;
    let ks = k * s;
    assert(0 <= ks && t * t <= ks * ks) by (nonlinear_arith)
        requires
            ks == k * s,
            0 < k,
            0 <= s,
            r * r * n <= s * s,
            t * t <= n * ((k * r) * (k * r)),
    {
        assert(n * ((k * r) * (k * r)) == (k * k) * (r * r * n));
        assert(ks * ks == (k * k) * (s * s));
        assert((k * k) * (r * r * n) <= (k * k) * (s * s));
    }
    if ks < t {
        lemma_square_lt(ks, t);
    }
}

} // verus!
