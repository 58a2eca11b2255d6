//! What holds of the support points, for all shapes and directions.

use vstd::prelude::*;
use crate::algebra::{lemma_dot_square, lemma_reach};
use crate::gjk::support_diff;
use crate::scaling::{
    abs, lemma_scaled_magnitude_holds, lemma_scaled_magnitude_is,
    lemma_scaled_magnitude_positive, lemma_sign_times, scaled_magnitude, sign,
};
use crate::shapes::{axis_offset, sector_of, Sector, SpecShape};
use crate::vector::SpecVector;

verus! {

/// The point `(x / k, y / k)` is a point of the shape `s`: no farther
/// from the center than the radius, for a circle; inside the four edges,
/// for a diamond. The divisor `k` is positive.
pub open spec fn contains_fraction(s: SpecShape, x: int, y: int, k: int) -> bool {
    let ox = x - k * s.center().x;
    let oy = y - k * s.center().y;
    match s {
        SpecShape::Circle { radius, .. } => ox * ox + oy * oy <= (k * radius) * (k * radius),
        SpecShape::Diamond { half_diagonal, .. } => abs(ox) + abs(oy) <= k * half_diagonal,
    }
}

/// The grid point `p` is a point of the shape `s`.
pub open spec fn contains(s: SpecShape, p: SpecVector) -> bool {
    contains_fraction(s, p.x, p.y, 1)
}

/// The vector one grid unit shorter along each axis on which it is not
/// zero.
pub open spec fn pulled_in(o: SpecVector) -> SpecVector {
    SpecVector { x: o.x - sign(o.x), y: o.y - sign(o.y) }
}

/// The offset of a circle's support point from the center has, along
/// each axis, the rounded-up magnitude and the sign of the direction.
proof fn lemma_circle_offset(s: SpecShape, d: SpecVector)
    requires
        s is Circle,
        !d.is_zero(),
    ensures
        d.norm_sq() > 0,
        s.support(d).minus(s.center()).x == sign(d.x) * scaled_magnitude(
            d.x,
            d.norm_sq(),
            s.size(),
        ),
        s.support(d).minus(s.center()).y == sign(d.y) * scaled_magnitude(
            d.y,
            d.norm_sq(),
            s.size(),
        ),
        abs(s.support(d).minus(s.center()).x) == scaled_magnitude(d.x, d.norm_sq(), s.size()),
        abs(s.support(d).minus(s.center()).y) == scaled_magnitude(d.y, d.norm_sq(), s.size()),
{
    let n = d.norm_sq();
    let r = s.size();
    assert(n > 0) by (nonlinear_arith)
        requires
            n == d.x * d.x + d.y * d.y,
            d.x != 0 || d.y != 0,
    ;
    lemma_scaled_magnitude_holds(d.x, n, r);
    lemma_scaled_magnitude_holds(d.y, n, r);
    let mx = scaled_magnitude(d.x, n, r);
    let my = scaled_magnitude(d.y, n, r);
    lemma_sign_times(d.x, mx);
    lemma_sign_times(d.y, my);
    if d.x == 0 && mx > 0 {
        assert(false) by (nonlinear_arith)
            requires
                n > 0,
                (mx - 1) * (mx - 1) * n < r * r * (0 * 0),
        ;
    }
    if d.y == 0 && my > 0 {
        assert(false) by (nonlinear_arith)
            requires
                n > 0,
                (my - 1) * (my - 1) * n < r * r * (0 * 0),
        ;
    }
}

/// The support point of a circle lies on its rim, up to rounding: it is
/// at least the radius away from the center, and the point one grid unit
/// closer to the center along each axis is less than the radius away.
pub proof fn lemma_circle_support_on_rim(s: SpecShape, d: SpecVector)
    requires
        s is Circle,
        0 < s.size(),
        !d.is_zero(),
    ensures
        s.size() * s.size() <= s.support(d).minus(s.center()).norm_sq(),
        pulled_in(s.support(d).minus(s.center())).norm_sq() < s.size() * s.size(),
{
    let n = d.norm_sq();
    let r = s.size();
    let o = s.support(d).minus(s.center());
    lemma_circle_offset(s, d);
    lemma_scaled_magnitude_holds(d.x, n, r);
    lemma_scaled_magnitude_holds(d.y, n, r);
    let mx = scaled_magnitude(d.x, n, r);
    let my = scaled_magnitude(d.y, n, r);
    if d.x != 0 {
        lemma_scaled_magnitude_positive(d.x, n, r);
    }
    if d.y != 0 {
        lemma_scaled_magnitude_positive(d.y, n, r);
    }
    lemma_sign_times(d.x, mx);
    lemma_sign_times(d.y, my);
    assert(o.x * o.x == mx * mx && o.y * o.y == my * my) by (nonlinear_arith)
        requires
            abs(o.x) == mx,
            abs(o.y) == my,
    ;
    assert(r * r <= mx * mx + my * my) by (nonlinear_arith)
        requires
            n > 0,
            n == d.x * d.x + d.y * d.y,
            r * r * (d.x * d.x) <= mx * mx * n,
            r * r * (d.y * d.y) <= my * my * n,
    ;
    let i = pulled_in(o);
    let ix = if mx > 0 {
        mx - 1
    } else {
        0
    };
    let iy = if my > 0 {
        my - 1
    } else {
        0
    };
    assert(i.x * i.x == ix * ix && i.y * i.y == iy * iy) by (nonlinear_arith)
        requires
            i.x == ix || i.x == -ix,
            i.y == iy || i.y == -iy,
    ;
    assert(ix * ix * n <= r * r * (d.x * d.x) && (mx > 0 ==> ix * ix * n < r * r * (d.x * d.x)))
        by (nonlinear_arith)
        requires
            mx > 0 ==> ix == mx - 1 && (mx - 1) * (mx - 1) * n < r * r * (d.x * d.x),
            mx <= 0 ==> ix == 0,
    ;
    assert(iy * iy * n <= r * r * (d.y * d.y) && (my > 0 ==> iy * iy * n < r * r * (d.y * d.y)))
        by (nonlinear_arith)
        requires
            my > 0 ==> iy == my - 1 && (my - 1) * (my - 1) * n < r * r * (d.y * d.y),
            my <= 0 ==> iy == 0,
    ;
    assert(ix * ix + iy * iy < r * r) by (nonlinear_arith)
        requires
            n > 0,
            n == d.x * d.x + d.y * d.y,
            ix * ix * n <= r * r * (d.x * d.x),
            iy * iy * n <= r * r * (d.y * d.y),
            ix * ix * n < r * r * (d.x * d.x) || iy * iy * n < r * r * (d.y * d.y),
    ;
}

/// No point of a shape lies farther in the direction `d` than the
/// shape's support point does. The point is `(x / k, y / k)`: its place
/// along `d`, times `k`, is compared with `k` times that of the support
/// point.
pub proof fn lemma_support_is_extremal(s: SpecShape, d: SpecVector, x: int, y: int, k: int)
    requires
        0 <= s.size(),
        !d.is_zero(),
        0 < k,
        contains_fraction(s, x, y, k),
    ensures
        d.x * x + d.y * y <= k * d.dot(s.support(d)),
{
    let c = s.center();
    let r = s.size();
    let ox = x - k * c.x;
    let oy = y - k * c.y;
    let t = d.x * ox + d.y * oy;
    let o = s.support(d).minus(c);
    assert(d.x * x + d.y * y == k * d.dot(c) + t) by {
        assert(d.x * ox == d.x * x - d.x * (k * c.x)) by (nonlinear_arith)
            requires
                ox == x - k * c.x,
        ;
        assert(d.y * oy == d.y * y - d.y * (k * c.y)) by (nonlinear_arith)
            requires
                oy == y - k * c.y,
        ;
        assert(d.x * (k * c.x) == k * (d.x * c.x)) by (nonlinear_arith);
        assert(d.y * (k * c.y) == k * (d.y * c.y)) by (nonlinear_arith);
        assert(k * (d.x * c.x + d.y * c.y) == k * (d.x * c.x) + k * (d.y * c.y))
            by (nonlinear_arith);
    }
    assert(k * d.dot(s.support(d)) == k * d.dot(c) + k * d.dot(o)) by (nonlinear_arith)
        requires
            o == s.support(d).minus(c),
    ;
    match s {
        SpecShape::Circle { .. } => {
            let n = d.norm_sq();
            lemma_circle_offset(s, d);
            lemma_scaled_magnitude_holds(d.x, n, r);
            lemma_scaled_magnitude_holds(d.y, n, r);
            let mx = scaled_magnitude(d.x, n, r);
            let my = scaled_magnitude(d.y, n, r);
            lemma_sign_times(d.x, mx);
            lemma_sign_times(d.y, my);
            let a = abs(d.x);
            let b = abs(d.y);
            assert(a * a == d.x * d.x && b * b == d.y * d.y) by (nonlinear_arith)
                requires
                    a == abs(d.x),
                    b == abs(d.y),
            ;
            assert(d.x * o.x == mx * a && d.y * o.y == my * b) by (nonlinear_arith)
                requires
                    a == abs(d.x),
                    b == abs(d.y),
                    o.x == if d.x < 0 {
                        -mx
                    } else if d.x == 0 {
                        0
                    } else {
                        mx
                    },
                    o.y == if d.y < 0 {
                        -my
                    } else if d.y == 0 {
                        0
                    } else {
                        my
                    },
            ;
            lemma_dot_square(d.x, d.y, ox, oy);
            assert(t * t <= (a * a + b * b) * ((k * r) * (k * r))) by (nonlinear_arith)
                requires
                    t * t <= (d.x * d.x + d.y * d.y) * (ox * ox + oy * oy),
                    a * a == d.x * d.x,
                    b * b == d.y * d.y,
                    ox * ox + oy * oy <= (k * r) * (k * r),
            {
                assert(0 <= d.x * d.x + d.y * d.y);
            }
            lemma_reach(a, b, mx, my, r, k, t);
        },
        SpecShape::Diamond { .. } => {
            let m = if abs(d.x) >= abs(d.y) {
                abs(d.x)
            } else {
                abs(d.y)
            };
            assert(d.dot(o) == m * r) by (nonlinear_arith)
                requires
                    o == axis_offset(sector_of(d), r),
                    m == if abs(d.x) >= abs(d.y) {
                        abs(d.x)
                    } else {
                        abs(d.y)
                    },
                    !d.is_zero(),
            ;
            assert(t <= k * (m * r)) by (nonlinear_arith)
                requires
                    t == d.x * ox + d.y * oy,
                    abs(d.x) <= m,
                    abs(d.y) <= m,
                    abs(ox) + abs(oy) <= k * r,
            {
                assert(d.x * ox <= m * abs(ox));
                assert(d.y * oy <= m * abs(oy));
                assert(m * abs(ox) + m * abs(oy) <= m * (k * r));
            }
        },
    }
}

/// No grid point of a shape lies farther in the direction `d` than the
/// shape's support point does.
pub proof fn lemma_support_is_extremal_on_grid(s: SpecShape, d: SpecVector, p: SpecVector)
    requires
        0 <= s.size(),
        !d.is_zero(),
        contains(s, p),
    ensures
        d.dot(p) <= d.dot(s.support(d)),
{
    lemma_support_is_extremal(s, d, p.x, p.y, 1);
}

/// The support point of a diamond is a point of the diamond.
pub proof fn lemma_diamond_holds_its_support(s: SpecShape, d: SpecVector)
    requires
        s is Diamond,
        0 <= s.size(),
    ensures
        contains(s, s.support(d)),
{
}

/// The support point depends on the direction alone, not on the length of
/// the vector that gives it: a direction need not be normalized.
pub proof fn lemma_support_ignores_length(s: SpecShape, d: SpecVector, k: int)
    requires
        !d.is_zero(),
        0 < k,
    ensures
        s.support(d.scaled(k)) == s.support(d),
{
    let e = d.scaled(k);
    match s {
        SpecShape::Circle { radius, .. } => {
            let n = d.norm_sq();
            assert(n > 0) by (nonlinear_arith)
                requires
                    n == d.x * d.x + d.y * d.y,
                    d.x != 0 || d.y != 0,
            ;
            assert(e.norm_sq() == (k * k) * n && (k * k) * n > 0) by (nonlinear_arith)
                requires
                    e == d.scaled(k),
                    n == d.x * d.x + d.y * d.y,
                    n > 0,
                    0 < k,
            ;
            lemma_same_share(d.x, n, radius, k);
            lemma_same_share(d.y, n, radius, k);
            assert(sign(e.x) == sign(d.x) && sign(e.y) == sign(d.y)) by (nonlinear_arith)
                requires
                    e == d.scaled(k),
                    0 < k,
            ;
        },
        SpecShape::Diamond { .. } => {
            assert(sector_of(e) == sector_of(d)) by (nonlinear_arith)
                requires
                    e == d.scaled(k),
                    0 < k,
            ;
        },
    }
}

/// A component keeps its share of a length when the whole direction is
/// multiplied by a positive number.
proof fn lemma_same_share(c: int, n: int, len: int, k: int)
    requires
        0 < n,
        0 < k,
    ensures
        scaled_magnitude(c * k, (k * k) * n, len) == scaled_magnitude(c, n, len),
{
    let m = scaled_magnitude(c, n, len);
    let g = k * k;
    lemma_scaled_magnitude_holds(c, n, len);
    assert(g > 0 && g * n > 0) by (nonlinear_arith)
        requires
            g == k * k,
            0 < k,
            0 < n,
    ;
    assert((c * k) * (c * k) == g * (c * c)) by (nonlinear_arith)
        requires
            g == k * k,
    ;
    let num = len * len * (c * c);
    assert(len * len * (g * (c * c)) == g * num) by (nonlinear_arith)
        requires
            num == len * len * (c * c),
    ;
    assert(m * m * (g * n) == g * (m * m * n)) by (nonlinear_arith);
    assert(g * num <= g * (m * m * n)) by (nonlinear_arith)
        requires
            num <= m * m * n,
            g > 0,
    ;
    if m > 0 {
        assert((m - 1) * (m - 1) * (g * n) == g * ((m - 1) * (m - 1) * n)) by (nonlinear_arith);
        assert(g * ((m - 1) * (m - 1) * n) < g * num) by (nonlinear_arith)
            requires
                (m - 1) * (m - 1) * n < num,
                g > 0,
        ;
    }
    lemma_scaled_magnitude_is(m, c * k, g * n, len);
}

/// The support point of a diamond is one of its four corners, whatever
/// the direction.
pub proof fn lemma_diamond_support_is_vertex(s: SpecShape, d: SpecVector)
    requires
        s is Diamond,
    ensures
        s.support(d) == s.vertex(Sector::Left) || s.support(d) == s.vertex(Sector::Down)
            || s.support(d) == s.vertex(Sector::Right) || s.support(d) == s.vertex(Sector::Up),
        s.vertex(Sector::Left) == s.center().plus(SpecVector { x: -s.size(), y: 0 }),
        s.vertex(Sector::Down) == s.center().plus(SpecVector { x: 0, y: -s.size() }),
        s.vertex(Sector::Right) == s.center().plus(SpecVector { x: s.size(), y: 0 }),
        s.vertex(Sector::Up) == s.center().plus(SpecVector { x: 0, y: s.size() }),
{
}

/// Two directions in one sector give the same support point of a
/// diamond.
pub proof fn lemma_diamond_support_is_stable(s: SpecShape, d1: SpecVector, d2: SpecVector)
    requires
        s is Diamond,
        sector_of(d1) == sector_of(d2),
    ensures
        s.support(d1) == s.support(d2),
{
}

/// The support point of the difference of `a` and `b` in a direction is
/// the opposite of the support point of the difference of `b` and `a` in
/// the opposite direction.
pub proof fn lemma_support_diff_symmetry(a: SpecShape, b: SpecShape, d: SpecVector)
    ensures
        support_diff(a, b, d) == support_diff(b, a, d.negated()).negated(),
{
    assert(d.negated().negated() == d);
}

} // verus!
