//! Support points in the four axis directions, where no rounding occurs.

use vstd::prelude::*;
use crate::gjk::support_diff;
use crate::scaling::{
    lemma_scaled_magnitude_holds, lemma_scaled_magnitude_is, lemma_sign_times, scaled_magnitude,
    sign,
};
use crate::shapes::SpecShape;
use crate::vector::SpecVector;

verus! {

/// `d` points along an axis: one of its components is zero, the other is
/// not.
pub open spec fn on_axis(d: SpecVector) -> bool {
    (d.x == 0) != (d.y == 0)
}

/// The vector of length `len` along the axis of `d`, on the side of `d`.
pub open spec fn along(d: SpecVector, len: int) -> SpecVector {
    SpecVector { x: sign(d.x) * len, y: sign(d.y) * len }
}

/// A direction along an axis is brought to a length without rounding.
pub proof fn lemma_resized_on_axis(d: SpecVector, len: int)
    requires
        on_axis(d),
        0 <= len,
    ensures
        d.resized(len) == along(d, len),
{
    let n = d.norm_sq();
    let k = if d.x != 0 {
        d.x
    } else {
        d.y
    };
    assert(n == k * k && n > 0) by (nonlinear_arith)
        requires
            n == d.x * d.x + d.y * d.y,
            (d.x == 0 && k == d.y) || (d.y == 0 && k == d.x),
            k != 0,
    ;
    if len > 0 {
        assert((len - 1) * (len - 1) * (k * k) < len * len * (k * k)) by (nonlinear_arith)
            requires
                0 < len,
                k * k > 0,
        ;
    }
    lemma_scaled_magnitude_is(len, k, n, len);
    lemma_scaled_magnitude_holds(0, n, len);
    lemma_sign_times(0, scaled_magnitude(0, n, len));
    lemma_sign_times(0, len);
}

/// The components of a resized vector have the signs of the vector's, or
/// are zero.
pub proof fn lemma_resized_signs(d: SpecVector, len: int)
    requires
        !d.is_zero(),
    ensures
        d.x >= 0 ==> d.resized(len).x >= 0,
        d.x <= 0 ==> d.resized(len).x <= 0,
        d.y >= 0 ==> d.resized(len).y >= 0,
        d.y <= 0 ==> d.resized(len).y <= 0,
{
    let n = d.norm_sq();
    assert(n > 0) by (nonlinear_arith)
        requires
            n == d.x * d.x + d.y * d.y,
            d.x != 0 || d.y != 0,
    ;
    lemma_scaled_magnitude_holds(d.x, n, len);
    lemma_scaled_magnitude_holds(d.y, n, len);
    lemma_sign_times(d.x, scaled_magnitude(d.x, n, len));
    lemma_sign_times(d.y, scaled_magnitude(d.y, n, len));
}

/// Along an axis the support point of either kind of shape is the point
/// of that axis at the shape's size from the center.
pub proof fn lemma_support_on_axis(s: SpecShape, d: SpecVector)
    requires
        on_axis(d),
        0 <= s.size(),
    ensures
        s.support(d) == s.center().plus(along(d, s.size())),
{
    lemma_resized_on_axis(d, s.size());
    lemma_sign_times(d.x, s.size());
    lemma_sign_times(d.y, s.size());
}

/// Along an axis the support point of the difference of two shapes lies
/// at the sum of their sizes from the difference of their centers.
pub proof fn lemma_support_diff_on_axis(s1: SpecShape, s2: SpecShape, d: SpecVector)
    requires
        on_axis(d),
        0 <= s1.size(),
        0 <= s2.size(),
    ensures
        support_diff(s1, s2, d) == s1.center().minus(s2.center()).plus(
            along(d, s1.size() + s2.size()),
        ),
{
    lemma_support_on_axis(s1, d);
    lemma_support_on_axis(s2, d.negated());
    lemma_sign_times(d.x, s1.size());
    lemma_sign_times(d.y, s1.size());
    lemma_sign_times(-d.x, s2.size());
    lemma_sign_times(-d.y, s2.size());
    lemma_sign_times(d.x, s1.size() + s2.size());
    lemma_sign_times(d.y, s1.size() + s2.size());
}

} // verus!
