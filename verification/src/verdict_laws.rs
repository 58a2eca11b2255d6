//! What holds of the overlap test, for all shapes.

use vstd::prelude::*;
use crate::axis::{lemma_resized_on_axis, lemma_resized_signs, lemma_support_diff_on_axis};
use crate::gjk::{
    round, start, support_diff, toward_origin, verdict, verdict_from, Progress, SpecSimplex,
    Verdict, MAX_ROUNDS,
};
use crate::scaling::abs;
use crate::shapes::SpecShape;
use crate::support_laws::{contains_fraction, lemma_support_is_extremal};
use crate::vector::{lemma_resized_nonzero, SpecVector, ONE};

verus! {

/// The cross product of two vectors of space.
pub open spec fn cross_in_space(a: (int, int, int), b: (int, int, int)) -> (int, int, int) {
    (a.1 * b.2 - a.2 * b.1, a.2 * b.0 - a.0 * b.2, a.0 * b.1 - a.1 * b.0)
}

/// With `pq` and `po` taken as vectors of space, `(pq x po) x pq` lies in
/// the plane, is `pq` turned a quarter turn and multiplied by the third
/// component of `pq x po`, stands at right angles to `pq`, and does not
/// point away from `po`. This is the direction that
/// [`toward_origin`] rounds to a fixed length.
pub proof fn lemma_double_cross(pq: SpecVector, po: SpecVector)
    ensures
        ({
            let e = (pq.x, pq.y, 0int);
            let o = (po.x, po.y, 0int);
            let w = pq.turned().scaled(pq.cross(po));
            &&& cross_in_space(cross_in_space(e, o), e) == (w.x, w.y, 0int)
            &&& w.dot(pq) == 0
            &&& w.dot(po) == pq.cross(po) * pq.cross(po)
            &&& w.dot(po) >= 0
        }),
{
    let z = pq.cross(po);
    let w = pq.turned().scaled(z);
    assert(cross_in_space((pq.x, pq.y, 0int), (po.x, po.y, 0int)) == (0int, 0int, z))
        by (nonlinear_arith)
        requires
            z == pq.x * po.y - pq.y * po.x,
    ;
    assert(cross_in_space((0int, 0int, z), (pq.x, pq.y, 0int)) == (w.x, w.y, 0int))
        by (nonlinear_arith)
        requires
            w == pq.turned().scaled(z),
    ;
    assert(w.dot(pq) == 0) by (nonlinear_arith)
        requires
            w == pq.turned().scaled(z),
    ;
    assert(w.dot(po) == z * z) by (nonlinear_arith)
        requires
            w == pq.turned().scaled(z),
            z == pq.x * po.y - pq.y * po.x,
    ;
    assert(z * z >= 0) by (nonlinear_arith);
}

/// The direction that a round searches in is never zero.
pub proof fn lemma_toward_origin_nonzero(p: SpecVector, q: SpecVector)
    ensures
        !toward_origin(p, q).is_zero(),
{
    let pq = q.minus(p);
    let po = p.negated();
    let z = pq.cross(po);
    assert(pq.is_zero() ==> z == 0) by (nonlinear_arith)
        requires
            z == pq.x * po.y - pq.y * po.x,
    ;
    if !pq.is_zero() {
        lemma_resized_nonzero(pq.turned(), ONE as int);
        lemma_resized_nonzero(pq.turned().negated(), ONE as int);
    }
    if !p.is_zero() {
        lemma_resized_nonzero(po, ONE as int);
    }
}

/// Where two shapes share a point, the support point of their difference
/// lies on the side of every direction, or on the line through the
/// origin across it: the difference holds the origin.
pub proof fn lemma_shared_point_is_reached(
    s1: SpecShape,
    s2: SpecShape,
    d: SpecVector,
    x: int,
    y: int,
    k: int,
)
    requires
        0 <= s1.size(),
        0 <= s2.size(),
        !d.is_zero(),
        0 < k,
        contains_fraction(s1, x, y, k),
        contains_fraction(s2, x, y, k),
    ensures
        0 <= d.dot(support_diff(s1, s2, d)),
{
    let e = d.negated();
    let a = s1.support(d);
    let b = s2.support(e);
    lemma_support_is_extremal(s1, d, x, y, k);
    lemma_support_is_extremal(s2, e, x, y, k);
    assert(e.x * x + e.y * y == -(d.x * x + d.y * y)) by (nonlinear_arith)
        requires
            e == d.negated(),
    ;
    assert(e.dot(b) == -d.dot(b)) by (nonlinear_arith)
        requires
            e == d.negated(),
    ;
    assert(d.dot(a.minus(b)) == d.dot(a) - d.dot(b)) by (nonlinear_arith);
    let u = d.dot(a);
    let v = d.dot(b);
    assert(0 <= u - v) by (nonlinear_arith)
        requires
            0 < k,
            0 <= k * u + k * (-v),
    ;
}

/// Where two shapes share a point, no number of rounds from any simplex
/// ends with the answer that they do not overlap.
pub proof fn lemma_shared_point_from(
    s1: SpecShape,
    s2: SpecShape,
    sx: SpecSimplex,
    rounds: nat,
    x: int,
    y: int,
    k: int,
)
    requires
        0 <= s1.size(),
        0 <= s2.size(),
        0 < k,
        contains_fraction(s1, x, y, k),
        contains_fraction(s2, x, y, k),
    ensures
        verdict_from(s1, s2, sx, rounds) != Verdict::NoOverlap,
    decreases rounds,
{
    if rounds > 0 {
        let dir = toward_origin(sx.a, sx.b);
        lemma_toward_origin_nonzero(sx.a, sx.b);
        lemma_shared_point_is_reached(s1, s2, dir, x, y, k);
        let r = round(s1, s2, sx);
        assert(r.progress != Progress::NoOverlap);
        lemma_shared_point_from(s1, s2, r.simplex, (rounds - 1) as nat, x, y, k);
    }
}

/// Two shapes that share a point, be it a single point in which they
/// touch, are never told apart: the test does not answer that they do
/// not overlap. The point is `(x / k, y / k)`.
pub proof fn lemma_shared_point_is_never_ruled_out(
    s1: SpecShape,
    s2: SpecShape,
    x: int,
    y: int,
    k: int,
)
    requires
        s1.wf(),
        s2.wf(),
        0 < k,
        contains_fraction(s1, x, y, k),
        contains_fraction(s2, x, y, k),
    ensures
        verdict(s1, s2) != Verdict::NoOverlap,
{
    lemma_shared_point_from(s1, s2, start(s1, s2), MAX_ROUNDS as nat, x, y, k);
}

/// Two shapes with the same center overlap, and the test says so in its
/// first round.
pub proof fn lemma_same_center_overlaps(s1: SpecShape, s2: SpecShape)
    requires
        s1.wf(),
        s2.wf(),
        s1.center() == s2.center(),
    ensures
        verdict(s1, s2) == Verdict::Overlap,
{
    let r = s1.size() + s2.size();
    let e1 = SpecVector { x: ONE as int, y: 0 };
    let a = SpecVector { x: r, y: 0 };
    let b = SpecVector { x: -r, y: 0 };
    let c = SpecVector { x: 0, y: -r };
    lemma_support_diff_on_axis(s1, s2, e1);
    lemma_support_diff_on_axis(s1, s2, a.negated());
    let sx = start(s1, s2);
    assert(sx == SpecSimplex { a, b });
    assert(r * r > 0) by (nonlinear_arith)
        requires
            r > 0,
    ;
    assert(a.dot(b) == -(r * r)) by (nonlinear_arith)
        requires
            a == (SpecVector { x: r, y: 0 }),
            b == (SpecVector { x: -r, y: 0 }),
    ;
    let dir = toward_origin(a, b);
    assert(b.minus(a).cross(a.negated()) == 0) by (nonlinear_arith)
        requires
            a == (SpecVector { x: r, y: 0 }),
            b == (SpecVector { x: -r, y: 0 }),
    ;
    lemma_resized_on_axis(b.minus(a).turned(), ONE as int);
    assert(dir == b.minus(a).turned().resized(ONE as int));
    assert(dir == SpecVector { x: 0, y: -(ONE as int) });
    lemma_support_diff_on_axis(s1, s2, dir);
    assert(support_diff(s1, s2, dir) == c);
    assert(dir.dot(c) >= 0) by (nonlinear_arith)
        requires
            dir == (SpecVector { x: 0, y: -65536 }),
            c == (SpecVector { x: 0, y: -r }),
            r > 0,
    ;
    let d1 = toward_origin(a, c);
    assert(c.minus(a).cross(a.negated()) == -(r * r)) by (nonlinear_arith)
        requires
            a == (SpecVector { x: r, y: 0 }),
            c == (SpecVector { x: 0, y: -r }),
    ;
    lemma_resized_signs(c.minus(a).turned().negated(), ONE as int);
    assert(d1.x <= 0);
    assert(d1.dot(a.negated()) >= 0) by (nonlinear_arith)
        requires
            d1.x <= 0,
            r > 0,
            a == (SpecVector { x: r, y: 0 }),
    ;
    let d2 = toward_origin(b, c);
    assert(c.minus(b).cross(b.negated()) == r * r) by (nonlinear_arith)
        requires
            b == (SpecVector { x: -r, y: 0 }),
            c == (SpecVector { x: 0, y: -r }),
    ;
    lemma_resized_signs(c.minus(b).turned(), ONE as int);
    assert(d2.x >= 0);
    assert(d2.dot(b.negated()) >= 0) by (nonlinear_arith)
        requires
            d2.x >= 0,
            r > 0,
            b == (SpecVector { x: -r, y: 0 }),
    ;
    assert(round(s1, s2, sx).progress == Progress::Overlap);
}

/// Two shapes whose centers lie on one horizontal line, farther apart
/// than the sum of their sizes, do not overlap, and the test says so in
/// its first round.
pub proof fn lemma_apart_on_horizontal_line(s1: SpecShape, s2: SpecShape)
    requires
        s1.wf(),
        s2.wf(),
        s1.center().y == s2.center().y,
        abs(s1.center().x - s2.center().x) > s1.size() + s2.size(),
    ensures
        verdict(s1, s2) == Verdict::NoOverlap,
{
    let r = s1.size() + s2.size();
    let cx = s1.center().x - s2.center().x;
    let e1 = SpecVector { x: ONE as int, y: 0 };
    let a = SpecVector { x: cx + r, y: 0 };
    lemma_support_diff_on_axis(s1, s2, e1);
    lemma_support_diff_on_axis(s1, s2, a.negated());
    let sx = start(s1, s2);
    if cx < 0 {
        assert(sx == SpecSimplex { a, b: a });
        assert(a.minus(a).cross(a.negated()) == 0) by (nonlinear_arith);
        let dir = toward_origin(a, a);
        lemma_resized_on_axis(a.negated(), ONE as int);
        assert(dir == e1);
        assert(dir.dot(a) < 0) by (nonlinear_arith)
            requires
                dir == (SpecVector { x: 65536, y: 0 }),
                a.x < 0,
        ;
        assert(round(s1, s2, sx).progress == Progress::NoOverlap);
    } else {
        let b = SpecVector { x: cx - r, y: 0 };
        assert(sx == SpecSimplex { a, b });
        assert(b.minus(a).cross(a.negated()) == 0) by (nonlinear_arith)
            requires
                a.y == 0,
                b.y == 0,
        ;
        assert(a.dot(b) > 0) by (nonlinear_arith)
            requires
                a.x > 0,
                b.x > 0,
                a.y == 0,
                b.y == 0,
        ;
        let dir = toward_origin(a, b);
        lemma_resized_on_axis(a.negated(), ONE as int);
        assert(dir == e1.negated());
        lemma_support_diff_on_axis(s1, s2, dir);
        assert(support_diff(s1, s2, dir) == b);
        assert(dir.dot(b) < 0) by (nonlinear_arith)
            requires
                dir == (SpecVector { x: -65536, y: 0 }),
                b.x > 0,
        ;
        assert(round(s1, s2, sx).progress == Progress::NoOverlap);
    }
}

/// Two shapes whose centers lie on one horizontal line, exactly the sum
/// of their sizes apart, touch in one point, and the test reports an
/// overlap in its first round.
pub proof fn lemma_touching_on_horizontal_line(s1: SpecShape, s2: SpecShape)
    requires
        s1.wf(),
        s2.wf(),
        s1.center().y == s2.center().y,
        abs(s1.center().x - s2.center().x) == s1.size() + s2.size(),
    ensures
        verdict(s1, s2) == Verdict::Overlap,
{
    let r = s1.size() + s2.size();
    let cx = s1.center().x - s2.center().x;
    let e1 = SpecVector { x: ONE as int, y: 0 };
    let o = SpecVector::zero();
    lemma_support_diff_on_axis(s1, s2, e1);
    let sx = start(s1, s2);
    if cx < 0 {
        assert(sx == SpecSimplex { a: o, b: o });
        assert(o.minus(o).cross(o.negated()) == 0) by (nonlinear_arith)
            requires
                o == (SpecVector { x: 0, y: 0 }),
        ;
        assert(toward_origin(o, o) == e1);
        assert(e1.dot(o) == 0) by (nonlinear_arith)
            requires
                o == (SpecVector { x: 0, y: 0 }),
        ;
        assert(e1.dot(o.negated()) == 0) by (nonlinear_arith)
            requires
                o == (SpecVector { x: 0, y: 0 }),
        ;
        assert(round(s1, s2, sx).progress == Progress::Overlap);
    } else {
        let a = SpecVector { x: 2 * r, y: 0 };
        let c = SpecVector { x: r, y: -r };
        lemma_support_diff_on_axis(s1, s2, a.negated());
        assert(sx == SpecSimplex { a, b: o });
        assert(o.minus(a).cross(a.negated()) == 0) by (nonlinear_arith)
            requires
                a.y == 0,
                o == (SpecVector { x: 0, y: 0 }),
        ;
        assert(a.dot(o) == 0) by (nonlinear_arith)
            requires
                o == (SpecVector { x: 0, y: 0 }),
        ;
        let dir = toward_origin(a, o);
        lemma_resized_on_axis(o.minus(a).turned(), ONE as int);
        assert(dir == SpecVector { x: 0, y: -(ONE as int) });
        lemma_support_diff_on_axis(s1, s2, dir);
        assert(support_diff(s1, s2, dir) == c);
        assert(dir.dot(c) >= 0) by (nonlinear_arith)
            requires
                dir == (SpecVector { x: 0, y: -65536 }),
                c == (SpecVector { x: r, y: -r }),
                r > 0,
        ;
        let d1 = toward_origin(a, c);
        assert(c.minus(a).cross(a.negated()) == -2 * (r * r) && r * r > 0) by (nonlinear_arith)
            requires
                a == (SpecVector { x: 2 * r, y: 0 }),
                c == (SpecVector { x: r, y: -r }),
                r > 0,
        ;
        lemma_resized_signs(c.minus(a).turned().negated(), ONE as int);
        assert(d1.x <= 0);
        assert(d1.dot(a.negated()) >= 0) by (nonlinear_arith)
            requires
                d1.x <= 0,
                r > 0,
                a == (SpecVector { x: 2 * r, y: 0 }),
        ;
        let d2 = toward_origin(o, c);
        assert(d2.dot(o.negated()) == 0) by (nonlinear_arith)
            requires
                o == (SpecVector { x: 0, y: 0 }),
        ;
        assert(round(s1, s2, sx).progress == Progress::Overlap);
    }
}

} // verus!
