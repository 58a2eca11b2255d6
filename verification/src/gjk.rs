//! The overlap test.
//!
//! Two shapes overlap exactly when their difference, the set of all
//! `a - b` with `a` in the first shape and `b` in the second, holds the
//! origin. The test keeps two points of the difference's rim, asks for
//! the rim point farthest toward the origin from the line through them,
//! and decides from where that point lies.
//!
//! The answer that two shapes do not overlap is always right: shapes that
//! share a point, be it a single one, never get it. The answer that they
//! overlap says that the test found no gap in the directions it looked
//! in; shapes that lie apart can get it too.

use vstd::prelude::*;
use crate::shapes::{Shapes, SpecShape, WORLD_LIMIT};
use crate::vector::{direction_with_length, full_product, SpecVector, Vector2, ONE};

verus! {

/// The most rounds the test runs before it gives up.
pub const MAX_ROUNDS: u32 = 64;

/// The point of the difference of `s1` and `s2` that lies farthest in the
/// direction `d`, which is not zero.
pub open spec fn support_diff(s1: SpecShape, s2: SpecShape, d: SpecVector) -> SpecVector {
    s1.support(d).minus(s2.support(d.negated()))
}

/// The direction at right angles to the line from `p` to `q` that points
/// to the side of the origin, with length [`ONE`].
///
/// It is the direction of `(pq x po) x pq`, where `pq` leads from `p` to
/// `q` and `po` from `p` to the origin. Where the origin lies on the line
/// that product is zero, and the direction is instead: at right angles
/// to the line, a quarter turn counter-clockwise from `pq`, if the origin
/// lies between `p` and `q`; straight from `p` to the origin if it lies
/// beyond them, or if `p` and `q` are one point; and along the first axis
/// if both are the origin.
pub open spec fn toward_origin(p: SpecVector, q: SpecVector) -> SpecVector {
    let pq = q.minus(p);
    let po = p.negated();
    let z = pq.cross(po);
    if z > 0 {
        pq.turned().resized(ONE as int)
    } else if z < 0 {
        pq.turned().negated().resized(ONE as int)
    } else if !pq.is_zero() && p.dot(q) <= 0 {
        pq.turned().resized(ONE as int)
    } else if !p.is_zero() {
        po.resized(ONE as int)
    } else {
        SpecVector { x: ONE as int, y: 0 }
    }
}

/// Returns the point of the difference of `s1` and `s2` that lies
/// farthest in the direction `d`: the support point of `s1` in that
/// direction minus the support point of `s2` in the opposite one.
pub fn point_in_dir(s1: &Shapes, s2: &Shapes, d: Vector2) -> (r: Vector2)
    requires
        !d@.is_zero(),
        d@.negated().fits(),
    ensures
        r@ == support_diff(s1@, s2@, d@),
        r@.within(4 * WORLD_LIMIT),
{
    let a = s1.point_in_dir(d);
    let b = s2.point_in_dir(d.negate());
    a.sub(b)
}

/// Returns the direction at right angles to the line from `p` to `q`
/// that points to the side of the origin, with length [`ONE`]; see
/// [`toward_origin`] for the cases in which the origin lies on that line.
pub fn in_dir_of_center(p: Vector2, q: Vector2) -> (r: Vector2)
    ensures
        r@ == toward_origin(p@, q@),
        r@.within(ONE as int),
        !r@.is_zero(),
{
    let ex: i64 = q.x as i64 - p.x as i64;
    let ey: i64 = q.y as i64 - p.y as i64;
    let ox: i64 = -(p.x as i64);
    let oy: i64 = -(p.y as i64);
    assert(-0x8000_0000_0000_0000 <= ex * oy <= 0x8000_0000_0000_0000) by (nonlinear_arith)
        requires
            -0x1_0000_0000 <= ex <= 0x1_0000_0000,
            -0x8000_0000 <= oy <= 0x8000_0000,
    ;
    assert(-0x8000_0000_0000_0000 <= ey * ox <= 0x8000_0000_0000_0000) by (nonlinear_arith)
        requires
            -0x1_0000_0000 <= ey <= 0x1_0000_0000,
            -0x8000_0000 <= ox <= 0x8000_0000,
    ;
    let z: i128 = (ex as i128) * (oy as i128) - (ey as i128) * (ox as i128);
    assert(ex == 0 && ey == 0 ==> z == 0) by (nonlinear_arith)
        requires
            z == ex * oy - ey * ox,
    ;
    if z > 0 {
        direction_with_length(-ey, ex, ONE)
    } else if z < 0 {
        direction_with_length(ey, -ex, ONE)
    } else {
        let along: i128 = full_product(p.x, q.x) as i128 + full_product(p.y, q.y) as i128;
        if (ex != 0 || ey != 0) && along <= 0 {
            direction_with_length(-ey, ex, ONE)
        } else if !p.is_zero() {
            direction_with_length(ox, oy, ONE)
        } else {
            Vector2 { x: ONE, y: 0 }
        }
    }
}

/// The two points of the difference's rim that the test keeps.
#[derive(Clone, Copy, Debug, PartialEq, Eq, Structural)]
pub struct Simplex {
    pub a: Vector2,
    pub b: Vector2,
}

/// What a [`Simplex`] stands for in contracts.
pub struct SpecSimplex {
    pub a: SpecVector,
    pub b: SpecVector,
}

impl View for Simplex {
    type V = SpecSimplex;

    open spec fn view(&self) -> SpecSimplex {
        SpecSimplex { a: self.a@, b: self.b@ }
    }
}

/// Where the test stands after a round.
#[derive(Clone, Copy, Debug, PartialEq, Eq, Structural)]
pub enum Progress {
    /// Not decided yet: the simplex was refined.
    Searching,
    /// Decided: the shapes do not overlap.
    NoOverlap,
    /// Decided: the shapes overlap.
    Overlap,
}

/// The answer of the test.
#[derive(Clone, Copy, Debug, PartialEq, Eq, Structural)]
pub enum Verdict {
    Overlap,
    NoOverlap,
    /// The test ran [`MAX_ROUNDS`] rounds without deciding.
    Inconclusive,
}

/// The outcome of one round: the simplex after it, the rim point that the
/// round asked for, and where the test stands.
#[derive(Clone, Copy, Debug, PartialEq, Eq, Structural)]
pub struct Round {
    pub simplex: Simplex,
    pub probe: Vector2,
    pub progress: Progress,
}

/// What a [`Round`] stands for in contracts.
pub struct SpecRound {
    pub simplex: SpecSimplex,
    pub probe: SpecVector,
    pub progress: Progress,
}

impl View for Round {
    type V = SpecRound;

    open spec fn view(&self) -> SpecRound {
        SpecRound { simplex: self.simplex@, probe: self.probe@, progress: self.progress }
    }
}

/// The simplex that the test starts from: the rim point farthest along
/// the first axis, and the rim point farthest from there toward the
/// origin. If the first point is the origin itself, it is taken twice.
pub open spec fn start(s1: SpecShape, s2: SpecShape) -> SpecSimplex {
    let a = support_diff(s1, s2, SpecVector { x: ONE as int, y: 0 });
    let b = if a.is_zero() {
        a
    } else {
        support_diff(s1, s2, a.negated())
    };
    SpecSimplex { a, b }
}

/// One round of the test on the simplex `sx`.
///
/// The round asks for the rim point `c` farthest in the direction from
/// the line through the simplex toward the origin. If `c` does not reach
/// the origin's side, the shapes do not overlap. Otherwise, if the origin
/// lies on the far side of the line from `a` to `c`, then `c` replaces
/// `b`; else if it lies on the far side of the line from `b` to `c`, then
/// `c` replaces `a`; else the shapes overlap.
pub open spec fn round(s1: SpecShape, s2: SpecShape, sx: SpecSimplex) -> SpecRound {
    let dir = toward_origin(sx.a, sx.b);
    let c = support_diff(s1, s2, dir);
    if dir.dot(c) < 0 {
        SpecRound { simplex: sx, probe: c, progress: Progress::NoOverlap }
    } else if toward_origin(sx.a, c).dot(sx.a.negated()) < 0 {
        SpecRound {
            simplex: SpecSimplex { a: sx.a, b: c },
            probe: c,
            progress: Progress::Searching,
        }
    } else if toward_origin(sx.b, c).dot(sx.b.negated()) < 0 {
        SpecRound {
            simplex: SpecSimplex { a: c, b: sx.b },
            probe: c,
            progress: Progress::Searching,
        }
    } else {
        SpecRound { simplex: sx, probe: c, progress: Progress::Overlap }
    }
}

/// The answer that at most `rounds` rounds from the simplex `sx` give.
pub open spec fn verdict_from(s1: SpecShape, s2: SpecShape, sx: SpecSimplex, rounds: nat) -> Verdict
    decreases rounds,
{
    if rounds == 0 {
        Verdict::Inconclusive
    } else {
        let r = round(s1, s2, sx);
        match r.progress {
            Progress::NoOverlap => Verdict::NoOverlap,
            Progress::Overlap => Verdict::Overlap,
            Progress::Searching => verdict_from(s1, s2, r.simplex, (rounds - 1) as nat),
        }
    }
}

/// The answer of the test for the shapes `s1` and `s2`.
pub open spec fn verdict(s1: SpecShape, s2: SpecShape) -> Verdict {
    verdict_from(s1, s2, start(s1, s2), MAX_ROUNDS as nat)
}

/// The dot product of two vectors is bounded by their components' bounds.
pub proof fn lemma_dot_bound(u: SpecVector, v: SpecVector, bu: int, bv: int)
    by (nonlinear_arith)
    requires
        u.within(bu),
        v.within(bv),
    ensures
        -2 * (bu * bv) <= u.dot(v) <= 2 * (bu * bv),
{
    assert(-(bu * bv) <= u.x * v.x <= bu * bv);
    assert(-(bu * bv) <= u.y * v.y <= bu * bv);
}

/// The dot product with the opposite vector is the opposite dot product.
pub proof fn lemma_dot_negated(u: SpecVector, v: SpecVector)
    by (nonlinear_arith)
    ensures
        u.dot(v.negated()) == -u.dot(v),
{
}

/// Returns the simplex that the test starts from.
pub fn gjk_start(s1: &Shapes, s2: &Shapes) -> (r: Simplex)
    ensures
        r@ == start(s1@, s2@),
        r.a@.within(4 * WORLD_LIMIT),
        r.b@.within(4 * WORLD_LIMIT),
{
    let a = point_in_dir(s1, s2, Vector2 { x: ONE, y: 0 });
    let b = if a.is_zero() {
        a
    } else {
        point_in_dir(s1, s2, a.negate())
    };
    Simplex { a, b }
}

/// Runs one round of the test on `simplex`.
pub fn gjk_step(s1: &Shapes, s2: &Shapes, simplex: Simplex) -> (r: Round)
    ensures
        r@ == round(s1@, s2@, simplex@),
        r.probe@.within(4 * WORLD_LIMIT),
{
    let a = simplex.a;
    let b = simplex.b;
    let dir = in_dir_of_center(a, b);
    let c = point_in_dir(s1, s2, dir);
    proof {
        lemma_dot_bound(dir@, c@, ONE as int, 4 * WORLD_LIMIT);
    }
    if dir.dot(c) < 0 {
        return Round { simplex, probe: c, progress: Progress::NoOverlap };
    }
    let dir1 = in_dir_of_center(a, c);
    let dir2 = in_dir_of_center(b, c);
    proof {
        lemma_dot_bound(dir1@, a@, ONE as int, 0x8000_0000);
        lemma_dot_bound(dir2@, b@, ONE as int, 0x8000_0000);
        lemma_dot_negated(dir1@, a@);
        lemma_dot_negated(dir2@, b@);
    }
    if dir1.dot(a) > 0 {
        Round { simplex: Simplex { a, b: c }, probe: c, progress: Progress::Searching }
    } else if dir2.dot(b) > 0 {
        Round { simplex: Simplex { a: c, b }, probe: c, progress: Progress::Searching }
    } else {
        Round { simplex, probe: c, progress: Progress::Overlap }
    }
}

/// Runs the test, for at most [`MAX_ROUNDS`] rounds.
pub fn gjk_verdict(s1: &Shapes, s2: &Shapes) -> (r: Verdict)
    ensures
        r == verdict(s1@, s2@),
{
    let mut simplex = gjk_start(s1, s2);
    let mut rounds: u32 = 0;
    while rounds < MAX_ROUNDS
        invariant
            rounds <= MAX_ROUNDS,
            verdict_from(s1@, s2@, simplex@, (MAX_ROUNDS - rounds) as nat) == verdict(s1@, s2@),
        decreases MAX_ROUNDS - rounds,
    {
        let r = gjk_step(s1, s2, simplex);
        match r.progress {
            Progress::NoOverlap => {
                return Verdict::NoOverlap;
            },
            Progress::Overlap => {
                return Verdict::Overlap;
            },
            Progress::Searching => {
                simplex = r.simplex;
            },
        }
        rounds = rounds + 1;
    }
    Verdict::Inconclusive
}

/// Tells whether the two shapes overlap. A test that runs out of rounds
/// counts as no overlap.
#[allow(non_snake_case)]
pub fn GJK(s1: Shapes, s2: Shapes) -> (r: bool)
    ensures
        r == (verdict(s1@, s2@) == Verdict::Overlap),
{
    match gjk_verdict(&s1, &s2) {
        Verdict::Overlap => true,
        Verdict::NoOverlap => false,
        Verdict::Inconclusive => false,
    }
}

} // verus!
