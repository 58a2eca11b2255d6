//! Vectors of the plane with whole-number coordinates.

use vstd::prelude::*;
use crate::scaling::{
    lemma_scaled_magnitude_positive, lemma_sign_times, scale_component, scaled_component,
    scaled_magnitude, COMPONENT_LIMIT,
};

verus! {

/// The length, in grid units, of the vector that [`Vector2::normalize`]
/// returns: the grid's stand-in for a unit vector.
pub const ONE: i32 = 65536;

/// A vector of the plane over the mathematical integers: what a
/// [`Vector2`] stands for in contracts.
pub struct SpecVector {
    pub x: int,
    pub y: int,
}

impl SpecVector {
    /// The vector with both components zero.
    pub open spec fn zero() -> SpecVector {
        SpecVector { x: 0, y: 0 }
    }

    pub open spec fn is_zero(self) -> bool {
        self.x == 0 && self.y == 0
    }

    /// The sum of two vectors.
    pub open spec fn plus(self, other: SpecVector) -> SpecVector {
        SpecVector { x: self.x + other.x, y: self.y + other.y }
    }

    /// The difference of two vectors.
    pub open spec fn minus(self, other: SpecVector) -> SpecVector {
        SpecVector { x: self.x - other.x, y: self.y - other.y }
    }

    /// The opposite vector.
    pub open spec fn negated(self) -> SpecVector {
        SpecVector { x: -self.x, y: -self.y }
    }

    /// The vector multiplied by the whole number `k`.
    pub open spec fn scaled(self, k: int) -> SpecVector {
        SpecVector { x: self.x * k, y: self.y * k }
    }

    /// The dot product.
    pub open spec fn dot(self, other: SpecVector) -> int {
        self.x * other.x + self.y * other.y
    }

    /// The cross product of the two vectors taken as vectors of space
    /// with a zero third component: its only component that can differ
    /// from zero, the third.
    pub open spec fn cross(self, other: SpecVector) -> int {
        self.x * other.y - self.y * other.x
    }

    /// The squared length.
    pub open spec fn norm_sq(self) -> int {
        self.x * self.x + self.y * self.y
    }

    /// The vector turned a quarter turn counter-clockwise.
    pub open spec fn turned(self) -> SpecVector {
        SpecVector { x: -self.y, y: self.x }
    }

    /// The vector of length `len` in the direction of `self`, each
    /// component rounded away from zero. Meant for a vector other than
    /// zero.
    pub open spec fn resized(self, len: int) -> SpecVector {
        SpecVector {
            x: scaled_component(self.x, self.norm_sq(), len),
            y: scaled_component(self.y, self.norm_sq(), len),
        }
    }

    /// Both components fit in 32 bits.
    pub open spec fn fits(self) -> bool {
        i32::MIN <= self.x <= i32::MAX && i32::MIN <= self.y <= i32::MAX
    }

    /// Neither component exceeds `bound` in absolute value.
    pub open spec fn within(self, bound: int) -> bool {
        -bound <= self.x <= bound && -bound <= self.y <= bound
    }
}

/// A vector, or a point, of the plane with whole-number coordinates.
#[derive(Clone, Copy, Debug, PartialEq, Eq, Structural)]
pub struct Vector2 {
    pub x: i32,
    pub y: i32,
}

impl View for Vector2 {
    type V = SpecVector;

    open spec fn view(&self) -> SpecVector {
        SpecVector { x: self.x as int, y: self.y as int }
    }
}

/// A vector other than zero, brought to a positive length, is not zero.
pub proof fn lemma_resized_nonzero(v: SpecVector, len: int)
    requires
        !v.is_zero(),
        1 <= len,
    ensures
        !v.resized(len).is_zero(),
{
    let n = v.norm_sq();
    assert(n > 0) by (nonlinear_arith)
        requires
            n == v.x * v.x + v.y * v.y,
            v.x != 0 || v.y != 0,
    ;
    if v.x != 0 {
        lemma_scaled_magnitude_positive(v.x, n, len);
        lemma_sign_times(v.x, scaled_magnitude(v.x, n, len));
    } else {
        lemma_scaled_magnitude_positive(v.y, n, len);
        lemma_sign_times(v.y, scaled_magnitude(v.y, n, len));
    }
}

/// Multiplies two 32-bit numbers without loss.
pub fn full_product(a: i32, b: i32) -> (r: i64)
    ensures
        r == a * b,
        -0x4000_0000_0000_0000 + 0x8000_0000 <= r <= 0x4000_0000_0000_0000,
{
    assert(-0x4000_0000_0000_0000 + 0x8000_0000 <= a * b <= 0x4000_0000_0000_0000)
        by (nonlinear_arith)
        requires
            -0x8000_0000 <= a < 0x8000_0000,
            -0x8000_0000 <= b < 0x8000_0000,
    ;
    (a as i64) * (b as i64)
}

/// Computes the vector of length `len` in the direction `(dx, dy)`, each
/// component rounded away from zero.
pub fn direction_with_length(dx: i64, dy: i64, len: i32) -> (r: Vector2)
    requires
        -COMPONENT_LIMIT <= dx <= COMPONENT_LIMIT,
        -COMPONENT_LIMIT <= dy <= COMPONENT_LIMIT,
        dx != 0 || dy != 0,
        0 <= len,
    ensures
        r@ == (SpecVector { x: dx as int, y: dy as int }).resized(len as int),
        r@.within(len as int),
        1 <= len ==> !r@.is_zero(),
{
    proof {
        if 1 <= len {
            lemma_resized_nonzero(SpecVector { x: dx as int, y: dy as int }, len as int);
        }
    }
    assert(0 <= dx * dx <= 0x1_0000_0000_0000_0000 && (dx != 0 ==> dx * dx > 0))
        by (nonlinear_arith)
        requires
            -0x1_0000_0000 <= dx <= 0x1_0000_0000,
    ;
    assert(0 <= dy * dy <= 0x1_0000_0000_0000_0000 && (dy != 0 ==> dy * dy > 0))
        by (nonlinear_arith)
        requires
            -0x1_0000_0000 <= dy <= 0x1_0000_0000,
    ;
    let wx: i128 = dx as i128;
    let wy: i128 = dy as i128;
    let n: u128 = (wx * wx + wy * wy) as u128;
    let x: i64 = scale_component(dx, n, len);
    let y: i64 = scale_component(dy, n, len);
    Vector2 { x: x as i32, y: y as i32 }
}

impl Vector2 {
    pub fn new(x: i32, y: i32) -> (r: Vector2)
        ensures
            r.x == x,
            r.y == y,
    {
        Vector2 { x, y }
    }

    /// Adds two vectors.
    pub fn add(self, other: Vector2) -> (r: Vector2)
        requires
            self@.plus(other@).fits(),
        ensures
            r@ == self@.plus(other@),
    {
        Vector2 { x: self.x + other.x, y: self.y + other.y }
    }

    /// Subtracts `other` from `self`.
    pub fn sub(self, other: Vector2) -> (r: Vector2)
        requires
            self@.minus(other@).fits(),
        ensures
            r@ == self@.minus(other@),
    {
        Vector2 { x: self.x - other.x, y: self.y - other.y }
    }

    /// Returns the opposite vector.
    pub fn negate(self) -> (r: Vector2)
        requires
            self@.negated().fits(),
        ensures
            r@ == self@.negated(),
    {
        Vector2 { x: -self.x, y: -self.y }
    }

    /// Multiplies the vector by the whole number `k`.
    pub fn scale(self, k: i32) -> (r: Vector2)
        requires
            self@.scaled(k as int).fits(),
        ensures
            r@ == self@.scaled(k as int),
    {
        Vector2 { x: self.x * k, y: self.y * k }
    }

    /// Returns the dot product of two vectors.
    pub fn dot(self, other: Vector2) -> (r: i64)
        requires
            self@.dot(other@) <= i64::MAX,
        ensures
            r == self@.dot(other@),
    {
        full_product(self.x, other.x) + full_product(self.y, other.y)
    }

    /// Returns the third component of the cross product of the two
    /// vectors taken as vectors of space; its other two are zero.
    pub fn cross(self, other: Vector2) -> (r: i64)
        ensures
            r == self@.cross(other@),
    {
        full_product(self.x, other.y) - full_product(self.y, other.x)
    }

    /// Tells whether both components are zero.
    pub fn is_zero(self) -> (r: bool)
        ensures
            r == self@.is_zero(),
    {
        self.x == 0 && self.y == 0
    }

    /// Returns the vector of length `len` in the direction of `self`,
    /// each component rounded away from zero.
    pub fn with_length(self, len: i32) -> (r: Vector2)
        requires
            !self@.is_zero(),
            0 <= len,
        ensures
            r@ == self@.resized(len as int),
            r@.within(len as int),
            1 <= len ==> !r@.is_zero(),
    {
        direction_with_length(self.x as i64, self.y as i64, len)
    }

    /// Returns the vector of length [`ONE`] in the direction of `self`,
    /// each component rounded away from zero. The zero vector has no
    /// direction and must not be passed.
    pub fn normalize(self) -> (r: Vector2)
        requires
            !self@.is_zero(),
        ensures
            r@ == self@.resized(ONE as int),
            r@.within(ONE as int),
            !r@.is_zero(),
    {
        self.with_length(ONE)
    }
}

} // verus!
