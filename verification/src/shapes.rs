//! The two kinds of convex shape and their support points.

use vstd::prelude::*;
use crate::scaling::{abs, lemma_scaled_magnitude_bound, lemma_sign_times, scaled_magnitude};
use crate::vector::{SpecVector, Vector2};

verus! {

/// The largest coordinate of a shape's center, in absolute value, and the
/// largest radius or half-diagonal.
pub const WORLD_LIMIT: i32 = 0x1000_0000;

/// Why a shape was refused.
#[derive(Clone, Copy, Debug, PartialEq, Eq, Structural)]
pub enum ShapeError {
    /// The radius or half-diagonal is zero or negative.
    NonPositiveSize,
    /// The size or a coordinate of the center exceeds [`WORLD_LIMIT`].
    OutOfRange,
}

/// One of the four quarter-turn wide ranges of directions, each centered
/// on an axis direction.
#[derive(Clone, Copy, Debug, PartialEq, Eq, Structural)]
pub enum Sector {
    Left,
    Down,
    Right,
    Up,
}

/// The sector of the direction `d`. A direction on a diagonal belongs to
/// the first sector that holds it, in the order left, down, right, up;
/// left does not hold its two diagonals.
pub open spec fn sector_of(d: SpecVector) -> Sector {
    if d.x < 0 && abs(d.y) < -d.x {
        Sector::Left
    } else if d.y < 0 && abs(d.x) <= -d.y {
        Sector::Down
    } else if d.x > 0 && abs(d.y) <= d.x {
        Sector::Right
    } else {
        Sector::Up
    }
}

/// The vector of length `h` along the axis of the sector `s`.
pub open spec fn axis_offset(s: Sector, h: int) -> SpecVector {
    match s {
        Sector::Left => SpecVector { x: -h, y: 0 },
        Sector::Down => SpecVector { x: 0, y: -h },
        Sector::Right => SpecVector { x: h, y: 0 },
        Sector::Up => SpecVector { x: 0, y: h },
    }
}

/// Why a shape with this center and size is refused, if it is: for its
/// size first, then for its place.
pub open spec fn refusal(center: SpecVector, size: int) -> Option<ShapeError> {
    if size <= 0 {
        Some(ShapeError::NonPositiveSize)
    } else if size > WORLD_LIMIT || !center.within(WORLD_LIMIT as int) {
        Some(ShapeError::OutOfRange)
    } else {
        None
    }
}

/// A shape over the mathematical integers: what the shape types stand for
/// in contracts.
pub enum SpecShape {
    Circle { center: SpecVector, radius: int },
    /// The square whose corners are `center` plus or minus
    /// `half_diagonal` along each axis.
    Diamond { center: SpecVector, half_diagonal: int },
}

impl SpecShape {
    pub open spec fn center(self) -> SpecVector {
        match self {
            SpecShape::Circle { center, .. } => center,
            SpecShape::Diamond { center, .. } => center,
        }
    }

    /// The radius or the half-diagonal.
    pub open spec fn size(self) -> int {
        match self {
            SpecShape::Circle { radius, .. } => radius,
            SpecShape::Diamond { half_diagonal, .. } => half_diagonal,
        }
    }

    /// The size is positive, and it and the center are inside the world.
    pub open spec fn wf(self) -> bool {
        0 < self.size() <= WORLD_LIMIT && self.center().within(WORLD_LIMIT as int)
    }

    /// Why a shape with this center and size is refused, if it is.
    pub open spec fn refusal(self) -> Option<ShapeError> {
        refusal(self.center(), self.size())
    }

    /// The corner of a diamond that lies in the sector `s`.
    pub open spec fn vertex(self, s: Sector) -> SpecVector {
        self.center().plus(axis_offset(s, self.size()))
    }

    /// The point of the shape that lies farthest in the direction `d`,
    /// which is not zero. For a circle both coordinates of the point on
    /// its rim are rounded away from the center.
    pub open spec fn support(self, d: SpecVector) -> SpecVector {
        match self {
            SpecShape::Circle { center, radius } => center.plus(d.resized(radius)),
            SpecShape::Diamond { .. } => self.vertex(sector_of(d)),
        }
    }
}

/// The support point of a shape lies no farther from its center than the
/// shape's size, along each axis.
pub proof fn lemma_support_near_center(s: SpecShape, d: SpecVector)
    requires
        0 <= s.size(),
        !d.is_zero(),
    ensures
        s.support(d).minus(s.center()).within(s.size()),
{
    match s {
        SpecShape::Circle { center, radius } => {
            let n = d.norm_sq();
            assert(n > 0 && d.x * d.x <= n && d.y * d.y <= n) by (nonlinear_arith)
                requires
                    n == d.x * d.x + d.y * d.y,
                    d.x != 0 || d.y != 0,
            ;
            lemma_scaled_magnitude_bound(d.x, n, radius);
            lemma_scaled_magnitude_bound(d.y, n, radius);
            lemma_sign_times(d.x, scaled_magnitude(d.x, n, radius));
            lemma_sign_times(d.y, scaled_magnitude(d.y, n, radius));
        },
        SpecShape::Diamond { .. } => {},
    }
}

/// Finds the sector of the direction `d`.
pub fn sector(d: Vector2) -> (r: Sector)
    ensures
        r == sector_of(d@),
{
    let x: i64 = d.x as i64;
    let y: i64 = d.y as i64;
    let ax: i64 = if x < 0 {
        -x
    } else {
        x
    };
    let ay: i64 = if y < 0 {
        -y
    } else {
        y
    };
    if x < 0 && ay < -x {
        Sector::Left
    } else if y < 0 && ax <= -y {
        Sector::Down
    } else if x > 0 && ay <= x {
        Sector::Right
    } else {
        Sector::Up
    }
}

/// Tells why a center and a size make no shape, if they make none.
fn find_refusal(center: Vector2, size: i32) -> (r: Option<ShapeError>)
    ensures
        r == refusal(center@, size as int),
{
    if size <= 0 {
        Some(ShapeError::NonPositiveSize)
    } else if size > WORLD_LIMIT || center.x < -WORLD_LIMIT || center.x > WORLD_LIMIT || center.y
        < -WORLD_LIMIT || center.y > WORLD_LIMIT {
        Some(ShapeError::OutOfRange)
    } else {
        None
    }
}

/// A circle.
#[derive(Clone, Copy, Debug)]
pub struct Circle {
    center: Vector2,
    radius: i32,
}

impl View for Circle {
    type V = SpecShape;

    closed spec fn view(&self) -> SpecShape {
        SpecShape::Circle { center: self.center@, radius: self.radius as int }
    }
}

impl Circle {
    #[verifier::type_invariant]
    spec fn inv(self) -> bool {
        self@.wf()
    }

    /// Makes the circle with the given center and radius, or says why
    /// they make none.
    pub fn new(center: Vector2, radius: i32) -> (r: Result<Circle, ShapeError>)
        ensures
            match r {
                Ok(c) => c@ == (SpecShape::Circle { center: center@, radius: radius as int })
                    && c@.refusal() is None,
                Err(e) => (SpecShape::Circle { center: center@, radius: radius as int }).refusal()
                    == Some(e),
            },
    {
        match find_refusal(center, radius) {
            None => Ok(Circle { center, radius }),
            Some(e) => Err(e),
        }
    }

    pub fn center(&self) -> (r: Vector2)
        ensures
            r@ == self@.center(),
    {
        self.center
    }

    pub fn radius(&self) -> (r: i32)
        ensures
            r == self@.size(),
    {
        self.radius
    }

    /// Returns the point of the circle farthest in the direction `d`:
    /// the center moved by the radius in that direction, both
    /// coordinates rounded away from the center. The direction need not
    /// have any particular length, but must not be zero.
    pub fn point_in_dir(&self, d: Vector2) -> (r: Vector2)
        requires
            !d@.is_zero(),
        ensures
            r@ == self@.support(d@),
            r@.within(2 * WORLD_LIMIT),
    {
        proof {
            use_type_invariant(self);
        }
        let offset = d.with_length(self.radius);
        proof {
            lemma_support_near_center(self@, d@);
        }
        self.center.add(offset)
    }
}

/// A square standing on a corner, its diagonals along the axes.
#[derive(Clone, Copy, Debug)]
pub struct Rombus {
    center: Vector2,
    diagonal: i32,
}

impl View for Rombus {
    type V = SpecShape;

    closed spec fn view(&self) -> SpecShape {
        SpecShape::Diamond { center: self.center@, half_diagonal: self.diagonal as int }
    }
}

impl Rombus {
    #[verifier::type_invariant]
    spec fn inv(self) -> bool {
        self@.wf()
    }

    /// Makes the diamond with the given center and half-diagonal, or
    /// says why they make none.
    pub fn new(center: Vector2, diagonal: i32) -> (r: Result<Rombus, ShapeError>)
        ensures
            match r {
                Ok(c) => c@ == (SpecShape::Diamond {
                    center: center@,
                    half_diagonal: diagonal as int,
                }) && c@.refusal() is None,
                Err(e) => (SpecShape::Diamond {
                    center: center@,
                    half_diagonal: diagonal as int,
                }).refusal() == Some(e),
            },
    {
        match find_refusal(center, diagonal) {
            None => Ok(Rombus { center, diagonal }),
            Some(e) => Err(e),
        }
    }

    pub fn center(&self) -> (r: Vector2)
        ensures
            r@ == self@.center(),
    {
        self.center
    }

    /// Returns the half-diagonal.
    pub fn diagonal(&self) -> (r: i32)
        ensures
            r == self@.size(),
    {
        self.diagonal
    }

    /// Returns the corner that lies in the sector `s`.
    pub fn vertex(&self, s: Sector) -> (r: Vector2)
        ensures
            r@ == self@.vertex(s),
    {
        proof {
            use_type_invariant(self);
        }
        match s {
            Sector::Left => Vector2 { x: self.center.x - self.diagonal, y: self.center.y },
            Sector::Down => Vector2 { x: self.center.x, y: self.center.y - self.diagonal },
            Sector::Right => Vector2 { x: self.center.x + self.diagonal, y: self.center.y },
            Sector::Up => Vector2 { x: self.center.x, y: self.center.y + self.diagonal },
        }
    }

    /// Returns the point of the diamond farthest in the direction `d`:
    /// the corner in the sector of `d`. The direction must not be zero.
    pub fn point_in_dir(&self, d: Vector2) -> (r: Vector2)
        requires
            !d@.is_zero(),
        ensures
            r@ == self@.support(d@),
            r@.within(2 * WORLD_LIMIT),
    {
        proof {
            use_type_invariant(self);
        }
        self.vertex(sector(d))
    }
}

/// A shape of either kind.
#[derive(Clone, Copy, Debug)]
pub enum Shapes {
    Circ(Circle),
    Romb(Rombus),
}

impl View for Shapes {
    type V = SpecShape;

    open spec fn view(&self) -> SpecShape {
        match self {
            Shapes::Circ(c) => c@,
            Shapes::Romb(r) => r@,
        }
    }
}

impl Shapes {
    /// Returns the point of the shape farthest in the direction `d`,
    /// which must not be zero.
    pub fn point_in_dir(&self, d: Vector2) -> (r: Vector2)
        requires
            !d@.is_zero(),
        ensures
            r@ == self@.support(d@),
            r@.within(2 * WORLD_LIMIT),
    {
        match self {
            Shapes::Circ(c) => c.point_in_dir(d),
            Shapes::Romb(r) => r.point_in_dir(d),
        }
    }
}

} // verus!
