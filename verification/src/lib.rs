//! Overlap test for two convex shapes in the plane, on an integer grid.
//!
//! Coordinates are whole numbers of a grid unit that the caller chooses.
//! Every shape is known to the test only through its support point: the
//! point of the shape that lies farthest in a given direction. Where a
//! support point falls between grid points it is rounded away from the
//! shape's center, so that no shape is taken for smaller than it is.

pub mod roots;
pub mod scaling;
pub mod vector;
pub mod shapes;
pub mod gjk;
pub mod algebra;
pub mod axis;
pub mod support_laws;
pub mod verdict_laws;
