//! Three-dimensional shapes and aliases.

use vstd::prelude::*;

use crate::shapes::nd::{HyperPlane, HyperRectangle, HyperSphere};

pub mod tetrahedron;
pub mod triangular_plane;

pub use tetrahedron::Tetrahedron;
pub use triangular_plane::TriangularPlane;

verus! {

/// A three-dimensional box.
pub type RectangularPrism = HyperRectangle;

/// A three-dimensional plane.
pub type Plane = HyperPlane;

/// A three-dimensional sphere.
pub type Sphere = HyperSphere;

} // verus!
