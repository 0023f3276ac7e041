//! Dimension-generic primitive shapes.

pub mod hypercube;
pub mod hyperplane;
pub mod hyperrectangle;
pub mod hypersphere;

pub use hypercube::HyperCube;
pub use hyperplane::HyperPlane;
pub use hyperrectangle::HyperRectangle;
pub use hypersphere::HyperSphere;

use vstd::prelude::*;

verus! {

/// A plane of any dimension; the same shape as `HyperPlane`.
pub type Plane = HyperPlane;

} // verus!
