//! Two-dimensional aliases.

use vstd::prelude::*;

use crate::shapes::nd::{HyperRectangle, HyperSphere};

verus! {

/// A circle: a two-dimensional sphere.
pub type Circle = HyperSphere;

/// A rectangle: a two-dimensional box.
pub type Rectangle = HyperRectangle;

} // verus!
