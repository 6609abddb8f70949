//! Points in space.

use crate::vec::Vec3;
use vstd::prelude::*;

verus! {

/// A position in space.
pub type Point3 = Vec3;

} // verus!
