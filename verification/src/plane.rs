//! The plane primitive: the local XZ plane with normal +Y.
//!
//! A plane carries no data of its own; its intersection and normal
//! routines work in floating point and live with the shading layer.

use vstd::prelude::*;

verus! {

/// The unbounded plane through the local origin spanned by X and Z.
#[derive(Debug, Clone, PartialEq, Eq, Structural)]
pub struct Plane {}

impl Plane {
    /// A new plane; planes are all alike, so this carries no state.
    pub fn new() -> (p: Plane)
        ensures
            p == (Plane {}),
    {
        Plane {}
    }
}

/// A new plane.
pub fn plane() -> (p: Plane)
    ensures
        p == (Plane {}),
{
    Plane::new()
}

} // verus!
