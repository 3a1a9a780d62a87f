//! The tag distinguishing positions from displacements.
//!
//! The geometric 3-vector type itself lives outside the verified core
//! (its components are floating point); the tag that rules which
//! combinations of points and directions are meaningful is shared here.

use vstd::prelude::*;

verus! {

/// Whether a 4-component tuple denotes a position (`Point`, w = 1)
/// or a displacement (`Vector`, w = 0).
#[derive(Debug, PartialEq, Eq, Structural, Copy, Clone)]
pub enum TupleType {
    Point,
    Vector,
}

} // verus!
