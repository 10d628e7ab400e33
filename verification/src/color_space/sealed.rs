//! The seal that keeps `ColorSpace` closed to the types of this crate.

use vstd::prelude::*;

verus! {

/// Implemented only by the colour types of this crate.
pub trait Sealed {}

} // verus!
