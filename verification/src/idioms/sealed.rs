//! The seal that keeps `DatabaseBackend` closed to this crate's backends.

use vstd::prelude::*;

verus! {

/// Implemented only by the backends of this crate.
pub trait Seal {}

} // verus!
