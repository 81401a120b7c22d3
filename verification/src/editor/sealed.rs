//! The marker that closes the set of host effects.

use vstd::prelude::*;

verus! {

/// Implemented only by the effect requests of this crate.
pub trait Sealed {
}

} // verus!
