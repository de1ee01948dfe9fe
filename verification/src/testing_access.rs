//! The seal that keeps state-control access limited to the testing policy.

use vstd::prelude::*;

verus! {

/// Implemented only by policies of this crate that may grant state-control access.
pub trait Sealed {

}

} // verus!
