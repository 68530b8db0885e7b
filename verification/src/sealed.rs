//! The seal that keeps [`crate::memory::MemoryValue`] closed to other crates.
use vstd::prelude::*;

verus! {

/// Implemented only inside this crate.
pub trait Sealed {}

} // verus!
