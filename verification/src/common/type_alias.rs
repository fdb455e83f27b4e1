use vstd::prelude::*;

verus! {

/// Lengths, increments and leading dimensions.
pub type BlasInt = i32;

/// A zero-based position in a buffer.
pub type BlasIndex = usize;

} // verus!
