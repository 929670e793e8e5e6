use vstd::prelude::*;

verus! {

/// Sealing trait: only the stage types of this crate implement it, so
/// `Stage` cannot be implemented outside of the crate.
pub trait Sealed<T> {}

} // verus!
