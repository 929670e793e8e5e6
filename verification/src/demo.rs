use vstd::prelude::*;

verus! {

/// Adds two numbers (the smoke-test entry point of the WASM demo).
pub fn add(left: u64, right: u64) -> (r: u64)
    requires
        left + right <= u64::MAX,
    ensures
        r == left + right,
{
    left + right
}

} // verus!
