//! Preprocessing pipelines for numeric and image feature extraction.
//!
//! A pipeline is a chain of point-wise operations ([`traits::ElementOp`])
//! and resampling / index-remapping operations ([`traits::TransformOp`]).
//! Adjacent point-wise operations are fused into a single pass, and pure
//! index-remapping transforms can be fused with each other. Every stage
//! validates its input and output lengths against the actual scratch
//! buffers before running, and the executable pipeline reports the first
//! failure as a [`errors::PipeError`].
#![allow(unused_imports)]

use vstd::prelude::*;

pub mod errors;
pub mod image;
pub mod ops;
pub mod pipeline;
pub mod prelude;
pub mod properties;
pub mod traits;
pub mod demo;
pub mod audio;
mod sealed;

verus! {

/// Sentinel length marking a pipeline stage whose size is only known at
/// runtime; such stages resolve their buffer sizes via the `*_dynamic`
/// methods.
pub const DYNAMIC_SIZE: usize = 0;

/// The larger of two lengths (used for scratch-buffer sizing).
pub(crate) fn _const_max_usize(a: usize, b: usize) -> (r: usize)
    ensures
        r == (if a > b { a } else { b }),
{
    if a > b {
        a
    } else {
        b
    }
}

} // verus!
