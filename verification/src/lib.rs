//! Portable SIMD building blocks with machine-checked contracts.
use vstd::prelude::*;

pub mod aligned;
pub mod backend;
pub mod lane;

verus! {
} // verus!
