//! SIMD backends.
use vstd::prelude::*;

pub mod avx2;
pub mod avx512;
pub mod blocks;
pub mod crypto_soft;
pub mod scalar;

verus! {
} // verus!
