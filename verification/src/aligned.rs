//! Aligned memory allocation for SIMD operations: the decisions of an allocator
//! that guarantees at least `ALIGN`-byte alignment.
//!
//! Default alignment is 128 bytes, covering both cache lines and AVX-512
//! vector widths.
use vstd::prelude::*;

verus! {

/// An allocator that guarantees at least `ALIGN`-byte alignment.
///
/// 128 bytes satisfies:
/// - Typical cache line size (64 bytes)
/// - AVX-512 vector width (64 bytes)
/// - Future 1024-bit vectors
pub struct AlignedAlloc<const ALIGN: usize>;

/// Whether `n` is a power of two.
pub open spec fn is_power_of_two(n: nat) -> bool
    decreases n,
{
    if n == 0 {
        false
    } else if n == 1 {
        true
    } else {
        n % 2 == 0 && is_power_of_two(n / 2)
    }
}

/// `size` rounded up to the nearest multiple of `align` (`align > 0`).
pub open spec fn round_up(size: nat, align: nat) -> nat {
    if size % align == 0 {
        size
    } else {
        (size + (align - size % align)) as nat
    }
}

/// The conditions under which a memory layout of `size` bytes aligned to `align`
/// is valid: `align` is a non-zero power of two and `size` rounded up to a
/// multiple of `align` does not exceed `isize::MAX`.
pub open spec fn valid_layout(size: nat, align: nat) -> bool {
    &&& align > 0
    &&& is_power_of_two(align)
    &&& round_up(size, align) <= isize::MAX
}

/// Whether `core::alloc::Layout::from_size_align(size, align)` accepts the layout.
/// The contract claims, as the std documentation states, that it succeeds exactly
/// when `align` is a non-zero power of two and `size` rounded up to a multiple of
/// `align` does not exceed `isize::MAX`.
#[verifier::external_body]
fn layout_is_valid(size: usize, align: usize) -> (r: bool)
    ensures
        r == valid_layout(size as nat, align as nat),
{
    core::alloc::Layout::from_size_align(size, align).is_ok()
}

/// What an allocation request turns into.
#[derive(Clone, Copy, Debug, PartialEq, Eq)]
pub enum AllocationPlan {
    /// A zero-size allocation: no memory is taken, and the block is the dangling
    /// address `address` (the alignment itself).
    Dangling { address: usize },
    /// A request of `size` bytes aligned to `align` to the global allocator.
    Global { size: usize, align: usize },
}

/// The allocation request was refused: the over-aligned layout is invalid.
#[derive(Clone, Copy, Debug, PartialEq, Eq)]
pub struct AllocRefused;

/// The alignment used for a request aligned to `align`: at least `min_align`.
pub open spec fn raised_align(align: nat, min_align: nat) -> nat {
    if align >= min_align {
        align
    } else {
        min_align
    }
}

/// The plan for allocating `size` bytes aligned to `align` with alignments raised
/// to at least `min_align`: refused where the raised layout is invalid, no memory
/// for a zero size, else the raised layout from the global allocator.
pub open spec fn allocation_plan(size: usize, align: usize, min_align: usize) -> Result<
    AllocationPlan,
    AllocRefused,
> {
    let a = raised_align(align as nat, min_align as nat);
    if !valid_layout(size as nat, a) {
        Err(AllocRefused)
    } else if size == 0 {
        Ok(AllocationPlan::Dangling { address: a as usize })
    } else {
        Ok(AllocationPlan::Global { size, align: a as usize })
    }
}

/// The plan for releasing a block of `size` bytes allocated with alignment
/// `align`: nothing for a zero size, else the raised layout.
pub open spec fn deallocation_plan(size: usize, align: usize, min_align: usize) -> Option<(usize, usize)> {
    if size == 0 {
        None
    } else {
        Some((size, raised_align(align as nat, min_align as nat) as usize))
    }
}

/// A block goes back with the layout it was taken with: where the allocation
/// plan asks the global allocator for `s` bytes aligned to `a`, the release plan
/// hands back `s` bytes aligned to `a`; where it takes no memory, nothing is
/// released.
pub proof fn lemma_release_matches_allocation(size: usize, align: usize, min_align: usize)
    ensures
        allocation_plan(size, align, min_align) matches Ok(AllocationPlan::Global { size: s, align: a })
            ==> deallocation_plan(size, align, min_align) == Some((s, a)),
        allocation_plan(size, align, min_align) matches Ok(AllocationPlan::Dangling { .. })
            ==> deallocation_plan(size, align, min_align) is None,
{
}

impl<const ALIGN: usize> AlignedAlloc<ALIGN> {
    /// The alignment actually used: at least `ALIGN`.
    pub fn effective_align(requested: usize) -> (r: usize)
        ensures
            r == (if requested >= ALIGN { requested } else { ALIGN }),
    {
        if requested >= ALIGN {
            requested
        } else {
            ALIGN
        }
    }

    /// Plans the allocation of `size` bytes aligned to `align`: the alignment is
    /// raised to at least `ALIGN`; a zero-size request takes no memory.
    pub fn plan_allocation(size: usize, align: usize) -> (r: Result<AllocationPlan, AllocRefused>)
        ensures
            r == allocation_plan(size, align, ALIGN),
    {
        let a = Self::effective_align(align);
        if !layout_is_valid(size, a) {
            return Err(AllocRefused);
        }
        if size == 0 {
            Ok(AllocationPlan::Dangling { address: a })
        } else {
            Ok(AllocationPlan::Global { size, align: a })
        }
    }

    /// Plans the release of a block of `size` bytes allocated with alignment
    /// `align`: nothing to do for a zero-size block, else the layout to hand back to
    /// the global allocator, with the same raised alignment as at allocation.
    pub fn plan_deallocation(size: usize, align: usize) -> (r: Option<(usize, usize)>)
        ensures
            r == deallocation_plan(size, align, ALIGN),
    {
        if size == 0 {
            return None;
        }
        Some((size, Self::effective_align(align)))
    }
}

} // verus!
