//! The minimum-alignment rule of the engine boundary.
//!
//! The engine refuses (with undefined behaviour) any request whose alignment
//! lies below its own floor, so every request is widened to the effective
//! alignment `max(requested, MIN_ALIGNMENT)` before it crosses the C ABI.
//! The same widening must happen at allocation and at deallocation time;
//! [`fit_layout`] is that single, deterministic rule.

use vstd::prelude::*;

verus! {

/// The engine's minimum alignment: the width of a pointer.
pub const MIN_ALIGNMENT: usize = 8;

/// A power of two, the only alignments the host's allocation model produces.
pub open spec fn is_power_of_two(n: int) -> bool
    decreases n,
{
    if n <= 0 {
        false
    } else if n == 1 {
        true
    } else {
        n % 2 == 0 && is_power_of_two(n / 2)
    }
}

/// Zero-sized capability standing for the process-wide engine instance.
///
/// The engine holds its own global state and its own locks; this type
/// carries no fields and adds none. An allocation backend built over the
/// engine widens every request through [`GlobalScudoAllocator::fit`]
/// before the request crosses the C ABI, at allocation and at
/// deallocation alike.
#[derive(Clone, Copy)]
pub struct GlobalScudoAllocator;

impl GlobalScudoAllocator {
    /// The request this allocator actually forwards to the engine for a
    /// host request: same size, effective alignment.
    pub fn fit(&self, request: AllocRequest) -> (fitted: AllocRequest)
        ensures
            fitted.size == request.size,
            fitted.align == effective_align(request.align),
            request.wf() ==> fitted.wf(),
    {
        fit_layout(request)
    }
}

/// One allocation request as the host's allocation machinery states it:
/// a size in bytes and an alignment.
#[derive(Clone, Copy, PartialEq, Eq, Structural, Debug)]
pub struct AllocRequest {
    pub size: usize,
    pub align: usize,
}

impl AllocRequest {
    /// The host's allocation model guarantees the alignment is a power of two.
    pub open spec fn wf(self) -> bool {
        is_power_of_two(self.align as int)
    }
}

/// The effective alignment: the requested one, or the engine's floor if the
/// request lies below it.
pub open spec fn effective_align(align: usize) -> usize {
    if align >= MIN_ALIGNMENT {
        align
    } else {
        MIN_ALIGNMENT
    }
}

pub proof fn lemma_min_alignment_is_power_of_two()
    ensures
        is_power_of_two(MIN_ALIGNMENT as int),
{
    reveal_with_fuel(is_power_of_two, 5);
}

/// Widens a request to the engine's minimum alignment; the size is kept.
/// Deallocation recomputes the effective alignment through this same
/// function, so allocation and deallocation always hand the engine the
/// same pair.
pub fn fit_layout(request: AllocRequest) -> (fitted: AllocRequest)
    ensures
        fitted.size == request.size,
        fitted.align == effective_align(request.align),
        fitted.align >= request.align,
        fitted.align >= MIN_ALIGNMENT,
        request.wf() ==> fitted.wf(),
{
    proof {
        lemma_min_alignment_is_power_of_two();
    }
    if request.align >= MIN_ALIGNMENT {
        request
    } else {
        AllocRequest { size: request.size, align: MIN_ALIGNMENT }
    }
}

/// Widening a request twice changes nothing beyond the first widening: a
/// layout that already fits the engine's floor passes through unchanged.
pub proof fn lemma_effective_align_idempotent(align: usize)
    ensures
        effective_align(effective_align(align)) == effective_align(align),
{
}

} // verus!
