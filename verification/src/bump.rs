//! Bump allocator: a monotonic pointer allocator with an
//! outstanding-allocation counter. Allocation is O(1); memory is reclaimed
//! only when the counter drains to zero, which resets the pointer to the
//! heap start.

use vstd::prelude::*;
use crate::align::{
    align_up_spec, is_power_of_two, lemma_align_up_properties, lemma_power_of_two_pos,
};
use crate::errors::AllocError;

verus! {

/// Bump allocator state over a fixed heap region.
pub struct BumpAllocator {
    pub heap_start: usize,
    pub heap_end: usize,
    pub next: usize,
    pub allocations: usize,
}

impl BumpAllocator {
    /// The bump pointer never leaves the heap region.
    pub open spec fn wf(&self) -> bool {
        self.heap_start <= self.next <= self.heap_end
    }

    /// A request fits if, once `next` is aligned up, `size` bytes still lie
    /// before the heap end.
    pub open spec fn fits(&self, size: int, align: int) -> bool {
        align_up_spec(self.next as int, align) + size <= self.heap_end
    }

    /// The allocate transition: on a fit, the aligned address is returned
    /// and `next` advances past the new allocation; otherwise the state is
    /// unchanged and the request fails.
    pub open spec fn alloc_post(
        pre: Self,
        post: Self,
        r: Result<usize, AllocError>,
        size: int,
        align: int,
    ) -> bool {
        &&& post.heap_start == pre.heap_start
        &&& post.heap_end == pre.heap_end
        &&& if pre.fits(size, align) {
            &&& r == Ok::<usize, AllocError>(align_up_spec(pre.next as int, align) as usize)
            &&& post.next == align_up_spec(pre.next as int, align) + size
            &&& post.allocations == pre.allocations + 1
        } else {
            &&& r == Err::<usize, AllocError>(AllocError::OutOfMemory)
            &&& post == pre
        }
    }

    /// The deallocate transition: the counter goes down by one; when it
    /// reaches zero, `next` snaps back to the heap start — the only way
    /// this strategy ever reclaims memory.
    pub open spec fn dealloc_post(pre: Self, post: Self) -> bool {
        &&& post.heap_start == pre.heap_start
        &&& post.heap_end == pre.heap_end
        &&& post.allocations == pre.allocations - 1
        &&& post.next == if pre.allocations == 1 {
            pre.heap_start as int
        } else {
            pre.next as int
        }
    }

    /// Creates an empty bump allocator over no region.
    pub fn new() -> (r: Self)
        ensures
            r.heap_start == 0,
            r.heap_end == 0,
            r.next == 0,
            r.allocations == 0,
            r.wf(),
    {
        BumpAllocator { heap_start: 0, heap_end: 0, next: 0, allocations: 0 }
    }

    /// Binds the allocator to the heap region `[heap_start,
    /// heap_start + heap_size)`. Called exactly once, before any
    /// allocation; re-initialization over live allocations is not designed
    /// for.
    pub fn init(&mut self, heap_start: usize, heap_size: usize)
        requires
            old(self).allocations == 0,
            heap_start + heap_size <= usize::MAX,
        ensures
            final(self).heap_start == heap_start,
            final(self).heap_end == heap_start + heap_size,
            final(self).next == heap_start,
            final(self).allocations == 0,
            final(self).wf(),
    {
        self.heap_start = heap_start;
        self.heap_end = heap_start + heap_size;
        self.next = heap_start;
    }

    /// Aligns `next` up to `align`; if `size` more bytes fit before the
    /// heap end, advances `next` past them and returns the aligned
    /// address, else fails with `OutOfMemory`.
    pub fn allocate(&mut self, size: usize, align: usize) -> (r: Result<usize, AllocError>)
        requires
            old(self).wf(),
            is_power_of_two(align as int),
            old(self).allocations < usize::MAX,
        ensures
            Self::alloc_post(*old(self), *final(self), r, size as int, align as int),
            final(self).wf(),
            r matches Ok(a) ==> a % align == 0 && old(self).next <= a
                && a + size <= old(self).heap_end,
    {
        proof {
            lemma_power_of_two_pos(align as int);
            lemma_align_up_properties(self.next as int, align as int);
            vstd::arithmetic::div_mod::lemma_mod_decreases(self.next as nat, align as nat);
        }
        let rem = self.next % align;
        let alloc_start = if rem == 0 {
            self.next
        } else {
            let base = self.next - rem;
            if align > usize::MAX - base {
                // The aligned address would not even fit in an address:
                // past the heap end for certain.
                return Err(AllocError::OutOfMemory);
            }
            base + align
        };
        if alloc_start > self.heap_end {
            return Err(AllocError::OutOfMemory);
        }
        if size > self.heap_end - alloc_start {
            return Err(AllocError::OutOfMemory);
        }
        self.next = alloc_start + size;
        self.allocations = self.allocations + 1;
        Ok(alloc_start)
    }

    /// Records that one outstanding allocation was freed. When none are
    /// left, the whole region becomes reusable from its start. The pointer
    /// and layout of the freed allocation play no role in this strategy.
    pub fn deallocate(&mut self, _ptr: usize, _size: usize, _align: usize)
        requires
            old(self).wf(),
            old(self).allocations >= 1,
        ensures
            Self::dealloc_post(*old(self), *final(self)),
            final(self).wf(),
    {
        self.allocations = self.allocations - 1;
        if self.allocations == 0 {
            self.next = self.heap_start;
        }
    }
}

/// Law: the deallocation that frees the last outstanding allocation resets
/// the bump pointer to the heap start. Together with
/// `lemma_bump_alloc_from_start` this is why, after `k` allocations and
/// `k` matching deallocations, the next allocation serves from the heap
/// start address again.
pub proof fn lemma_bump_last_dealloc_resets(pre: BumpAllocator, post: BumpAllocator)
    requires
        BumpAllocator::dealloc_post(pre, post),
        pre.allocations == 1,
    ensures
        post.next == post.heap_start,
{
}

/// Law: from a reset state (fresh, or fully drained) whose start address
/// is a multiple of the requested alignment, an allocation whose size fits
/// the region returns exactly the heap start address.
pub proof fn lemma_bump_alloc_from_start(
    pre: BumpAllocator,
    post: BumpAllocator,
    r: Result<usize, AllocError>,
    size: int,
    align: int,
)
    requires
        BumpAllocator::alloc_post(pre, post, r, size, align),
        pre.next == pre.heap_start,
        pre.heap_start as int % align == 0,
        align >= 1,
        pre.heap_start + size <= pre.heap_end,
    ensures
        r == Ok::<usize, AllocError>(pre.heap_start),
{
}


/// One step of a bump-allocator workload: an allocation request (of any
/// size and alignment, successful or not) or a deallocation.
pub open spec fn bump_step(pre: BumpAllocator, post: BumpAllocator) -> bool {
    ||| exists|r: Result<usize, AllocError>, size: int, align: int|
        BumpAllocator::alloc_post(pre, post, r, size, align)
    ||| BumpAllocator::dealloc_post(pre, post)
}

/// Law: in any run that starts reset — fresh from `init`, or drained —
/// every later state with no outstanding allocation has its bump pointer
/// back at the heap start. In particular, after `k` allocations and `k`
/// matching deallocations, in any order that never frees more than was
/// allocated, the next allocation is served from the heap start again.
pub proof fn lemma_bump_balanced_run_resets(t: Seq<BumpAllocator>, i: int)
    requires
        t.len() >= 1,
        t[0].allocations == 0,
        t[0].next == t[0].heap_start,
        forall|j: int| 0 <= j < t.len() - 1 ==> bump_step(#[trigger] t[j], t[j + 1]),
        0 <= i < t.len(),
        t[i].allocations == 0,
    ensures
        t[i].next == t[i].heap_start,
    decreases i,
{
    if i > 0 {
        let pre = t[i - 1];
        let post = t[i];
        assert(bump_step(pre, post));
        if BumpAllocator::dealloc_post(pre, post) {
            // The step that drains the counter resets the pointer; a
            // deallocation below zero is impossible for the counter.
            assert(pre.allocations == 1);
        } else {
            let (r, size, align) = choose|r: Result<usize, AllocError>, size: int, align: int|
                BumpAllocator::alloc_post(pre, post, r, size, align);
            // An allocation never drains the counter: either it succeeded
            // and raised it, or it failed and changed nothing.
            assert(pre.allocations == 0);
            lemma_bump_balanced_run_resets(t, i - 1);
        }
    }
}

/// Law: a successful allocation consumes at least its size from the space
/// left between `next` and the heap end, so allocating positive sizes
/// without freeing exhausts the region after finitely many requests, ending
/// in `OutOfMemory` — never in an address past the heap end.
pub proof fn lemma_bump_alloc_consumes(
    pre: BumpAllocator,
    post: BumpAllocator,
    r: Result<usize, AllocError>,
    size: int,
    align: int,
)
    requires
        BumpAllocator::alloc_post(pre, post, r, size, align),
        pre.wf(),
        align >= 1,
        r is Ok,
    ensures
        post.heap_end - post.next <= pre.heap_end - pre.next - size,
{
    lemma_align_up_properties(pre.next as int, align);
}

} // verus!
