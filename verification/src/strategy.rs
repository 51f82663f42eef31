//! The one capability interface all three allocation strategies serve:
//! `allocate` and `deallocate` over raw addresses, with the same outward
//! contract — a successful allocation is aligned as requested and lies
//! inside the heap region, and the region never changes under either
//! operation. The build picks one strategy as the process-wide provider;
//! code written against this interface needs no other change when the
//! strategy is swapped.

use vstd::prelude::*;
use crate::align::is_power_of_two;
use crate::bump::BumpAllocator;
use crate::errors::AllocError;
use crate::fixed_size_block::{block_wf, class_of_spec, FixedSizeBlockAllocator};
use crate::linked_list::{
    eff_align_spec, eff_size_spec, list_disjoint_from, LinkedListAllocator,
};

verus! {

/// The allocate/deallocate capability shared by every strategy.
pub trait AllocatorStrategy: Sized {
    /// The strategy's internal invariant.
    spec fn inv(&self) -> bool;

    /// Start of the heap region the strategy manages.
    spec fn region_start(&self) -> int;

    /// End of the heap region the strategy manages.
    spec fn region_end(&self) -> int;

    /// Strategy-specific room left for one more allocation record.
    spec fn can_allocate(&self, size: int, align: int) -> bool;

    /// What a caller must own and hand back for this free to be sound:
    /// deallocating anything else is undefined behavior in the running
    /// kernel and is ruled out here.
    spec fn valid_dealloc(&self, ptr: int, size: int, align: int) -> bool;

    /// Either an address aligned to `align` with `size` bytes inside the
    /// heap region, or `OutOfMemory`.
    fn allocate(&mut self, size: usize, align: usize) -> (r: Result<usize, AllocError>)
        requires
            old(self).inv(),
            is_power_of_two(align as int),
            old(self).can_allocate(size as int, align as int),
        ensures
            final(self).inv(),
            final(self).region_start() == old(self).region_start(),
            final(self).region_end() == old(self).region_end(),
            r matches Ok(a) ==> {
                &&& a as int % align as int == 0
                &&& old(self).region_start() <= a
                &&& a + size <= old(self).region_end()
            },
    ;

    /// Returns a block obtained from a matching `allocate` to the
    /// strategy.
    fn deallocate(&mut self, ptr: usize, size: usize, align: usize)
        requires
            old(self).inv(),
            is_power_of_two(align as int),
            old(self).valid_dealloc(ptr as int, size as int, align as int),
        ensures
            final(self).inv(),
            final(self).region_start() == old(self).region_start(),
            final(self).region_end() == old(self).region_end(),
    ;
}

impl AllocatorStrategy for BumpAllocator {
    open spec fn inv(&self) -> bool {
        self.wf()
    }

    open spec fn region_start(&self) -> int {
        self.heap_start as int
    }

    open spec fn region_end(&self) -> int {
        self.heap_end as int
    }

    open spec fn can_allocate(&self, size: int, align: int) -> bool {
        self.allocations < usize::MAX
    }

    open spec fn valid_dealloc(&self, ptr: int, size: int, align: int) -> bool {
        self.allocations >= 1
    }

    fn allocate(&mut self, size: usize, align: usize) -> (r: Result<usize, AllocError>) {
        self.allocate(size, align)
    }

    fn deallocate(&mut self, ptr: usize, size: usize, align: usize) {
        self.deallocate(ptr, size, align)
    }
}

impl AllocatorStrategy for LinkedListAllocator {
    open spec fn inv(&self) -> bool {
        self.wf()
    }

    open spec fn region_start(&self) -> int {
        self.heap_start as int
    }

    open spec fn region_end(&self) -> int {
        self.heap_end as int
    }

    open spec fn can_allocate(&self, size: int, align: int) -> bool {
        true
    }

    open spec fn valid_dealloc(&self, ptr: int, size: int, align: int) -> bool {
        &&& eff_size_spec(size, align) <= usize::MAX
        &&& ptr % eff_align_spec(align) == 0
        &&& self.heap_start <= ptr
        &&& ptr + eff_size_spec(size, align) <= self.heap_end
        &&& list_disjoint_from(self.free_list@, ptr, eff_size_spec(size, align))
    }

    fn allocate(&mut self, size: usize, align: usize) -> (r: Result<usize, AllocError>) {
        self.allocate(size, align)
    }

    fn deallocate(&mut self, ptr: usize, size: usize, align: usize) {
        self.deallocate(ptr, size, align)
    }
}

impl AllocatorStrategy for FixedSizeBlockAllocator {
    open spec fn inv(&self) -> bool {
        self.wf()
    }

    open spec fn region_start(&self) -> int {
        self.fallback.heap_start as int
    }

    open spec fn region_end(&self) -> int {
        self.fallback.heap_end as int
    }

    open spec fn can_allocate(&self, size: int, align: int) -> bool {
        true
    }

    open spec fn valid_dealloc(&self, ptr: int, size: int, align: int) -> bool {
        match class_of_spec(size, align) {
            Some(c) => ptr >= 0 && block_wf(
                self.fallback.heap_start as int,
                self.fallback.heap_end as int,
                c,
                ptr as usize,
            ),
            None => {
                &&& eff_size_spec(size, align) <= usize::MAX
                &&& ptr % eff_align_spec(align) == 0
                &&& self.fallback.heap_start <= ptr
                &&& ptr + eff_size_spec(size, align) <= self.fallback.heap_end
                &&& list_disjoint_from(self.fallback.free_list@, ptr, eff_size_spec(size, align))
            },
        }
    }

    fn allocate(&mut self, size: usize, align: usize) -> (r: Result<usize, AllocError>) {
        self.allocate(size, align)
    }

    fn deallocate(&mut self, ptr: usize, size: usize, align: usize) {
        self.deallocate(ptr, size, align)
    }
}

} // verus!
