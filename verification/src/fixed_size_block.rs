//! Fixed-size-block allocator: segregated free lists keyed by
//! power-of-two size classes, with a free-list allocator as fallback for
//! oversized requests and for classes whose list is empty. Steady-state
//! allocation and deallocation are O(1): pop or push on the head of the
//! class list. Class selection depends only on the request, never on
//! allocation order, so deallocation recomputes it without stored
//! metadata.

use vstd::prelude::*;
use crate::align::{is_power_of_two, lemma_mod_zero_trans, lemma_power_of_two_divides,
    lemma_power_of_two_pos};
use crate::errors::AllocError;
use crate::linked_list::{
    eff_align_spec, eff_size_spec, free_bytes, lemma_ll_alloc_consumes, lemma_ll_first_alloc,
    list_disjoint_from, LinkedListAllocator, NODE_ALIGN, NODE_SIZE,
};
use vstd::arithmetic::power2::{pow2, lemma2_to64};

verus! {

/// Number of size classes.
pub const BLOCK_CLASS_COUNT: usize = 9;

/// The block size of a class: the ascending powers of two 8 ... 2048.
/// Block alignment equals block size, so every block is
/// alignment-compatible with its class.
pub open spec fn block_size_spec(c: int) -> int {
    if c == 0 {
        8
    } else if c == 1 {
        16
    } else if c == 2 {
        32
    } else if c == 3 {
        64
    } else if c == 4 {
        128
    } else if c == 5 {
        256
    } else if c == 6 {
        512
    } else if c == 7 {
        1024
    } else {
        2048
    }
}

/// A request is served from the smallest class that covers both its size
/// and its alignment; a request beyond the largest class has no class and
/// goes to the fallback allocator.
pub open spec fn required_block_size(size: int, align: int) -> int {
    if size < align {
        align
    } else {
        size
    }
}

/// The class a request is assigned to: a pure function of the request
/// alone, so allocation and deallocation always agree on it.
pub open spec fn class_of_spec(size: int, align: int) -> Option<int> {
    let need = required_block_size(size, align);
    if need <= 8 {
        Some(0)
    } else if need <= 16 {
        Some(1)
    } else if need <= 32 {
        Some(2)
    } else if need <= 64 {
        Some(3)
    } else if need <= 128 {
        Some(4)
    } else if need <= 256 {
        Some(5)
    } else if need <= 512 {
        Some(6)
    } else if need <= 1024 {
        Some(7)
    } else if need <= 2048 {
        Some(8)
    } else {
        None
    }
}

/// A block on the list of class `c`: inside the heap, sized and aligned
/// exactly as the class prescribes.
pub open spec fn block_wf(heap_start: int, heap_end: int, c: int, addr: usize) -> bool {
    &&& heap_start <= addr
    &&& addr + block_size_spec(c) <= heap_end
    &&& addr as int % block_size_spec(c) == 0
}

/// Fixed-size-block allocator state: one stack of free block addresses
/// per size class (top of stack at the end), plus the fallback free-list
/// allocator bound to the same heap region.
pub struct FixedSizeBlockAllocator {
    pub list_heads: Vec<Vec<usize>>,
    pub fallback: LinkedListAllocator,
}

impl FixedSizeBlockAllocator {
    pub open spec fn wf(&self) -> bool {
        &&& self.fallback.wf()
        &&& self.list_heads@.len() == BLOCK_CLASS_COUNT
        &&& forall|c: int, j: int|
            0 <= c < BLOCK_CLASS_COUNT && 0 <= j < self.list_heads@[c]@.len() ==> block_wf(
                self.fallback.heap_start as int,
                self.fallback.heap_end as int,
                c,
                #[trigger] self.list_heads@[c]@[j],
            )
    }

    /// All class lists keep their contents except class `c`, whose view
    /// becomes `v`; the fallback is untouched.
    pub open spec fn lists_updated(pre: Self, post: Self, c: int, v: Seq<usize>) -> bool {
        &&& post.fallback == pre.fallback
        &&& post.list_heads@.len() == pre.list_heads@.len()
        &&& forall|d: int|
            0 <= d < pre.list_heads@.len() && d != c ==> (#[trigger] post.list_heads@[d])@
                == pre.list_heads@[d]@
        &&& post.list_heads@[c]@ == v
    }

    /// No class list changes its contents.
    pub open spec fn lists_unchanged(pre: Self, post: Self) -> bool {
        &&& post.list_heads@.len() == pre.list_heads@.len()
        &&& forall|d: int|
            0 <= d < pre.list_heads@.len() ==> (#[trigger] post.list_heads@[d])@
                == pre.list_heads@[d]@
    }

    /// The allocate transition. With a class: a non-empty class list pops
    /// its top block; an empty one carves a block of the class size from
    /// the fallback, using the class size as both size and alignment.
    /// Without a class the request goes to the fallback as it stands.
    pub open spec fn alloc_post(
        pre: Self,
        post: Self,
        r: Result<usize, AllocError>,
        size: int,
        align: int,
    ) -> bool {
        match class_of_spec(size, align) {
            Some(c) => {
                if pre.list_heads@[c]@.len() > 0 {
                    &&& r == Ok::<usize, AllocError>(pre.list_heads@[c]@.last())
                    &&& Self::lists_updated(pre, post, c, pre.list_heads@[c]@.drop_last())
                } else {
                    &&& LinkedListAllocator::alloc_post(
                        pre.fallback,
                        post.fallback,
                        r,
                        block_size_spec(c),
                        block_size_spec(c),
                    )
                    &&& Self::lists_unchanged(pre, post)
                }
            },
            None => {
                &&& LinkedListAllocator::alloc_post(pre.fallback, post.fallback, r, size, align)
                &&& Self::lists_unchanged(pre, post)
            },
        }
    }

    /// The deallocate transition: with a class, the block returns to that
    /// class's list; without one, the fallback takes it back.
    pub open spec fn dealloc_post(
        pre: Self,
        post: Self,
        ptr: usize,
        size: int,
        align: int,
    ) -> bool {
        match class_of_spec(size, align) {
            Some(c) => Self::lists_updated(pre, post, c, pre.list_heads@[c]@.push(ptr)),
            None => {
                &&& LinkedListAllocator::dealloc_post(pre.fallback, post.fallback, ptr, size, align)
                &&& Self::lists_unchanged(pre, post)
            },
        }
    }

    /// The block size of class `c`.
    pub fn block_size(c: usize) -> (r: usize)
        requires
            c < BLOCK_CLASS_COUNT,
        ensures
            r == block_size_spec(c as int),
            is_power_of_two(r as int),
            8 <= r <= 2048,
    {
        proof {
            lemma2_to64();
            assert((3 as nat) < usize::BITS && pow2(3) == 8);
            assert((4 as nat) < usize::BITS && pow2(4) == 16);
            assert((5 as nat) < usize::BITS && pow2(5) == 32);
            assert((6 as nat) < usize::BITS && pow2(6) == 64);
            assert((7 as nat) < usize::BITS && pow2(7) == 128);
            assert((8 as nat) < usize::BITS && pow2(8) == 256);
            assert((9 as nat) < usize::BITS && pow2(9) == 512);
            assert((10 as nat) < usize::BITS && pow2(10) == 1024);
            assert((11 as nat) < usize::BITS && pow2(11) == 2048);
        }
        if c == 0 {
            8
        } else if c == 1 {
            16
        } else if c == 2 {
            32
        } else if c == 3 {
            64
        } else if c == 4 {
            128
        } else if c == 5 {
            256
        } else if c == 6 {
            512
        } else if c == 7 {
            1024
        } else {
            2048
        }
    }

    /// Picks the smallest class covering both the size and the alignment
    /// of a request, or `None` when the request exceeds the largest
    /// class.
    pub fn class_of(size: usize, align: usize) -> (r: Option<usize>)
        ensures
            match r {
                Some(c) => {
                    &&& class_of_spec(size as int, align as int) == Some(c as int)
                    &&& c < BLOCK_CLASS_COUNT
                    &&& size <= block_size_spec(c as int)
                    &&& align <= block_size_spec(c as int)
                },
                None => class_of_spec(size as int, align as int) is None,
            },
    {
        let need = if size < align {
            align
        } else {
            size
        };
        if need <= 8 {
            Some(0)
        } else if need <= 16 {
            Some(1)
        } else if need <= 32 {
            Some(2)
        } else if need <= 64 {
            Some(3)
        } else if need <= 128 {
            Some(4)
        } else if need <= 256 {
            Some(5)
        } else if need <= 512 {
            Some(6)
        } else if need <= 1024 {
            Some(7)
        } else if need <= 2048 {
            Some(8)
        } else {
            None
        }
    }

    /// Exclusive access to the list of class `c`.
    fn class_list_mut(lists: &mut Vec<Vec<usize>>, c: usize) -> (r: &mut Vec<usize>)
        requires
            c < old(lists)@.len(),
        ensures
            *r == old(lists)@[c as int],
            final(lists)@ == old(lists)@.update(c as int, *final(r)),
    {
        &mut lists[c]
    }

    /// Creates a fixed-size-block allocator with every class list empty
    /// and an empty fallback, over no region.
    pub fn new() -> (r: Self)
        ensures
            r.wf(),
            r.fallback.heap_start == 0,
            r.fallback.heap_end == 0,
            r.fallback.free_list@.len() == 0,
            forall|c: int| 0 <= c < BLOCK_CLASS_COUNT ==> (#[trigger] r.list_heads@[c])@.len() == 0,
    {
        let mut list_heads: Vec<Vec<usize>> = Vec::new();
        let mut c: usize = 0;
        while c < BLOCK_CLASS_COUNT
            invariant
                c <= BLOCK_CLASS_COUNT,
                list_heads@.len() == c,
                forall|d: int| 0 <= d < c ==> (#[trigger] list_heads@[d])@.len() == 0,
            decreases BLOCK_CLASS_COUNT - c,
        {
            list_heads.push(Vec::new());
            c = c + 1;
        }
        FixedSizeBlockAllocator { list_heads, fallback: LinkedListAllocator::new() }
    }

    /// Binds the allocator to `[heap_start, heap_start + heap_size)`: the
    /// class lists start empty and the fallback owns the whole region.
    /// Called exactly once, on a fresh allocator.
    pub fn init(&mut self, heap_start: usize, heap_size: usize)
        requires
            old(self).wf(),
            old(self).fallback.free_list@.len() == 0,
            forall|c: int|
                0 <= c < BLOCK_CLASS_COUNT ==> (#[trigger] old(self).list_heads@[c])@.len() == 0,
            heap_start as int % NODE_ALIGN as int == 0,
            heap_size >= NODE_SIZE,
            heap_start + heap_size <= usize::MAX,
        ensures
            final(self).wf(),
            final(self).fallback.heap_start == heap_start,
            final(self).fallback.heap_end == heap_start + heap_size,
            final(self).fallback.free_list@ == seq![
                crate::linked_list::FreeRegion { addr: heap_start, size: heap_size },
            ],
            Self::lists_unchanged(*old(self), *final(self)),
    {
        self.fallback.init(heap_start, heap_size);
    }

    /// Serves a request from its class list when one exists and is
    /// non-empty (O(1) pop), carves a fresh block of the class size from
    /// the fallback when the class list is empty, and delegates entirely
    /// to the fallback when the request exceeds the largest class.
    pub fn allocate(&mut self, size: usize, align: usize) -> (r: Result<usize, AllocError>)
        requires
            old(self).wf(),
            is_power_of_two(align as int),
        ensures
            Self::alloc_post(*old(self), *final(self), r, size as int, align as int),
            final(self).wf(),
            final(self).fallback.heap_start == old(self).fallback.heap_start,
            final(self).fallback.heap_end == old(self).fallback.heap_end,
            r matches Ok(a) ==> {
                &&& a as int % align as int == 0
                &&& old(self).fallback.heap_start <= a
                &&& a + size <= old(self).fallback.heap_end
            },
    {
        match Self::class_of(size, align) {
            Some(c) => {
                let bs = Self::block_size(c);
                let popped = Self::class_list_mut(&mut self.list_heads, c).pop();
                match popped {
                    Some(a) => {
                        proof {
                            let c_i = c as int;
                            let pre = *old(self);
                            assert(pre.list_heads@[c_i]@.len() > 0);
                            assert(block_wf(
                                pre.fallback.heap_start as int,
                                pre.fallback.heap_end as int,
                                c_i,
                                a,
                            ));
                            lemma_power_of_two_pos(align as int);
                            lemma_power_of_two_divides(align as int, bs as int);
                            lemma_mod_zero_trans(a as int, bs as int, align as int);
                            assert forall|d: int, j: int|
                                0 <= d < BLOCK_CLASS_COUNT && 0 <= j
                                    < self.list_heads@[d]@.len() implies block_wf(
                                self.fallback.heap_start as int,
                                self.fallback.heap_end as int,
                                d,
                                #[trigger] self.list_heads@[d]@[j],
                            ) by {
                                if d == c_i {
                                    assert(self.list_heads@[d]@[j] == pre.list_heads@[d]@[j]);
                                } else {
                                    assert(self.list_heads@[d]@ == pre.list_heads@[d]@);
                                }
                            }
                        }
                        Ok(a)
                    },
                    None => {
                        // Class list empty: populate from the fallback at
                        // class-size granularity.
                        let r = self.fallback.allocate(bs, bs);
                        proof {
                            lemma_power_of_two_pos(align as int);
                            if r is Ok {
                                let a = r->Ok_0;
                                lemma_power_of_two_divides(align as int, bs as int);
                                lemma_mod_zero_trans(a as int, bs as int, align as int);
                            }
                        }
                        r
                    },
                }
            },
            None => self.fallback.allocate(size, align),
        }
    }

    /// Returns a block to its class list when the request had a class
    /// (O(1) push), and to the fallback otherwise. The same class
    /// selection as at allocation time applies, recomputed from the
    /// request alone.
    pub fn deallocate(&mut self, ptr: usize, size: usize, align: usize)
        requires
            old(self).wf(),
            is_power_of_two(align as int),
            match class_of_spec(size as int, align as int) {
                Some(c) => block_wf(
                    old(self).fallback.heap_start as int,
                    old(self).fallback.heap_end as int,
                    c,
                    ptr,
                ),
                None => {
                    &&& eff_size_spec(size as int, align as int) <= usize::MAX
                    &&& ptr as int % eff_align_spec(align as int) == 0
                    &&& old(self).fallback.heap_start <= ptr
                    &&& ptr + eff_size_spec(size as int, align as int) <= old(
                        self,
                    ).fallback.heap_end
                    &&& list_disjoint_from(
                        old(self).fallback.free_list@,
                        ptr as int,
                        eff_size_spec(size as int, align as int),
                    )
                },
            },
        ensures
            Self::dealloc_post(*old(self), *final(self), ptr, size as int, align as int),
            final(self).wf(),
            final(self).fallback.heap_start == old(self).fallback.heap_start,
            final(self).fallback.heap_end == old(self).fallback.heap_end,
    {
        match Self::class_of(size, align) {
            Some(c) => {
                Self::class_list_mut(&mut self.list_heads, c).push(ptr);
                proof {
                    let c_i = c as int;
                    let pre = *old(self);
                    assert forall|d: int, j: int|
                        0 <= d < BLOCK_CLASS_COUNT && 0 <= j
                            < self.list_heads@[d]@.len() implies block_wf(
                        self.fallback.heap_start as int,
                        self.fallback.heap_end as int,
                        d,
                        #[trigger] self.list_heads@[d]@[j],
                    ) by {
                        if d == c_i {
                            if j < pre.list_heads@[d]@.len() {
                                assert(self.list_heads@[d]@[j] == pre.list_heads@[d]@[j]);
                            } else {
                                assert(self.list_heads@[d]@[j] == ptr);
                            }
                        } else {
                            assert(self.list_heads@[d]@ == pre.list_heads@[d]@);
                        }
                    }
                }
            },
            None => self.fallback.deallocate(ptr, size, align),
        }
    }
}


/// Law: on a freshly activated allocator — the class lists empty, the
/// fallback holding the whole region as one node — a classed request is
/// carved from the fallback and returns the region start, provided the
/// region start is a multiple of the class size and the class size fits
/// the region. (With an unaligned region start or a class size beyond
/// the region, the request may fail instead: those inputs are excluded.)
pub proof fn lemma_fsb_first_alloc(
    pre: FixedSizeBlockAllocator,
    post: FixedSizeBlockAllocator,
    r: Result<usize, AllocError>,
    size: int,
    align: int,
    c: int,
)
    requires
        pre.wf(),
        FixedSizeBlockAllocator::alloc_post(pre, post, r, size, align),
        class_of_spec(size, align) == Some(c),
        0 <= c < BLOCK_CLASS_COUNT,
        pre.list_heads@[c]@.len() == 0,
        pre.fallback.free_list@.len() == 1,
        pre.fallback.free_list@[0].addr as int % eff_align_spec(block_size_spec(c)) == 0,
        eff_size_spec(block_size_spec(c), block_size_spec(c)) <= pre.fallback.free_list@[0].size,
    ensures
        r == Ok::<usize, AllocError>(pre.fallback.free_list@[0].addr),
{
    lemma_ll_first_alloc(pre.fallback, post.fallback, r, block_size_spec(c), block_size_spec(c));
}

/// Count of blocks parked on the class lists below class `n`.
pub open spec fn class_blocks(lists: Seq<Vec<usize>>, n: int) -> int
    decreases n,
{
    if n <= 0 {
        0
    } else {
        class_blocks(lists, n - 1) + lists[n - 1]@.len()
    }
}

proof fn lemma_class_blocks_change(
    pre: Seq<Vec<usize>>,
    post: Seq<Vec<usize>>,
    c: int,
    delta: int,
    n: int,
)
    requires
        0 <= c < pre.len(),
        post.len() == pre.len(),
        n <= pre.len(),
        forall|d: int| 0 <= d < pre.len() && d != c ==> (#[trigger] post[d])@ == pre[d]@,
        post[c]@.len() == pre[c]@.len() + delta,
    ensures
        n <= c ==> class_blocks(post, n) == class_blocks(pre, n),
        n > c ==> class_blocks(post, n) == class_blocks(pre, n) + delta,
    decreases n,
{
    if n > 0 {
        lemma_class_blocks_change(pre, post, c, delta, n - 1);
    }
}

proof fn lemma_class_blocks_same(pre: Seq<Vec<usize>>, post: Seq<Vec<usize>>, n: int)
    requires
        post.len() == pre.len(),
        n <= pre.len(),
        forall|d: int| 0 <= d < pre.len() ==> (#[trigger] post[d])@ == pre[d]@,
    ensures
        class_blocks(post, n) == class_blocks(pre, n),
    decreases n,
{
    if n > 0 {
        lemma_class_blocks_same(pre, post, n - 1);
    }
}

/// Law: every successful allocation consumes either one parked class
/// block or bytes from the fallback's free list, so the combined measure
/// strictly shrinks on every success: allocating without freeing
/// exhausts the region after finitely many requests, ending in
/// `OutOfMemory` — never in a wrapped-around or out-of-range address.
pub proof fn lemma_fsb_alloc_consumes(
    pre: FixedSizeBlockAllocator,
    post: FixedSizeBlockAllocator,
    r: Result<usize, AllocError>,
    size: int,
    align: int,
)
    requires
        pre.wf(),
        FixedSizeBlockAllocator::alloc_post(pre, post, r, size, align),
        r is Ok,
    ensures
        free_bytes(post.fallback.free_list@) + class_blocks(
            post.list_heads@,
            BLOCK_CLASS_COUNT as int,
        ) < free_bytes(pre.fallback.free_list@) + class_blocks(
            pre.list_heads@,
            BLOCK_CLASS_COUNT as int,
        ),
{
    let n = BLOCK_CLASS_COUNT as int;
    match class_of_spec(size, align) {
        Some(c) => {
            if pre.list_heads@[c]@.len() > 0 {
                lemma_class_blocks_change(pre.list_heads@, post.list_heads@, c, -1, n);
            } else {
                lemma_ll_alloc_consumes(
                    pre.fallback,
                    post.fallback,
                    r,
                    block_size_spec(c),
                    block_size_spec(c),
                );
                lemma_class_blocks_same(pre.list_heads@, post.list_heads@, n);
            }
        },
        None => {
            lemma_ll_alloc_consumes(pre.fallback, post.fallback, r, size, align);
            lemma_class_blocks_same(pre.list_heads@, post.list_heads@, n);
        },
    }
}

/// Law: freeing a classed block and then allocating any request of the
/// same class returns that very block, in O(1) and without touching the
/// fallback, leaving every class list as it was before the free.
pub proof fn lemma_fsb_class_reuse(
    s0: FixedSizeBlockAllocator,
    s1: FixedSizeBlockAllocator,
    s2: FixedSizeBlockAllocator,
    r2: Result<usize, AllocError>,
    ptr: usize,
    size1: int,
    align1: int,
    size2: int,
    align2: int,
    c: int,
)
    requires
        class_of_spec(size1, align1) == Some(c),
        class_of_spec(size2, align2) == Some(c),
        0 <= c < BLOCK_CLASS_COUNT,
        FixedSizeBlockAllocator::dealloc_post(s0, s1, ptr, size1, align1),
        FixedSizeBlockAllocator::alloc_post(s1, s2, r2, size2, align2),
    ensures
        r2 == Ok::<usize, AllocError>(ptr),
        s2.fallback == s0.fallback,
        FixedSizeBlockAllocator::lists_unchanged(s0, s2),
{
    assert(s1.list_heads@[c]@ == s0.list_heads@[c]@.push(ptr));
    assert(s1.list_heads@[c]@.len() > 0);
    assert(s1.list_heads@[c]@.last() == ptr);
    assert(s2.list_heads@[c]@ == s1.list_heads@[c]@.drop_last());
    assert(s0.list_heads@[c]@.push(ptr).drop_last() =~= s0.list_heads@[c]@);
}

} // verus!
