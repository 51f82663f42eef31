//! Free-list allocator: first-fit allocation over a singly-linked list of
//! free regions. In the running kernel the list nodes live inside the free
//! memory they describe; here the list is modelled as a sequence of
//! address/size pairs, head first, with the node footprint (`NODE_SIZE`)
//! and node alignment (`NODE_ALIGN`) constraints of the in-place layout
//! kept intact. Freed regions are pushed to the front of the list and are
//! never coalesced with physically adjacent free regions — a deliberate
//! simplicity/fragmentation tradeoff of this design.

use vstd::prelude::*;
use crate::align::{
    align_up_spec, is_power_of_two, lemma_align_up_properties, lemma_mod_zero_add,
    lemma_mod_zero_trans, lemma_power_of_two_divides, lemma_power_of_two_pos,
};
use crate::errors::AllocError;
use vstd::arithmetic::power2::{pow2, lemma2_to64};

verus! {

/// Size in bytes of a free-list node header (region size plus next link),
/// the smallest region the list can store.
pub const NODE_SIZE: usize = 16;

/// Alignment of a free-list node header.
pub const NODE_ALIGN: usize = 8;

/// One free region `[addr, addr + size)` of the heap.
#[derive(Clone, Copy, Debug, PartialEq, Eq, Structural)]
pub struct FreeRegion {
    pub addr: usize,
    pub size: usize,
}

/// A region that can carry a node header and lies inside the heap.
pub open spec fn region_wf(heap_start: int, heap_end: int, r: FreeRegion) -> bool {
    &&& heap_start <= r.addr
    &&& r.addr + r.size <= heap_end
    &&& r.size >= NODE_SIZE
    &&& r.addr as int % NODE_ALIGN as int == 0
}

/// Two free regions never overlap.
pub open spec fn regions_disjoint(a: FreeRegion, b: FreeRegion) -> bool {
    a.addr + a.size <= b.addr || b.addr + b.size <= a.addr
}

/// A free region does not overlap the byte range `[start, start + size)`.
pub open spec fn range_disjoint_from(r: FreeRegion, start: int, size: int) -> bool {
    r.addr + r.size <= start || start + size <= r.addr
}

/// Every region of the list is well formed and no two overlap.
pub open spec fn list_wf(heap_start: int, heap_end: int, s: Seq<FreeRegion>) -> bool {
    &&& forall|i: int|
        0 <= i < s.len() ==> region_wf(heap_start, heap_end, #[trigger] s[i])
    &&& forall|i: int, j: int|
        0 <= i < j < s.len() ==> regions_disjoint(#[trigger] s[i], #[trigger] s[j])
}

/// No region of the list overlaps the byte range `[start, start + size)`.
pub open spec fn list_disjoint_from(s: Seq<FreeRegion>, start: int, size: int) -> bool {
    forall|j: int| 0 <= j < s.len() ==> range_disjoint_from(#[trigger] s[j], start, size)
}

/// The alignment actually carved: at least the node alignment.
pub open spec fn eff_align_spec(align: int) -> int {
    if align < NODE_ALIGN { NODE_ALIGN as int } else { align }
}

/// The size actually carved: rounded up so a freed region can always
/// carry a node header again.
pub open spec fn eff_size_spec(size: int, align: int) -> int {
    let rounded = align_up_spec(size, eff_align_spec(align));
    if rounded < NODE_SIZE { NODE_SIZE as int } else { rounded }
}

/// The region can host `size` bytes at alignment `align` (both effective):
/// first-fit's acceptance test.
pub open spec fn region_fits(r: FreeRegion, size: int, align: int) -> bool {
    align_up_spec(r.addr as int, align) + size <= r.addr + r.size
}

/// `i` is the first index whose region fits.
pub open spec fn is_first_fit(s: Seq<FreeRegion>, size: int, align: int, i: int) -> bool {
    &&& 0 <= i < s.len()
    &&& region_fits(s[i], size, align)
    &&& forall|j: int| 0 <= j < i ==> !region_fits(#[trigger] s[j], size, align)
}

/// Some region of the list fits.
pub open spec fn has_fit(s: Seq<FreeRegion>, size: int, align: int) -> bool {
    exists|i: int| is_first_fit(s, size, align, i)
}

/// The index the first-fit scan selects.
pub open spec fn first_fit_index(s: Seq<FreeRegion>, size: int, align: int) -> int {
    choose|i: int| is_first_fit(s, size, align, i)
}

/// The first-fit index is unique.
pub proof fn lemma_first_fit_unique(s: Seq<FreeRegion>, size: int, align: int, i: int, j: int)
    requires
        is_first_fit(s, size, align, i),
        is_first_fit(s, size, align, j),
    ensures
        i == j,
{
    if i < j {
        assert(!region_fits(s[i], size, align));
    }
    if j < i {
        assert(!region_fits(s[j], size, align));
    }
}

/// The free list after carving `[align_up(s[i].addr), ... + size)` out of
/// region `i`: the region leaves the list; the excess before the aligned
/// start and the excess after the carved range are pushed back to the
/// front when each can host a node header, and are wasted otherwise.
pub open spec fn alloc_result_list(s: Seq<FreeRegion>, i: int, size: int, align: int) -> Seq<
    FreeRegion,
> {
    let reg = s[i];
    let a = align_up_spec(reg.addr as int, align);
    let front = a - reg.addr;
    let back = reg.addr + reg.size - (a + size);
    let r0 = s.remove(i);
    let r1 = if front >= NODE_SIZE {
        r0.insert(0, FreeRegion { addr: reg.addr, size: front as usize })
    } else {
        r0
    };
    if back >= NODE_SIZE {
        r1.insert(0, FreeRegion { addr: (a + size) as usize, size: back as usize })
    } else {
        r1
    }
}

/// Free-list allocator state over a fixed heap region.
pub struct LinkedListAllocator {
    pub heap_start: usize,
    pub heap_end: usize,
    pub free_list: Vec<FreeRegion>,
}

impl LinkedListAllocator {
    pub open spec fn wf(&self) -> bool {
        &&& self.heap_start <= self.heap_end
        &&& list_wf(self.heap_start as int, self.heap_end as int, self.free_list@)
    }

    /// The allocate transition: on the first fitting region, the aligned
    /// address is returned and the list is reshaped as
    /// `alloc_result_list`; with no fitting region the request fails and
    /// the list is untouched.
    pub open spec fn alloc_post(
        pre: Self,
        post: Self,
        r: Result<usize, AllocError>,
        size: int,
        align: int,
    ) -> bool {
        let es = eff_size_spec(size, align);
        let ea = eff_align_spec(align);
        &&& post.heap_start == pre.heap_start
        &&& post.heap_end == pre.heap_end
        &&& if has_fit(pre.free_list@, es, ea) {
            let i = first_fit_index(pre.free_list@, es, ea);
            let a = align_up_spec(pre.free_list@[i].addr as int, ea);
            &&& r == Ok::<usize, AllocError>(a as usize)
            &&& post.free_list@ == alloc_result_list(pre.free_list@, i, es, ea)
        } else {
            &&& r == Err::<usize, AllocError>(AllocError::OutOfMemory)
            &&& post.free_list@ == pre.free_list@
        }
    }

    /// The deallocate transition: the freed range becomes a node pushed to
    /// the front of the list, at the effective size the matching
    /// allocation carved.
    pub open spec fn dealloc_post(
        pre: Self,
        post: Self,
        ptr: usize,
        size: int,
        align: int,
    ) -> bool {
        &&& post.heap_start == pre.heap_start
        &&& post.heap_end == pre.heap_end
        &&& post.free_list@ == pre.free_list@.insert(
            0,
            FreeRegion { addr: ptr, size: eff_size_spec(size, align) as usize },
        )
    }

    /// Creates an empty free-list allocator over no region.
    pub fn new() -> (r: Self)
        ensures
            r.heap_start == 0,
            r.heap_end == 0,
            r.free_list@.len() == 0,
            r.wf(),
    {
        LinkedListAllocator { heap_start: 0, heap_end: 0, free_list: Vec::new() }
    }

    /// Binds the allocator to `[heap_start, heap_start + heap_size)`: the
    /// entire region starts as one free node. Called exactly once, on a
    /// fresh allocator; the region must be able to host a node header.
    pub fn init(&mut self, heap_start: usize, heap_size: usize)
        requires
            old(self).free_list@.len() == 0,
            heap_start as int % NODE_ALIGN as int == 0,
            heap_size >= NODE_SIZE,
            heap_start + heap_size <= usize::MAX,
        ensures
            final(self).heap_start == heap_start,
            final(self).heap_end == heap_start + heap_size,
            final(self).free_list@ == seq![FreeRegion { addr: heap_start, size: heap_size }],
            final(self).wf(),
    {
        self.heap_start = heap_start;
        self.heap_end = heap_start + heap_size;
        self.free_list.push(FreeRegion { addr: heap_start, size: heap_size });
        proof {
            assert(self.free_list@ =~= seq![FreeRegion { addr: heap_start, size: heap_size }]);
        }
    }

    /// Normalizes a request: alignment at least the node alignment, size
    /// rounded up to that alignment and at least the node footprint, so
    /// that the carved range can later rejoin the list as a node. `None`
    /// when the rounded size does not fit in an address — nothing could
    /// ever satisfy such a request.
    fn size_align(size: usize, align: usize) -> (r: Option<(usize, usize)>)
        requires
            is_power_of_two(align as int),
        ensures
            match r {
                Some(p) => {
                    &&& p.0 == eff_size_spec(size as int, align as int)
                    &&& p.1 == eff_align_spec(align as int)
                    &&& is_power_of_two(p.1 as int)
                },
                None => eff_size_spec(size as int, align as int) > usize::MAX,
            },
    {
        let ea = if align < NODE_ALIGN {
            proof {
                lemma2_to64();
                assert((3 as nat) < usize::BITS && 8 == pow2(3 as nat));
            }
            NODE_ALIGN
        } else {
            align
        };
        proof {
            lemma_power_of_two_pos(ea as int);
            vstd::arithmetic::div_mod::lemma_mod_decreases(size as nat, ea as nat);
            lemma_align_up_properties(size as int, ea as int);
        }
        let rem = size % ea;
        let rounded = if rem == 0 {
            size
        } else {
            let base = size - rem;
            if ea > usize::MAX - base {
                return None;
            }
            base + ea
        };
        let es = if rounded < NODE_SIZE {
            NODE_SIZE
        } else {
            rounded
        };
        Some((es, ea))
    }

    /// First-fit scan: finds the first free region that can host the
    /// (normalized) request, removes it, returns its aligned start and
    /// pushes any usable excess before and after the carved range back to
    /// the front of the list. Fails with `OutOfMemory` when no region
    /// fits.
    pub fn allocate(&mut self, size: usize, align: usize) -> (r: Result<usize, AllocError>)
        requires
            old(self).wf(),
            is_power_of_two(align as int),
        ensures
            Self::alloc_post(*old(self), *final(self), r, size as int, align as int),
            final(self).wf(),
            r matches Ok(a) ==> {
                let es = eff_size_spec(size as int, align as int);
                &&& a as int % align as int == 0
                &&& old(self).heap_start <= a
                &&& a + size <= a + es <= old(self).heap_end
                &&& list_disjoint_from(final(self).free_list@, a as int, es)
            },
    {
        let ghost es_g = eff_size_spec(size as int, align as int);
        let ghost ea_g = eff_align_spec(align as int);
        let (es, ea) = match Self::size_align(size, align) {
            Some(p) => p,
            None => {
                proof {
                    // A rounded size beyond `usize::MAX` fits nowhere.
                    if has_fit(self.free_list@, es_g, ea_g) {
                        let i = choose|i: int| is_first_fit(self.free_list@, es_g, ea_g, i);
                        let reg = self.free_list@[i];
                        assert(region_wf(self.heap_start as int, self.heap_end as int, reg));
                        lemma_align_up_properties(reg.addr as int, ea_g);
                    }
                }
                return Err(AllocError::OutOfMemory);
            },
        };
        let mut i: usize = 0;
        while i < self.free_list.len()
            invariant
                *self == *old(self),
                self.wf(),
                i <= self.free_list@.len(),
                es == eff_size_spec(size as int, align as int),
                ea == eff_align_spec(align as int),
                is_power_of_two(align as int),
                is_power_of_two(ea as int),
                ea >= NODE_ALIGN,
                forall|j: int| 0 <= j < i ==> !region_fits(#[trigger] self.free_list@[j], es as int, ea as int),
            decreases self.free_list@.len() - i,
        {
            let region = self.free_list[i];
            proof {
                assert(region_wf(self.heap_start as int, self.heap_end as int, region));
                lemma_power_of_two_pos(ea as int);
                vstd::arithmetic::div_mod::lemma_mod_decreases(region.addr as nat, ea as nat);
                lemma_align_up_properties(region.addr as int, ea as int);
            }
            let rem = region.addr % ea;
            if rem == 0 || ea <= usize::MAX - (region.addr - rem) {
                let astart = if rem == 0 {
                    region.addr
                } else {
                    (region.addr - rem) + ea
                };
                let rend = region.addr + region.size;
                if astart <= rend && es <= rend - astart {
                    self.carve(i, astart, es, ea, Ghost(size as int), Ghost(align as int));
                    return Ok(astart);
                }
            }
            proof {
                assert(!region_fits(region, es as int, ea as int));
            }
            i = i + 1;
        }
        proof {
            if has_fit(self.free_list@, es as int, ea as int) {
                let k = choose|k: int| is_first_fit(self.free_list@, es as int, ea as int, k);
                assert(!region_fits(self.free_list@[k], es as int, ea as int));
            }
        }
        Err(AllocError::OutOfMemory)
    }

    /// Removes region `i`, which hosts the carved range
    /// `[astart, astart + es)`, and pushes the usable excess around the
    /// range back onto the list front.
    fn carve(
        &mut self,
        i: usize,
        astart: usize,
        es: usize,
        ea: usize,
        Ghost(size): Ghost<int>,
        Ghost(align): Ghost<int>,
    )
        requires
            old(self).wf(),
            i < old(self).free_list@.len(),
            size >= 0,
            es == eff_size_spec(size, align),
            ea == eff_align_spec(align),
            is_power_of_two(align),
            is_power_of_two(ea as int),
            ea >= NODE_ALIGN,
            astart == align_up_spec(old(self).free_list@[i as int].addr as int, ea as int),
            astart + es <= old(self).free_list@[i as int].addr + old(self).free_list@[i as int].size,
            forall|j: int|
                0 <= j < i ==> !region_fits(
                    #[trigger] old(self).free_list@[j],
                    es as int,
                    ea as int,
                ),
        ensures
            Self::alloc_post(
                *old(self),
                *final(self),
                Ok(astart),
                size,
                align,
            ),
            final(self).wf(),
            astart as int % align == 0,
            old(self).heap_start <= astart,
            astart + es <= old(self).heap_end,
            list_disjoint_from(final(self).free_list@, astart as int, es as int),
    {
        let ghost s = self.free_list@;
        let ghost reg = s[i as int];
        let ghost hs = self.heap_start as int;
        let ghost he = self.heap_end as int;
        proof {
            lemma_align_up_properties(reg.addr as int, ea as int);
            assert(is_first_fit(s, es as int, ea as int, i as int));
            lemma_first_fit_unique(
                s,
                es as int,
                ea as int,
                first_fit_index(s, es as int, ea as int),
                i as int,
            );
            // The carved start is node-aligned, and a multiple of the
            // requested alignment.
            lemma2_to64();
            assert((3 as nat) < usize::BITS && 8 == pow2(3 as nat));
            lemma_power_of_two_divides(NODE_ALIGN as int, ea as int);
            lemma_mod_zero_trans(astart as int, ea as int, NODE_ALIGN as int);
            lemma_power_of_two_pos(align);
            if align < NODE_ALIGN as int {
                lemma_power_of_two_divides(align, ea as int);
            } else {
                assert(ea as int % align == 0) by {
                    vstd::arithmetic::div_mod::lemma_mod_self_0(align);
                }
            }
            lemma_mod_zero_trans(astart as int, ea as int, align);
            // The effective size keeps node alignment: it is a multiple
            // of the node alignment, so the back excess stays aligned.
            lemma_align_up_properties(size, ea as int);
            if align_up_spec(size, ea as int) < NODE_SIZE {
                assert(es as int % NODE_ALIGN as int == 0);
            } else {
                lemma_mod_zero_trans(es as int, ea as int, NODE_ALIGN as int);
            }
            lemma_mod_zero_add(astart as int, es as int, NODE_ALIGN as int);
            s.remove_ensures(i as int);
        }
        let node = self.free_list.remove(i);
        let front = astart - node.addr;
        if front >= NODE_SIZE {
            self.free_list.insert(0, FreeRegion { addr: node.addr, size: front });
            proof {
                s.remove(i as int).insert_ensures(0, FreeRegion { addr: node.addr, size: front });
            }
        }
        let back = (node.addr + node.size) - (astart + es);
        let ghost mid = self.free_list@;
        if back >= NODE_SIZE {
            self.free_list.insert(0, FreeRegion { addr: astart + es, size: back });
            proof {
                mid.insert_ensures(0, FreeRegion { addr: (astart + es) as usize, size: back });
            }
        }
        proof {
            let result = self.free_list@;
            let r0 = s.remove(i as int);
            let fex = front >= NODE_SIZE;
            let bex = back >= NODE_SIZE;
            let shift: int = (if fex { 1int } else { 0int }) + (if bex { 1int } else { 0int });
            let fnode = FreeRegion { addr: reg.addr, size: front };
            let bnode = FreeRegion { addr: (astart + es) as usize, size: back };

            // Where each element of the reshaped list comes from.
            assert(result.len() == r0.len() + shift);
            assert forall|j: int| 0 <= j < r0.len() implies #[trigger] result[j + shift] == r0[j] by {
                if fex && bex {
                    assert(result[j + 2] == mid[j + 1]);
                    assert(mid[j + 1] == r0[j]);
                } else if fex || bex {
                    assert(result[j + 1] == r0[j]);
                }
            }
            if fex && bex {
                assert(result[0] == bnode && result[1] == fnode);
            } else if fex {
                assert(result[0] == fnode);
            } else if bex {
                assert(result[0] == bnode);
            }
            assert(result == alloc_result_list(s, i as int, es as int, ea as int));

            // Untouched regions stay well formed and clear of region `i`.
            assert forall|j: int| 0 <= j < r0.len() implies region_wf(hs, he, #[trigger] r0[j])
                && regions_disjoint(r0[j], reg) by {
                if j < i {
                    assert(r0[j] == s[j]);
                    assert(regions_disjoint(s[j], s[i as int]));
                } else {
                    assert(r0[j] == s[j + 1]);
                    assert(regions_disjoint(s[i as int], s[j + 1]));
                }
            }

            // The excess nodes lie inside region `i`, around the carved
            // range, and can host a node header.
            if fex {
                assert(region_wf(hs, he, fnode));
            }
            if bex {
                assert(region_wf(hs, he, bnode));
            }

            assert forall|p: int| 0 <= p < result.len() implies region_wf(
                hs,
                he,
                #[trigger] result[p],
            ) && range_disjoint_from(result[p], astart as int, es as int) by {
                if p >= shift {
                    assert(result[p] == r0[p - shift]);
                    assert(regions_disjoint(r0[p - shift], reg));
                }
            }

            assert forall|p: int, q: int| 0 <= p < q < result.len() implies regions_disjoint(
                #[trigger] result[p],
                #[trigger] result[q],
            ) by {
                if p >= shift {
                    let pj = p - shift;
                    let qj = q - shift;
                    let pi: int = if pj < i { pj } else { pj + 1 };
                    let qi: int = if qj < i { qj } else { qj + 1 };
                    assert(r0[pj] == s[pi]);
                    assert(r0[qj] == s[qi]);
                    assert(regions_disjoint(s[pi], s[qi]));
                } else if q >= shift {
                    assert(result[q] == r0[q - shift]);
                    assert(regions_disjoint(r0[q - shift], reg));
                }
            }
            assert(list_wf(hs, he, result));
        }
    }


    /// Pushes the freed range `[ptr, ptr + effective size)` onto the list
    /// front as a new free node. The caller owns that range — it came
    /// from a matching `allocate` — so it is disjoint from every listed
    /// region; freeing anything else is the caller's error and is ruled
    /// out here.
    pub fn deallocate(&mut self, ptr: usize, size: usize, align: usize)
        requires
            old(self).wf(),
            is_power_of_two(align as int),
            eff_size_spec(size as int, align as int) <= usize::MAX,
            ptr as int % eff_align_spec(align as int) == 0,
            old(self).heap_start <= ptr,
            ptr + eff_size_spec(size as int, align as int) <= old(self).heap_end,
            list_disjoint_from(
                old(self).free_list@,
                ptr as int,
                eff_size_spec(size as int, align as int),
            ),
        ensures
            Self::dealloc_post(*old(self), *final(self), ptr, size as int, align as int),
            final(self).wf(),
    {
        let ghost s = self.free_list@;
        let (es, _ea) = match Self::size_align(size, align) {
            Some(p) => p,
            None => {
                proof {
                    assert(false);
                }
                return;
            },
        };
        self.free_list.insert(0, FreeRegion { addr: ptr, size: es });
        proof {
            let x = FreeRegion { addr: ptr, size: es };
            s.insert_ensures(0, x);
            lemma2_to64();
            assert((3 as nat) < usize::BITS && 8 == pow2(3 as nat));
            lemma_power_of_two_divides(NODE_ALIGN as int, eff_align_spec(align as int));
            lemma_mod_zero_trans(ptr as int, eff_align_spec(align as int), NODE_ALIGN as int);
            let result = self.free_list@;
            let hs = self.heap_start as int;
            let he = self.heap_end as int;
            assert forall|p: int| 0 <= p < result.len() implies region_wf(
                hs,
                he,
                #[trigger] result[p],
            ) by {
                if p > 0 {
                    assert(result[p] == s[p - 1]);
                }
            }
            assert forall|p: int, q: int| 0 <= p < q < result.len() implies regions_disjoint(
                #[trigger] result[p],
                #[trigger] result[q],
            ) by {
                assert(result[q] == s[q - 1]);
                if p == 0 {
                    assert(range_disjoint_from(s[q - 1], ptr as int, es as int));
                } else {
                    assert(result[p] == s[p - 1]);
                    assert(regions_disjoint(s[p - 1], s[q - 1]));
                }
            }
            assert(list_wf(hs, he, result));
        }
    }
}


/// Total bytes held by the free list.
pub open spec fn free_bytes(s: Seq<FreeRegion>) -> int
    decreases s.len(),
{
    if s.len() == 0 {
        0
    } else {
        s[0].size + free_bytes(s.drop_first())
    }
}

/// The free list never holds a negative number of bytes.
pub proof fn lemma_free_bytes_nonneg(s: Seq<FreeRegion>)
    ensures
        free_bytes(s) >= 0,
    decreases s.len(),
{
    if s.len() > 0 {
        lemma_free_bytes_nonneg(s.drop_first());
    }
}

proof fn lemma_free_bytes_insert0(s: Seq<FreeRegion>, x: FreeRegion)
    ensures
        free_bytes(s.insert(0, x)) == x.size + free_bytes(s),
{
    s.insert_ensures(0, x);
    assert(s.insert(0, x).drop_first() =~= s);
}

proof fn lemma_free_bytes_remove(s: Seq<FreeRegion>, i: int)
    requires
        0 <= i < s.len(),
    ensures
        free_bytes(s.remove(i)) == free_bytes(s) - s[i].size,
    decreases i,
{
    s.remove_ensures(i);
    if i == 0 {
        assert(s.remove(0) =~= s.drop_first());
    } else {
        let tail = s.drop_first();
        tail.remove_ensures(i - 1);
        assert(s.remove(i).drop_first() =~= tail.remove(i - 1));
        lemma_free_bytes_remove(tail, i - 1);
        assert(tail[i - 1] == s[i]);
        assert(s.remove(i)[0] == s[0]);
    }
}

/// Where each element of `alloc_result_list` comes from: it is either an
/// untouched region of the old list, or one of the two excess nodes,
/// which lie inside the carved region and clear of the carved range.
proof fn lemma_alloc_result_elements(s: Seq<FreeRegion>, i: int, size: int, align: int)
    requires
        0 <= i < s.len(),
        align >= 1,
        size >= 0,
        region_fits(s[i], size, align),
        s[i].addr + s[i].size <= usize::MAX,
    ensures
        forall|p: int|
            0 <= p < alloc_result_list(s, i, size, align).len() ==> {
                let r = #[trigger] alloc_result_list(s, i, size, align)[p];
                let a = align_up_spec(s[i].addr as int, align);
                (exists|q: int| 0 <= q < s.len() && q != i && r == s[q]) || {
                    &&& s[i].addr <= r.addr
                    &&& r.addr + r.size <= s[i].addr + s[i].size
                    &&& range_disjoint_from(r, a, size)
                }
            },
{
    let reg = s[i];
    let a = align_up_spec(reg.addr as int, align);
    let front = a - reg.addr;
    let back = reg.addr + reg.size - (a + size);
    let r0 = s.remove(i);
    let fnode = FreeRegion { addr: reg.addr, size: front as usize };
    let bnode = FreeRegion { addr: (a + size) as usize, size: back as usize };
    let fex = front >= NODE_SIZE;
    let bex = back >= NODE_SIZE;
    let shift: int = (if fex { 1int } else { 0int }) + (if bex { 1int } else { 0int });
    let r1 = if fex { r0.insert(0, fnode) } else { r0 };
    let result = alloc_result_list(s, i, size, align);
    lemma_align_up_properties(reg.addr as int, align);
    s.remove_ensures(i);
    if fex {
        r0.insert_ensures(0, fnode);
    }
    if bex {
        r1.insert_ensures(0, bnode);
    }
    assert forall|p: int| 0 <= p < result.len() implies {
        let r = #[trigger] result[p];
        (exists|q: int| 0 <= q < s.len() && q != i && r == s[q]) || {
            &&& reg.addr <= r.addr
            &&& r.addr + r.size <= reg.addr + reg.size
            &&& range_disjoint_from(r, a, size)
        }
    } by {
        if p >= shift {
            let j = p - shift;
            if fex && bex {
                assert(result[j + 2] == r1[j + 1]);
            }
            assert(result[p] == r0[j]);
            if j < i {
                assert(r0[j] == s[j]);
            } else {
                assert(r0[j] == s[j + 1]);
            }
        } else {
            if fex && bex {
                assert(result[0] == bnode && result[1] == fnode);
            } else if fex {
                assert(result[0] == fnode);
            } else if bex {
                assert(result[0] == bnode);
            }
        }
    }
}

/// Law: a fresh heap — a single free node covering the whole region,
/// whose start address is a multiple of the effective alignment — serves
/// its first request at the region start, whenever the effective size
/// fits the region at all. (With an unaligned region start, or a size
/// whose aligned round-up exceeds the region, the request may fail: those
/// inputs are excluded here.)
pub proof fn lemma_ll_first_alloc(
    pre: LinkedListAllocator,
    post: LinkedListAllocator,
    r: Result<usize, AllocError>,
    size: int,
    align: int,
)
    requires
        pre.wf(),
        LinkedListAllocator::alloc_post(pre, post, r, size, align),
        pre.free_list@.len() == 1,
        pre.free_list@[0].addr as int % eff_align_spec(align) == 0,
        eff_size_spec(size, align) <= pre.free_list@[0].size,
    ensures
        r == Ok::<usize, AllocError>(pre.free_list@[0].addr),
{
    let s = pre.free_list@;
    let reg = s[0];
    let es = eff_size_spec(size, align);
    let ea = eff_align_spec(align);
    assert(align_up_spec(reg.addr as int, ea) == reg.addr as int);
    assert(region_fits(reg, es, ea));
    assert(is_first_fit(s, es, ea, 0));
    lemma_first_fit_unique(s, es, ea, first_fit_index(s, es, ea), 0);
}

/// Law: allocating a block, freeing it at the same layout, and allocating
/// the same layout again returns the same address — the freed node sits
/// at the list head and is reused exactly, leaving the list as it was
/// after the first allocation. No memory leaks from the round trip.
pub proof fn lemma_ll_free_reuse(
    s0: LinkedListAllocator,
    s1: LinkedListAllocator,
    s2: LinkedListAllocator,
    s3: LinkedListAllocator,
    a: usize,
    r2: Result<usize, AllocError>,
    size: int,
    align: int,
)
    requires
        s0.wf(),
        LinkedListAllocator::alloc_post(s0, s1, Ok(a), size, align),
        LinkedListAllocator::dealloc_post(s1, s2, a, size, align),
        LinkedListAllocator::alloc_post(s2, s3, r2, size, align),
    ensures
        r2 == Ok::<usize, AllocError>(a),
        s3.free_list@ == s1.free_list@,
{
    let es = eff_size_spec(size, align);
    let ea = eff_align_spec(align);
    assert(has_fit(s0.free_list@, es, ea));
    let i = first_fit_index(s0.free_list@, es, ea);
    assert(is_first_fit(s0.free_list@, es, ea, i));
    let reg = s0.free_list@[i];
    assert(region_wf(s0.heap_start as int, s0.heap_end as int, reg));
    lemma_align_up_properties(reg.addr as int, ea);
    assert(a as int == align_up_spec(reg.addr as int, ea));
    let x = FreeRegion { addr: a, size: es as usize };
    let t = s2.free_list@;
    s1.free_list@.insert_ensures(0, x);
    assert(t[0] == x);
    assert(align_up_spec(a as int, ea) == a as int);
    assert(region_fits(x, es, ea));
    assert(is_first_fit(t, es, ea, 0));
    lemma_first_fit_unique(t, es, ea, first_fit_index(t, es, ea), 0);
    assert(r2 == Ok::<usize, AllocError>(align_up_spec(t[0].addr as int, ea) as usize));
    assert(r2 == Ok::<usize, AllocError>(a));
    t.remove_ensures(0);
    assert(alloc_result_list(t, 0, es, ea) =~= s1.free_list@);
}

/// Law: the free-list allocator never writes outside the regions it
/// holds. A byte range disjoint from every free region — such as a block
/// still held by its owner — stays disjoint from every free region after
/// any allocation, and the address returned by that allocation is clear
/// of it too: an allocation elsewhere in the heap cannot corrupt a live
/// block.
pub proof fn lemma_ll_alloc_keeps_block_clear(
    pre: LinkedListAllocator,
    post: LinkedListAllocator,
    r: Result<usize, AllocError>,
    size: int,
    align: int,
    bstart: int,
    bsize: int,
)
    requires
        pre.wf(),
        LinkedListAllocator::alloc_post(pre, post, r, size, align),
        list_disjoint_from(pre.free_list@, bstart, bsize),
    ensures
        list_disjoint_from(post.free_list@, bstart, bsize),
        r matches Ok(a) ==> a + eff_size_spec(size, align) <= bstart || bstart + bsize <= a,
{
    let es = eff_size_spec(size, align);
    let ea = eff_align_spec(align);
    if has_fit(pre.free_list@, es, ea) {
        let s = pre.free_list@;
        let i = first_fit_index(s, es, ea);
        assert(is_first_fit(s, es, ea, i));
        let reg = s[i];
        let a = align_up_spec(reg.addr as int, ea);
        lemma_align_up_properties(reg.addr as int, ea);
        assert(range_disjoint_from(reg, bstart, bsize));
        assert(region_wf(pre.heap_start as int, pre.heap_end as int, reg));
        lemma_alloc_result_elements(s, i, es, ea);
        assert forall|p: int| 0 <= p < post.free_list@.len() implies range_disjoint_from(
            #[trigger] post.free_list@[p],
            bstart,
            bsize,
        ) by {
            let rr = alloc_result_list(s, i, es, ea)[p];
            if exists|q: int| 0 <= q < s.len() && q != i && rr == s[q] {
                let q = choose|q: int| 0 <= q < s.len() && q != i && rr == s[q];
                assert(range_disjoint_from(s[q], bstart, bsize));
            }
        }
    }
}

/// Law: freeing a block that is clear of a live block keeps the free list
/// clear of that live block — deallocation elsewhere cannot corrupt it.
pub proof fn lemma_ll_dealloc_keeps_block_clear(
    pre: LinkedListAllocator,
    post: LinkedListAllocator,
    ptr: usize,
    size: int,
    align: int,
    bstart: int,
    bsize: int,
)
    requires
        LinkedListAllocator::dealloc_post(pre, post, ptr, size, align),
        list_disjoint_from(pre.free_list@, bstart, bsize),
        ptr + eff_size_spec(size, align) <= bstart || bstart + bsize <= ptr,
    ensures
        list_disjoint_from(post.free_list@, bstart, bsize),
{
    let x = FreeRegion { addr: ptr, size: eff_size_spec(size, align) as usize };
    pre.free_list@.insert_ensures(0, x);
    assert forall|p: int| 0 <= p < post.free_list@.len() implies range_disjoint_from(
        #[trigger] post.free_list@[p],
        bstart,
        bsize,
    ) by {
        if p > 0 {
            assert(post.free_list@[p] == pre.free_list@[p - 1]);
        }
    }
}

/// Law: every successful allocation consumes at least its effective size
/// (at least the node footprint) from the bytes the free list holds, and
/// those bytes never go negative — so allocating without freeing exhausts
/// the region after finitely many requests, ending in `OutOfMemory`,
/// never in a wrapped-around or out-of-range address.
pub proof fn lemma_ll_alloc_consumes(
    pre: LinkedListAllocator,
    post: LinkedListAllocator,
    r: Result<usize, AllocError>,
    size: int,
    align: int,
)
    requires
        pre.wf(),
        LinkedListAllocator::alloc_post(pre, post, r, size, align),
        r is Ok,
    ensures
        free_bytes(post.free_list@) <= free_bytes(pre.free_list@) - eff_size_spec(size, align),
        eff_size_spec(size, align) >= NODE_SIZE,
{
    let es = eff_size_spec(size, align);
    let ea = eff_align_spec(align);
    assert(has_fit(pre.free_list@, es, ea));
    let s = pre.free_list@;
    let i = first_fit_index(s, es, ea);
    assert(is_first_fit(s, es, ea, i));
    let reg = s[i];
    let a = align_up_spec(reg.addr as int, ea);
    lemma_align_up_properties(reg.addr as int, ea);
    let front = a - reg.addr;
    let back = reg.addr + reg.size - (a + es);
    let r0 = s.remove(i);
    let fnode = FreeRegion { addr: reg.addr, size: front as usize };
    let bnode = FreeRegion { addr: (a + es) as usize, size: back as usize };
    lemma_free_bytes_remove(s, i);
    if front >= NODE_SIZE {
        lemma_free_bytes_insert0(r0, fnode);
    }
    if back >= NODE_SIZE {
        if front >= NODE_SIZE {
            lemma_free_bytes_insert0(r0.insert(0, fnode), bnode);
        } else {
            lemma_free_bytes_insert0(r0, bnode);
        }
    }
}

} // verus!
