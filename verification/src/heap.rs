//! Heap activation plan: the fixed virtual heap region and the inclusive
//! page range that must be mapped (present and writable) before the
//! active allocator is handed the region. The page-table and
//! physical-frame work itself is done by the unverified boot layer; this
//! module fixes which pages it must map and how a missing frame is
//! reported.

use vstd::prelude::*;
use vstd::arithmetic::div_mod::{lemma_div_is_ordered, lemma_fundamental_div_mod};
use crate::errors::HeapInitError;

verus! {

/// Fixed virtual start address of the heap region. Virtual addresses of
/// the paging layer are 64-bit wherever this kernel runs.
pub const HEAP_START: u64 = 0x4444_4444_0000;

/// Fixed size of the heap region in bytes: 100 KiB.
pub const HEAP_SIZE: u64 = 100 * 1024;

/// Size of one virtual page.
pub const PAGE_SIZE: u64 = 4096;

/// The inclusive range of page indices covering `[start, start + size)`:
/// exactly the pages whose addresses the region touches.
pub fn page_range_inclusive(start: u64, size: u64) -> (r: (u64, u64))
    requires
        size >= 1,
        start + size <= u64::MAX,
    ensures
        r.0 == start as int / PAGE_SIZE as int,
        r.1 == (start + size - 1) as int / PAGE_SIZE as int,
        r.0 <= r.1,
        forall|a: int| start <= a < start + size ==> r.0 <= #[trigger] (a / PAGE_SIZE as int) <= r.1,
{
    let first = start / PAGE_SIZE;
    let last = (start + size - 1) / PAGE_SIZE;
    proof {
        assert forall|a: int| start <= a < start + size implies first <= #[trigger] (a
            / PAGE_SIZE as int) <= last by {
            lemma_div_is_ordered(start as int, a, PAGE_SIZE as int);
            lemma_div_is_ordered(a, start + size - 1, PAGE_SIZE as int);
        }
        assert(first <= last) by {
            lemma_div_is_ordered(start as int, start + size - 1, PAGE_SIZE as int);
        }
    }
    (first, last)
}

/// The pages the one-time heap activation must map: the inclusive page
/// range covering `[HEAP_START, HEAP_START + HEAP_SIZE)`.
pub fn heap_page_range() -> (r: (u64, u64))
    ensures
        r.0 == HEAP_START as int / PAGE_SIZE as int,
        r.1 == (HEAP_START as int + HEAP_SIZE - 1) / PAGE_SIZE as int,
        forall|a: int|
            HEAP_START <= a < HEAP_START + HEAP_SIZE ==> r.0 <= #[trigger] (a / PAGE_SIZE as int)
                <= r.1,
{
    page_range_inclusive(HEAP_START, HEAP_SIZE)
}

/// The decision taken for each page during activation: a page needs one
/// physical frame; a drained frame source is the fatal
/// `FrameAllocationFailed`, aborting the boot — never retried.
pub fn frame_choice(frame: Option<u64>) -> (r: Result<u64, HeapInitError>)
    ensures
        match frame {
            Some(f) => r == Ok::<u64, HeapInitError>(f),
            None => r == Err::<u64, HeapInitError>(HeapInitError::FrameAllocationFailed),
        },
{
    match frame {
        Some(f) => Ok(f),
        None => Err(HeapInitError::FrameAllocationFailed),
    }
}

/// The heap start sits on a page boundary, so the first mapped page
/// starts exactly at the heap start.
pub proof fn lemma_heap_start_page_aligned()
    ensures
        HEAP_START as int % PAGE_SIZE as int == 0,
        HEAP_START as int % 8 == 0,
{
    lemma_fundamental_div_mod(HEAP_START as int, PAGE_SIZE as int);
}

} // verus!
