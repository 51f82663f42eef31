use kernel_heap::bump::BumpAllocator;
use kernel_heap::fixed_size_block::FixedSizeBlockAllocator;
use kernel_heap::heap::{HEAP_SIZE, HEAP_START};
use kernel_heap::linked_list::LinkedListAllocator;

fn store_u64(buf: &mut [u8], off: usize, v: u64) {
    buf[off..off + 8].copy_from_slice(&v.to_le_bytes());
}

fn load_u64(buf: &[u8], off: usize) -> u64 {
    let mut b = [0u8; 8];
    b.copy_from_slice(&buf[off..off + 8]);
    u64::from_le_bytes(b)
}

/// A growable sequence of `u64` living in the simulated heap: capacity
/// doubles on overflow, elements are copied to the new block, the old
/// block is freed — the reallocation pattern a growable vector drives
/// the allocator with.
struct GrownSeq {
    ptr: usize,
    len: usize,
    cap: usize,
}

#[test]
fn hundred_kib_heap_holds_thousand_integers() {
    let base = HEAP_START as usize;
    let size = HEAP_SIZE as usize;
    let mut heap = vec![0u8; size];
    let mut a = LinkedListAllocator::new();
    a.init(base, size);

    let mut s = GrownSeq { ptr: a.allocate(8, 8).unwrap(), len: 0, cap: 1 };
    for x in 0..1000u64 {
        if s.len == s.cap {
            let new_cap = s.cap * 2;
            let new_ptr = a.allocate(new_cap * 8, 8).unwrap();
            for i in 0..s.len * 8 {
                heap[new_ptr - base + i] = heap[s.ptr - base + i];
            }
            a.deallocate(s.ptr, s.cap * 8, 8);
            s.ptr = new_ptr;
            s.cap = new_cap;
        }
        store_u64(&mut heap, s.ptr - base + s.len * 8, x);
        s.len += 1;
    }
    assert_eq!(s.len, 1000);
    assert_eq!(load_u64(&heap, s.ptr - base + 999 * 8), 999);
    let mut sum = 0u64;
    for i in 0..1000 {
        sum += load_u64(&heap, s.ptr - base + i * 8);
    }
    assert_eq!(sum, 999 * 1000 / 2);
}

#[test]
fn boxed_integer_reads_back_its_value() {
    let mut heap = vec![0u8; 4096];
    let mut a = FixedSizeBlockAllocator::new();
    a.init(0, 4096);
    let p = a.allocate(8, 8).unwrap();
    store_u64(&mut heap, p, 42);
    assert_eq!(load_u64(&heap, p), 42);
    a.deallocate(p, 8, 8);
}

#[test]
fn bump_sustains_heap_size_many_short_lived_boxes() {
    let size = HEAP_SIZE as usize;
    let mut heap = vec![0u8; size];
    let mut a = BumpAllocator::new();
    a.init(0, size);
    for i in 0..size {
        let p = a.allocate(8, 8).unwrap();
        store_u64(&mut heap, p, i as u64);
        assert_eq!(load_u64(&heap, p), i as u64);
        // Freeing the only outstanding allocation drains the counter to
        // zero, so the bump pointer resets every iteration.
        a.deallocate(p, 8, 8);
    }
}

#[test]
fn free_list_sustains_heap_size_many_short_lived_boxes() {
    let size = HEAP_SIZE as usize;
    let mut heap = vec![0u8; size];
    let mut a = LinkedListAllocator::new();
    a.init(0, size);
    for i in 0..size {
        let p = a.allocate(8, 8).unwrap();
        store_u64(&mut heap, p, i as u64);
        assert_eq!(load_u64(&heap, p), i as u64);
        a.deallocate(p, 8, 8);
    }
}

#[test]
fn fixed_size_block_sustains_heap_size_many_short_lived_boxes() {
    let size = HEAP_SIZE as usize;
    let mut heap = vec![0u8; size];
    let mut a = FixedSizeBlockAllocator::new();
    a.init(0, size);
    for i in 0..size {
        let p = a.allocate(8, 8).unwrap();
        store_u64(&mut heap, p, i as u64);
        assert_eq!(load_u64(&heap, p), i as u64);
        a.deallocate(p, 8, 8);
    }
}

/// Drives any strategy through the shared capability interface: the three
/// strategies are interchangeable behind it.
fn first_block_roundtrip<A: kernel_heap::strategy::AllocatorStrategy>(a: &mut A, expect: usize) {
    let p = a.allocate(32, 8).unwrap();
    assert_eq!(p, expect);
    assert_eq!(p % 8, 0);
    a.deallocate(p, 32, 8);
}

#[test]
fn strategies_are_interchangeable_behind_one_interface() {
    let mut bump = BumpAllocator::new();
    bump.init(0x8000, 0x1000);
    first_block_roundtrip(&mut bump, 0x8000);

    let mut ll = LinkedListAllocator::new();
    ll.init(0x8000, 0x1000);
    first_block_roundtrip(&mut ll, 0x8000);

    let mut fsb = FixedSizeBlockAllocator::new();
    fsb.init(0x8000, 0x1000);
    first_block_roundtrip(&mut fsb, 0x8000);
}
