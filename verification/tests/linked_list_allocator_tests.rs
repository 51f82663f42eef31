use kernel_heap::errors::AllocError;
use kernel_heap::linked_list::LinkedListAllocator;

#[test]
fn ll_first_alloc_returns_heap_start() {
    let mut a = LinkedListAllocator::new();
    a.init(0x8000, 0x1000);
    let p = a.allocate(100, 8).unwrap();
    assert_eq!(p, 0x8000);
    assert_eq!(p % 8, 0);
}

#[test]
fn ll_alloc_free_realloc_reuses_address() {
    let mut a = LinkedListAllocator::new();
    a.init(0x8000, 0x1000);
    let p1 = a.allocate(64, 8).unwrap();
    a.deallocate(p1, 64, 8);
    let p2 = a.allocate(64, 8).unwrap();
    assert_eq!(p2, p1);
}

#[test]
fn ll_small_requests_round_to_node_footprint() {
    let mut a = LinkedListAllocator::new();
    a.init(0, 4096);
    let p1 = a.allocate(1, 1).unwrap();
    let p2 = a.allocate(1, 1).unwrap();
    assert_eq!(p1, 0);
    // Each one-byte request occupies a full node footprint.
    assert_eq!(p2, 16);
}

#[test]
fn ll_freeing_first_block_leaves_neighbor_intact() {
    // Two adjacent blocks; the first is freed; a later allocation
    // elsewhere must not touch the second block's contents.
    let mut heap = vec![0u8; 4096];
    let mut a = LinkedListAllocator::new();
    a.init(0, 4096);
    let p1 = a.allocate(64, 8).unwrap();
    let p2 = a.allocate(64, 8).unwrap();
    assert_eq!(p2, p1 + 64);
    for i in 0..64 {
        heap[p2 + i] = (i as u8) ^ 0x5a;
    }
    a.deallocate(p1, 64, 8);
    let p3 = a.allocate(128, 8).unwrap();
    // The freed 64-byte region cannot host 128 bytes: the allocation
    // lands elsewhere and overlaps neither live block.
    assert!(p3 + 128 <= p2 || p2 + 64 <= p3);
    for i in 0..128 {
        heap[p3 + i] = 0xff;
    }
    for i in 0..64 {
        assert_eq!(heap[p2 + i], (i as u8) ^ 0x5a);
    }
}

#[test]
fn ll_exhaustion_yields_out_of_memory() {
    let mut a = LinkedListAllocator::new();
    a.init(0, 4096);
    let mut successes = 0;
    loop {
        match a.allocate(512, 8) {
            Ok(p) => {
                assert!(p + 512 <= 4096);
                successes += 1;
                assert!(successes <= 8);
            }
            Err(e) => {
                assert_eq!(e, AllocError::OutOfMemory);
                break;
            }
        }
    }
    assert_eq!(successes, 8);
}

#[test]
fn ll_oversized_request_fails() {
    let mut a = LinkedListAllocator::new();
    a.init(0, 4096);
    assert_eq!(a.allocate(8192, 8), Err(AllocError::OutOfMemory));
    // The failed request leaves the heap usable.
    assert_eq!(a.allocate(64, 8), Ok(0));
}

#[test]
fn ll_unaligned_region_start_is_rounded() {
    let mut a = LinkedListAllocator::new();
    // Region starts at a node-aligned but not page-aligned address.
    a.init(0x1008, 0x100);
    let p = a.allocate(32, 64).unwrap();
    assert_eq!(p % 64, 0);
    assert_eq!(p, 0x1040);
}
