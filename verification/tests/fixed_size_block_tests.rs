use kernel_heap::errors::AllocError;
use kernel_heap::fixed_size_block::FixedSizeBlockAllocator;

#[test]
fn fsb_class_selection_is_order_independent() {
    // The class is a pure function of the request: equal smallest
    // covering classes mean equal class assignment.
    assert_eq!(FixedSizeBlockAllocator::class_of(12, 8), Some(1));
    assert_eq!(FixedSizeBlockAllocator::class_of(9, 2), Some(1));
    assert_eq!(FixedSizeBlockAllocator::class_of(1, 1), Some(0));
    assert_eq!(FixedSizeBlockAllocator::class_of(8, 8), Some(0));
    assert_eq!(FixedSizeBlockAllocator::class_of(1, 16), Some(1));
    assert_eq!(FixedSizeBlockAllocator::class_of(2048, 1), Some(8));
    assert_eq!(FixedSizeBlockAllocator::class_of(2049, 1), None);
    assert_eq!(FixedSizeBlockAllocator::class_of(100, 128), Some(4));
}

#[test]
fn fsb_block_sizes_exact() {
    let expected = [8usize, 16, 32, 64, 128, 256, 512, 1024, 2048];
    for (c, want) in expected.iter().enumerate() {
        assert_eq!(FixedSizeBlockAllocator::block_size(c), *want);
    }
}

#[test]
fn fsb_first_alloc_returns_heap_start() {
    let mut a = FixedSizeBlockAllocator::new();
    a.init(0x8000, 0x1000);
    let p = a.allocate(8, 8).unwrap();
    assert_eq!(p, 0x8000);
}

#[test]
fn fsb_same_class_requests_share_freed_blocks() {
    let mut a = FixedSizeBlockAllocator::new();
    a.init(0x8000, 0x1000);
    // Both requests fall in the 16-byte class.
    let p1 = a.allocate(12, 8).unwrap();
    a.deallocate(p1, 12, 8);
    // A different layout of the same class reuses the same block, O(1),
    // without another fallback carve.
    let p2 = a.allocate(9, 2).unwrap();
    assert_eq!(p2, p1);
    a.deallocate(p2, 9, 2);
    let p3 = a.allocate(16, 16).unwrap();
    assert_eq!(p3, p1);
}

#[test]
fn fsb_oversized_request_delegates_to_fallback() {
    let mut a = FixedSizeBlockAllocator::new();
    a.init(0x8000, 0x4000);
    // 3000 bytes exceed the largest class.
    let p = a.allocate(3000, 8).unwrap();
    assert_eq!(p, 0x8000);
    a.deallocate(p, 3000, 8);
    let q = a.allocate(3000, 8).unwrap();
    assert_eq!(q, p);
}

#[test]
fn fsb_exhaustion_yields_out_of_memory() {
    let mut a = FixedSizeBlockAllocator::new();
    a.init(0, 4096);
    let mut successes = 0;
    loop {
        match a.allocate(1024, 1) {
            Ok(p) => {
                assert!(p + 1024 <= 4096);
                successes += 1;
                assert!(successes <= 4);
            }
            Err(e) => {
                assert_eq!(e, AllocError::OutOfMemory);
                break;
            }
        }
    }
    assert_eq!(successes, 4);
}
