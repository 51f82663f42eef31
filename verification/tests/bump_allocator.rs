use kernel_heap::bump::BumpAllocator;
use kernel_heap::errors::AllocError;
use kernel_heap::locked::Locked;

#[test]
fn bump_first_alloc_returns_heap_start() {
    let mut a = BumpAllocator::new();
    a.init(0x8000, 0x1000);
    let p = a.allocate(100, 8).unwrap();
    assert_eq!(p, 0x8000);
    assert_eq!(p % 8, 0);
}

#[test]
fn bump_first_alloc_aligns_unaligned_start() {
    let mut a = BumpAllocator::new();
    a.init(0x8004, 0x1000);
    let p = a.allocate(16, 8).unwrap();
    assert_eq!(p, 0x8008);
}

#[test]
fn bump_drain_resets_to_heap_start() {
    let mut a = BumpAllocator::new();
    a.init(0x8000, 0x1000);
    let p1 = a.allocate(100, 8).unwrap();
    let p2 = a.allocate(200, 16).unwrap();
    let p3 = a.allocate(50, 1).unwrap();
    assert!(p1 < p2 && p2 < p3);
    a.deallocate(p2, 200, 16);
    a.deallocate(p1, 100, 8);
    // Still one allocation outstanding: no reset yet.
    let p4 = a.allocate(8, 8).unwrap();
    assert!(p4 > p3);
    a.deallocate(p3, 50, 1);
    a.deallocate(p4, 8, 8);
    // All outstanding allocations freed: the region is reused from its
    // start.
    let p5 = a.allocate(100, 8).unwrap();
    assert_eq!(p5, 0x8000);
}

#[test]
fn bump_exhaustion_yields_out_of_memory() {
    let mut a = BumpAllocator::new();
    a.init(0x8000, 4096);
    let mut successes = 0;
    loop {
        match a.allocate(512, 8) {
            Ok(p) => {
                assert!(p >= 0x8000 && p + 512 <= 0x8000 + 4096);
                successes += 1;
                assert!(successes <= 8);
            }
            Err(e) => {
                assert_eq!(e, AllocError::OutOfMemory);
                break;
            }
        }
    }
    assert_eq!(successes, 8);
}

#[test]
fn bump_through_locking_wrapper() {
    let mut locked = Locked::new(BumpAllocator::new());
    locked.lock().init(0x8000, 0x1000);
    let p = locked.lock().allocate(64, 8).unwrap();
    assert_eq!(p, 0x8000);
    locked.lock().deallocate(p, 64, 8);
    let q = locked.lock().allocate(64, 8).unwrap();
    assert_eq!(q, 0x8000);
}
