use kernel_heap::align::align_up;
use kernel_heap::errors::HeapInitError;
use kernel_heap::heap::{frame_choice, heap_page_range, page_range_inclusive, HEAP_SIZE, HEAP_START, PAGE_SIZE};
use kernel_heap::qemu::QemuExitCode;

#[test]
fn align_up_exact_values() {
    assert_eq!(align_up(0, 1), 0);
    assert_eq!(align_up(5, 1), 5);
    assert_eq!(align_up(5, 8), 8);
    assert_eq!(align_up(8, 8), 8);
    assert_eq!(align_up(9, 8), 16);
    assert_eq!(align_up(0x1001, 0x1000), 0x2000);
    assert_eq!(align_up(0, 4096), 0);
}

#[test]
fn align_up_result_is_aligned_and_minimal() {
    for &align in &[1usize, 2, 4, 8, 16, 64, 4096] {
        for addr in 0usize..200 {
            let r = align_up(addr, align);
            assert_eq!(r % align, 0);
            assert!(r >= addr);
            assert!(r - addr < align);
        }
    }
}

#[test]
fn heap_constants_exact() {
    assert_eq!(HEAP_START, 0x4444_4444_0000);
    assert_eq!(HEAP_SIZE, 100 * 1024);
    assert_eq!(PAGE_SIZE, 4096);
}

#[test]
fn heap_page_range_exact() {
    let (first, last) = heap_page_range();
    assert_eq!(first, 0x4444_4444_0000 / 4096);
    assert_eq!(last, (0x4444_4444_0000u64 + 100 * 1024 - 1) / 4096);
    // 100 KiB starting on a page boundary covers exactly 25 pages.
    assert_eq!(last - first + 1, 25);
}

#[test]
fn page_range_straddles_boundary() {
    assert_eq!(page_range_inclusive(4095, 2), (0, 1));
    assert_eq!(page_range_inclusive(0, 1), (0, 0));
    assert_eq!(page_range_inclusive(4096, 4096), (1, 1));
}

#[test]
fn frame_choice_maps_exhaustion_to_error() {
    assert_eq!(frame_choice(Some(7)), Ok(7));
    assert_eq!(frame_choice(None), Err(HeapInitError::FrameAllocationFailed));
}

#[test]
fn qemu_exit_codes() {
    assert_eq!(QemuExitCode::Success.code(), 0x10);
    assert_eq!(QemuExitCode::Fail.code(), 0x11);
}
