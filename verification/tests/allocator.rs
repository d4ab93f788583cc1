use gstshm2::align::align_up;
use gstshm2::allocator::FreeListAllocator;

#[test]
fn alloc_and_free_coalesces() {
    let mut a = FreeListAllocator::new(1024);
    let b1 = a.allocate(128, 64).unwrap();
    let b2 = a.allocate(128, 64).unwrap();
    assert!(a.free_by_id(b1.buffer_id));
    assert!(a.free_by_id(b2.buffer_id));
    assert_eq!(a.used_bytes(), 0);
    let b3 = a.allocate(1024, 1).unwrap();
    assert_eq!(b3.offset, 0);
    assert_eq!(b3.len, 1024);
}

#[test]
fn blocks_are_numbered_and_placed_first_fit() {
    let mut a = FreeListAllocator::new(1024);
    let b1 = a.allocate(100, 64).unwrap();
    let b2 = a.allocate(100, 64).unwrap();
    assert_eq!((b1.buffer_id, b1.offset, b1.len), (1, 0, 100));
    assert_eq!((b2.buffer_id, b2.offset, b2.len), (2, 128, 100));
    // The gap between the two blocks serves the next small request.
    let b3 = a.allocate(28, 4).unwrap();
    assert_eq!((b3.buffer_id, b3.offset, b3.len), (3, 100, 28));
    assert_eq!(a.used_bytes(), 228);
    assert_eq!(a.total(), 1024);
}

#[test]
fn a_request_beyond_the_room_is_refused() {
    let mut a = FreeListAllocator::new(256);
    assert!(a.allocate(257, 1).is_none());
    let b = a.allocate(200, 1).unwrap();
    assert!(a.allocate(57, 1).is_none());
    assert!(a.allocate(1, 4096).is_none());
    assert_eq!(a.allocate(56, 1).unwrap().offset, 200);
    assert!(a.free_by_id(b.buffer_id));
    assert_eq!(a.allocate(200, 0).unwrap().offset, 0);
}

#[test]
fn a_block_is_freed_once() {
    let mut a = FreeListAllocator::new(64);
    let b = a.allocate(64, 64).unwrap();
    assert!(a.free_by_id(b.buffer_id));
    assert!(!a.free_by_id(b.buffer_id));
    assert!(!a.free_by_id(77));
    assert_eq!(a.used_bytes(), 0);
}

#[test]
fn blocks_freed_out_of_order_leave_one_whole_arena() {
    let mut a = FreeListAllocator::new(1024);
    let ids: Vec<u32> = (0..8).map(|_| a.allocate(128, 1).unwrap().buffer_id).collect();
    assert!(a.allocate(1, 1).is_none());
    for i in [3, 0, 7, 1, 5, 2, 6, 4] {
        assert!(a.free_by_id(ids[i]));
    }
    assert_eq!(a.allocate(1024, 1).unwrap().offset, 0);
}

#[test]
fn a_reset_forgets_blocks_and_keeps_counting() {
    let mut a = FreeListAllocator::new(128);
    let b = a.allocate(128, 1).unwrap();
    a.reset();
    assert_eq!(a.used_bytes(), 0);
    let c = a.allocate(128, 1).unwrap();
    assert_eq!(c.offset, 0);
    assert_ne!(c.buffer_id, b.buffer_id);
    assert!(!a.free_by_id(b.buffer_id));
    assert!(a.free_by_id(c.buffer_id));
}

#[test]
fn aligning_goes_up_to_the_next_multiple() {
    assert_eq!(align_up(0, 64), Some(0));
    assert_eq!(align_up(1, 64), Some(64));
    assert_eq!(align_up(64, 64), Some(64));
    assert_eq!(align_up(65, 64), Some(128));
    assert_eq!(align_up(7, 1), Some(7));
    assert_eq!(align_up(7, 0), Some(7));
    assert_eq!(align_up(10, 3), Some(12));
    assert_eq!(align_up(u64::MAX, 2), None);
}
