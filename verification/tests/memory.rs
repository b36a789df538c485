use odeza::memory::{FrameAllocator, MemoryStats};

#[test]
fn test_memory_stats() {
    let mut stats = MemoryStats::new();

    stats.record_alloc(100);
    stats.record_alloc(200);

    assert_eq!(stats.current(), 300);
    assert_eq!(stats.peak_usage(), 300);
    assert_eq!(stats.count(), 2);

    stats.record_dealloc(100);

    assert_eq!(stats.current(), 200);
    assert_eq!(stats.peak_usage(), 300); // Peak unchanged
}

#[test]
fn test_frame_allocator() {
    let mut allocator = FrameAllocator::new(1024);

    let ptr1 = allocator.allocate(100, 8);
    assert!(ptr1.is_some());

    let ptr2 = allocator.allocate(200, 16);
    assert!(ptr2.is_some());

    assert!(allocator.used() >= 300);

    allocator.reset();
    assert_eq!(allocator.used(), 0);
}

#[test]
fn test_frame_allocator_overflow() {
    let mut allocator = FrameAllocator::new(100);

    let ptr1 = allocator.allocate(50, 8);
    assert!(ptr1.is_some());

    // This should fail - not enough space
    let ptr2 = allocator.allocate(100, 8);
    assert!(ptr2.is_none());
}

#[test]
fn stats_wrap_and_reset() {
    let mut stats = MemoryStats::default();
    assert_eq!((stats.current(), stats.peak_usage(), stats.count()), (0, 0, 0));
    stats.record_alloc(10);
    stats.record_dealloc(25);
    // Freeing more than is allocated wraps around.
    assert_eq!(stats.current(), usize::MAX - 14);
    assert_eq!(stats.peak_usage(), 10);
    assert_eq!(stats.count(), 1);
    stats.reset();
    assert_eq!((stats.current(), stats.peak_usage(), stats.count()), (0, 0, 0));
    stats.record_alloc(5);
    stats.record_dealloc(5);
    stats.record_alloc(3);
    assert_eq!((stats.current(), stats.peak_usage(), stats.count()), (3, 5, 2));
}

#[test]
fn frame_allocator_aligns_and_accounts() {
    let mut a = FrameAllocator::new(64);
    assert_eq!(a.capacity(), 64);
    assert_eq!(a.remaining(), 64);
    assert_eq!(a.allocate(3, 1), Some(0));
    assert_eq!(a.used(), 3);
    // The next multiple of 8 at or above 3 is 8.
    assert_eq!(a.allocate(4, 8), Some(8));
    assert_eq!(a.used(), 12);
    assert_eq!(a.remaining(), 52);
    // An alignment of zero counts as one.
    assert_eq!(a.allocate(1, 0), Some(12));
    // Already aligned: no padding.
    assert_eq!(a.allocate(3, 13), Some(13));
    assert_eq!(a.allocate(0, 16), Some(16));
    assert_eq!(a.used(), 16);
    // Exactly to the end fits, one byte more does not.
    assert_eq!(a.allocate(49, 1), None);
    assert_eq!(a.used(), 16);
    assert_eq!(a.allocate(48, 1), Some(16));
    assert_eq!(a.remaining(), 0);
    assert_eq!(a.allocate(1, 1), None);
    assert_eq!(a.allocate(0, 128), None);
    assert_eq!(a.stats().current(), 3 + 4 + 1 + 3 + 48);
    assert_eq!(a.stats().count(), 6);
    a.reset();
    assert_eq!(a.used(), 0);
    assert_eq!(a.capacity(), 64);
    assert_eq!(a.stats().current(), 0);
    assert_eq!(a.stats().count(), 0);
    assert_eq!(a.allocate(usize::MAX, 2), None);
    assert_eq!(a.allocate(1, usize::MAX), Some(0));
    assert_eq!(a.allocate(1, usize::MAX), None);
}
