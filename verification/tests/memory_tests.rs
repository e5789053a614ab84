use maestro::buddy::{
    get_frame_size, get_order, BuddyAllocator, FLAG_ZONE_TYPE_KERNEL, FLAG_ZONE_TYPE_MMIO,
    FLAG_ZONE_TYPE_USER, MAX_ORDER,
};
use maestro::flock::{Flock, FlockMode};
use maestro::errno::Errno;
use maestro::memory::{PhysAddr, VirtAddr, KERNEL_BEGIN, PAGE_SIZE};
use maestro::ring_buffer::RingBuffer;

fn small_allocator() -> BuddyAllocator {
    BuddyAllocator::new([
        (PhysAddr(0x100000), 64),
        (PhysAddr(0x1000000), 16),
        (PhysAddr(0x2000000), 256),
    ])
}

#[test]
fn ring_buffer_read() {
    let mut rb = RingBuffer::new(10);
    let mut buf: [u8; 0] = [0; 0];
    assert_eq!(rb.read(&mut buf), 0);
    let mut buf: [u8; 10] = [0; 10];
    assert_eq!(rb.read(&mut buf), 0);
}

#[test]
fn ring_buffer_write() {
    let mut rb = RingBuffer::new(10);
    let mut buf: [u8; 10] = [42; 10];
    let len = rb.write(&buf);
    assert_eq!(len, 9);
    assert_eq!(rb.get_data_len(), 9);
    assert_eq!(rb.get_available_len(), 0);
    buf.fill(0);
    let len = rb.read(&mut buf);
    assert_eq!(len, 9);
    assert_eq!(rb.get_data_len(), 0);
    assert_eq!(rb.get_available_len(), 9);
    for b in buf.iter().take(9) {
        assert_eq!(*b, 42);
    }
}

#[test]
fn ring_buffer_fifo_wraps() {
    let mut rb = RingBuffer::new(8);
    assert!(rb.is_empty());
    assert_eq!(rb.write(&[1, 2, 3, 4, 5]), 5);
    let mut out = [0u8; 3];
    assert_eq!(rb.read(&mut out), 3);
    assert_eq!(out, [1, 2, 3]);
    assert_eq!(rb.write(&[6, 7, 8, 9, 10, 11]), 5);
    assert!(rb.is_full());
    let mut peeked = [0u8; 2];
    assert_eq!(rb.peek(&mut peeked), 2);
    assert_eq!(peeked, [4, 5]);
    let mut all = [0u8; 10];
    assert_eq!(rb.read(&mut all), 7);
    assert_eq!(&all[..7], &[4, 5, 6, 7, 8, 9, 10]);
    assert_eq!(rb.capacity(), 8);
    rb.write(&[1]);
    rb.clear();
    assert!(rb.is_empty());
}

#[test]
fn buddy_order() {
    assert_eq!(get_order(1), 0);
    assert_eq!(get_order(2), 1);
    assert_eq!(get_order(3), 2);
    assert_eq!(get_order(4), 2);
    assert_eq!(get_order(5), 3);
    assert_eq!(get_frame_size(0), 4096);
    assert_eq!(get_frame_size(3), 8 * 4096);
}

#[test]
fn buddy0() {
    let mut a = small_allocator();
    let pages = a.allocated_pages_count();
    let p = a.alloc_frame(0, FLAG_ZONE_TYPE_KERNEL).unwrap();
    assert_eq!(p, PhysAddr(0x2000000));
    assert_eq!(a.allocated_pages_count(), pages + 1);
    a.free(p, 0);
    assert_eq!(a.allocated_pages_count(), pages);
}

#[test]
fn buddy1() {
    let mut a = small_allocator();
    let pages = a.allocated_pages_count();
    let p = a.alloc_frame(1, FLAG_ZONE_TYPE_KERNEL).unwrap();
    assert_eq!(a.allocated_pages_count(), pages + 2);
    a.free(p, 1);
    assert_eq!(a.allocated_pages_count(), pages);
}

fn lifo_test(a: &mut BuddyAllocator, i: usize) {
    let p = a.alloc_frame(0, FLAG_ZONE_TYPE_KERNEL).unwrap();
    if i > 0 {
        lifo_test(a, i - 1);
    }
    a.free(p, 0);
}

#[test]
fn buddy_lifo() {
    let mut a = small_allocator();
    let pages = a.allocated_pages_count();
    lifo_test(&mut a, 100);
    assert_eq!(a.allocated_pages_count(), pages);
}

#[test]
fn buddy_fifo() {
    let mut a = small_allocator();
    let pages = a.allocated_pages_count();
    let mut frames = Vec::new();
    for _ in 0..100 {
        frames.push(a.alloc_frame(0, FLAG_ZONE_TYPE_KERNEL).unwrap());
    }
    for i in 0..frames.len() {
        for j in (i + 1)..frames.len() {
            assert_ne!(frames[i], frames[j]);
        }
    }
    for f in frames {
        a.free(f, 0);
    }
    assert_eq!(a.allocated_pages_count(), pages);
}

#[test]
fn buddy_free() {
    let mut a = small_allocator();
    let first = a.alloc_frame(0, FLAG_ZONE_TYPE_KERNEL).unwrap();
    a.free(first, 0);
    for _ in 0..100 {
        let p = a.alloc_frame(0, FLAG_ZONE_TYPE_KERNEL).unwrap();
        assert_eq!(p, first);
        a.free(p, 0);
    }
    assert_eq!(a.allocated_pages_count(), 0);
}

#[test]
fn buddy_full_duplicate() {
    let mut a = small_allocator();
    let mut frames = Vec::new();
    while let Ok(p) = a.alloc_frame(0, FLAG_ZONE_TYPE_KERNEL) {
        frames.push(p);
    }
    assert_eq!(frames.len(), 256);
    let mut sorted = frames.clone();
    sorted.sort_by_key(|p| p.0);
    sorted.dedup();
    assert_eq!(sorted.len(), frames.len());
    for f in frames {
        a.free(f, 0);
    }
    assert_eq!(a.allocated_pages_count(), 0);
}

#[test]
fn buddy_zone_fallback() {
    let mut a = small_allocator();
    // The user zone is tried first; a frame larger than it falls back to the next zones.
    let p = a.alloc_frame(7, FLAG_ZONE_TYPE_USER).unwrap();
    assert_eq!(p, PhysAddr(0x2000000));
    let q = a.alloc_frame(4, FLAG_ZONE_TYPE_MMIO).unwrap();
    assert_eq!(q, PhysAddr(0x1000000));
    assert!(a.alloc_frame(MAX_ORDER + 1, FLAG_ZONE_TYPE_USER).is_err());
    assert_eq!(a.get_zone_for_addr(PhysAddr(0x100000)), Some(0));
    assert_eq!(a.get_zone_for_addr(PhysAddr(0x1000000 + 4096 * 15)), Some(1));
    assert_eq!(a.get_zone_for_addr(PhysAddr(0)), None);
}

#[test]
fn addresses() {
    assert_eq!(PhysAddr(0x1000).kernel_to_virtual(), Some(VirtAddr(KERNEL_BEGIN + 0x1000)));
    assert_eq!(VirtAddr(KERNEL_BEGIN + 0x2000).kernel_to_physical(), Some(PhysAddr(0x2000)));
    assert_eq!(VirtAddr(0x2000).kernel_to_physical(), None);
    assert!(PhysAddr(0).is_null());
    assert!(PhysAddr(0x3000).is_aligned_to(PAGE_SIZE as u64));
    assert_eq!(PhysAddr(0x3001).align_to(PAGE_SIZE as u64), PhysAddr(0x4000));
    assert_eq!(PhysAddr(0x3fff).down_align_to(PAGE_SIZE as u64), PhysAddr(0x3000));
    assert_eq!(VirtAddr(0x10).add_offset(0x20), VirtAddr(0x30));
    assert_eq!(VirtAddr(0x30).sub_offset(0x20), VirtAddr(0x10));
}

#[test]
fn flock_shared_then_exclusive() {
    let mut lock = Flock::default();
    assert_eq!(lock.try_acquire(false), Ok(true));
    assert_eq!(lock.try_acquire(false), Ok(true));
    assert_eq!(lock.try_acquire(true), Ok(false));
    assert_eq!(lock.acquire(true, true), Err(Errno::EWOULDBLOCK));
    assert!(lock.release(FlockMode::Shared));
    assert!(lock.release(FlockMode::Shared));
    assert_eq!(lock.try_acquire(true), Ok(true));
    assert_eq!(lock.try_acquire(false), Ok(false));
    assert!(lock.release(FlockMode::Exclusive));
    assert!(!lock.release(FlockMode::Unlocked));
    assert_eq!(lock.acquire(false, false), Ok(true));
    assert_eq!(FlockMode::default(), FlockMode::Unlocked);
}
