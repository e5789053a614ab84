use maestro::errno::Errno;
use maestro::user::{bound_check, UserMemory};

#[test]
fn user_memory_copies() {
    let mut mem = UserMemory::new(2);
    let mut buf = [7u8; 4];
    // Nothing is mapped yet
    assert_eq!(mem.read(0x10, &mut buf, 4), Err(Errno::EFAULT));
    assert_eq!(buf, [7u8; 4]);
    mem.map_page(0);
    assert_eq!(mem.write(0x10, b"abcd", 4), Ok(()));
    assert_eq!(mem.read(0x10, &mut buf, 3), Ok(()));
    assert_eq!(buf, [b'a', b'b', b'c', 7]);
    // A copy crossing into an unmapped page stops at the fault
    assert_eq!(mem.write(4094, b"xyz", 3), Err(Errno::EFAULT));
    let mut edge = [0u8; 3];
    assert_eq!(mem.read(4094, &mut edge, 3), Err(Errno::EFAULT));
    assert_eq!(edge, [b'x', b'y', 0]);
    assert!(bound_check(0x1000, 0x10));
    assert!(!bound_check(0x800000000000, 1));
    assert!(!bound_check(u64::MAX, 2));
}
