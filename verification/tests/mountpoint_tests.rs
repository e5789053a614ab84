use maestro::errno::Errno;
use maestro::file::{DeviceType, FileLocation, FileType};
use maestro::mountpoint::{MountPoints, MountSource, FLAG_RDONLY};

fn loc(inode: u64) -> FileLocation {
    FileLocation { mountpoint_id: 0, inode }
}

#[test]
fn mountpoint_source() {
    let s = MountSource::new(b"/dev/sda1", Ok((FileType::BlockDevice, 8, 1))).unwrap();
    assert!(matches!(s, MountSource::Device { dev_type: DeviceType::Block, major: 8, minor: 1 }));
    let s = MountSource::new(b"/dev/tty", Ok((FileType::CharDevice, 4, 0))).unwrap();
    assert!(matches!(s, MountSource::Device { dev_type: DeviceType::Char, major: 4, minor: 0 }));
    let s = MountSource::new(b"tmpfs", Err(Errno::ENOENT)).unwrap();
    match s {
        MountSource::NoDev(name) => assert_eq!(name, b"tmpfs".to_vec()),
        _ => panic!("not a virtual device"),
    }
    assert!(matches!(MountSource::new(b"/etc/passwd", Ok((FileType::Regular, 0, 0))), Err(Errno::EINVAL)));
    assert!(matches!(MountSource::new(b"/x", Err(Errno::EACCES)), Err(Errno::EACCES)));
    let long = vec![b'a'; 5000];
    assert!(matches!(MountSource::new(&long, Err(Errno::ENOENT)), Err(Errno::ENAMETOOLONG)));
    let a = MountSource::NoDev(b"procfs".to_vec());
    assert!(a.eq(&a.try_clone()));
    assert!(!a.eq(&MountSource::NoDev(b"sysfs".to_vec())));
}

#[test]
fn mountpoint_create_remove() {
    let mut mps = MountPoints::new();
    let tmp = || MountSource::NoDev(b"tmpfs".to_vec());
    let id0 = mps.create(tmp(), 0, b"/".to_vec(), loc(1), Ok((10, b"tmpfs".to_vec()))).unwrap();
    assert_eq!(id0, 0);
    assert_eq!(mps.get_fs(&tmp()), Some(10));
    // The same location cannot be mounted twice
    assert!(matches!(mps.create(tmp(), 0, b"/".to_vec(), loc(1), Ok((11, b"tmpfs".to_vec()))), Err(Errno::EINVAL)));
    // A loaded filesystem is shared: the one given is not used
    let id1 = mps.create(tmp(), FLAG_RDONLY, b"/tmp".to_vec(), loc(2), Ok((12, b"other".to_vec()))).unwrap();
    assert_eq!(id1, 1);
    let m = mps.from_id(1).unwrap();
    assert_eq!(m.get_filesystem(), 10);
    assert!(m.is_readonly());
    assert_eq!(m.get_filesystem_type(), &b"tmpfs".to_vec());
    assert_eq!(mps.from_location(&loc(2)).unwrap().get_id(), 1);
    // A failed load is returned
    let proc = MountSource::NoDev(b"procfs".to_vec());
    assert!(matches!(mps.create(proc, 0, b"/proc".to_vec(), loc(3), Err(Errno::ENODEV)), Err(Errno::ENODEV)));
    assert!(mps.from_location(&loc(3)).is_none());
    // Removing
    mps.remove(&loc(1)).unwrap();
    assert!(mps.from_id(0).is_none());
    assert_eq!(mps.get_fs(&tmp()), Some(10));
    mps.remove(&loc(2)).unwrap();
    assert_eq!(mps.get_fs(&tmp()), None);
    assert!(matches!(mps.remove(&loc(2)), Err(Errno::EINVAL)));
    // IDs follow the greatest one
    let a = mps.create(tmp(), 0, b"/a".to_vec(), loc(4), Ok((20, b"tmpfs".to_vec()))).unwrap();
    assert_eq!(a, 0);
}
