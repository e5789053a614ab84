use maestro::procfs::ProcFsType;
use maestro::sysfs::{SysFS, SysFsType};
use maestro::tmpfs::TmpFsType;
use maestro::errno::Errno;
use maestro::file::{DeviceType, FileLocation, FileType, Stat, DT_DIR, DT_LNK, S_IFCHR, S_IFDIR, S_IFREG};
use maestro::idt::{
    build_idt, interrupt_plan, CallbackList, InterruptDescriptor, ENTRIES_COUNT, SYSCALL_ENTRY,
};
use maestro::multiboot::{read, MemoryRegionKind, MmapEntry};
use maestro::net::{Address, BindAddress, SocketDomain, SocketType};
use maestro::perm::{
    can_kill, can_read_file, can_search_directory, can_write_directory, is_privileged,
    AccessProfile, ProcessFs,
};
use maestro::poll::FDSet;
use maestro::relocation::{perform, Rela, RelocationError, R_X86_64_64, R_X86_64_RELATIVE};
use maestro::route::{get_route_for, Route};

fn stat(mode: u32, uid: u16, gid: u16) -> Stat {
    let mut st = Stat::default();
    st.mode = mode;
    st.uid = uid;
    st.gid = gid;
    st
}

#[test]
fn file_type_modes() {
    assert_eq!(FileType::from_mode(S_IFDIR | 0o755), Some(FileType::Directory));
    assert_eq!(FileType::from_mode(0o644), Some(FileType::Regular));
    assert_eq!(FileType::from_mode(0o170000), None);
    assert_eq!(FileType::Directory.to_mode(), S_IFDIR);
    assert_eq!(FileType::Directory.to_dirent_type(), DT_DIR);
    assert_eq!(FileType::Link.to_dirent_type(), DT_LNK);
    assert_eq!(FileType::CharDevice.to_device_type(), Some(DeviceType::Char));
    assert_eq!(FileType::Regular.to_device_type(), None);
    assert_eq!(stat(S_IFCHR | 0o600, 0, 0).get_type(), Some(FileType::CharDevice));
    let loc = FileLocation::nowhere();
    assert_eq!((loc.mountpoint_id, loc.inode), (0, 0));
}

#[test]
fn stat_set_owner() {
    let mut st = stat(S_IFREG | 0o6755, 1, 1);
    st.set_uid(5, Some(77));
    assert_eq!(st.uid, 5);
    assert_eq!(st.ctime, 77);
    st.set_gid(6, None);
    assert_eq!(st.gid, 6);
}

#[test]
fn permissions() {
    let user = ProcessFs { ap: AccessProfile::new(1000, 1000), groups: vec![20] };
    let root = ProcessFs { ap: AccessProfile::new(0, 0), groups: vec![] };
    assert!(is_privileged(None));
    assert!(is_privileged(Some(&root)));
    assert!(!is_privileged(Some(&user)));
    let private = stat(S_IFREG | 0o600, 0, 0);
    assert!(!can_read_file(Some(&user), &private, true));
    assert!(can_read_file(Some(&root), &private, true));
    let group_readable = stat(S_IFREG | 0o640, 0, 20);
    assert!(can_read_file(Some(&user), &group_readable, true));
    let dir = stat(S_IFDIR | 0o755, 0, 0);
    assert!(can_search_directory(Some(&user), &dir));
    assert!(!can_write_directory(Some(&user), &dir));
    assert!(can_write_directory(Some(&root), &dir));
    let other = ProcessFs { ap: AccessProfile::new(1001, 1001), groups: vec![] };
    assert!(!can_kill(Some(&user), &other));
    assert!(can_kill(Some(&root), &other));
}

#[test]
fn access_profile_setuid() {
    let mut ap = AccessProfile::new(1000, 1000);
    assert_eq!(ap.set_uid(0), Err(Errno::EPERM));
    assert_eq!(ap.set_uid(1000), Ok(()));
    let mut root = AccessProfile::new(0, 0);
    assert_eq!(root.set_uid(42), Ok(()));
    assert_eq!(root.set_gid(42), Ok(()));
    assert_eq!(ap.set_gid(0), Err(Errno::EPERM));
}

#[test]
fn socket_ids() {
    assert_eq!(SocketDomain::try_from_id(2), Ok(SocketDomain::AfInet));
    assert_eq!(SocketDomain::try_from_id(3), Err(Errno::EAFNOSUPPORT));
    assert_eq!(SocketDomain::AfInet6.get_id(), 10);
    assert_eq!(SocketDomain::AfInet.get_sockaddr_len(), 16);
    assert_eq!(SocketDomain::AfInet6.get_sockaddr_len(), 28);
    assert!(SocketType::try_from_id(1).unwrap().is_stream());
    assert_eq!(SocketType::try_from_id(99).unwrap_err(), Errno::EPROTONOSUPPORT);
    let user = AccessProfile::new(1000, 1000);
    assert!(user.can_use_sock_domain(&SocketDomain::AfInet));
    assert!(!user.can_use_sock_domain(&SocketDomain::AfPacket));
}

#[test]
fn bind_address_subnet() {
    let net = BindAddress { addr: Address::IPv4([192, 168, 1, 0]), subnet_mask: 24 };
    assert!(net.is_matching(&Address::IPv4([192, 168, 1, 42])));
    assert!(!net.is_matching(&Address::IPv4([192, 168, 2, 42])));
    assert!(!net.is_matching(&Address::IPv6([0; 16])));
    let any = BindAddress { addr: Address::IPv4([0, 0, 0, 0]), subnet_mask: 0 };
    assert!(any.is_matching(&Address::IPv4([8, 8, 8, 8])));
}

#[test]
fn routing_prefers_lowest_metric() {
    let routes = vec![
        Route { dst: None, iface: b"eth0".to_vec(), gateway: Address::IPv4([10, 0, 0, 1]), metric: 100 },
        Route {
            dst: Some(BindAddress { addr: Address::IPv4([192, 168, 1, 0]), subnet_mask: 24 }),
            iface: b"eth1".to_vec(),
            gateway: Address::IPv4([192, 168, 1, 1]),
            metric: 10,
        },
    ];
    assert_eq!(get_route_for(&routes, &Address::IPv4([192, 168, 1, 5])), Some(1));
    assert_eq!(get_route_for(&routes, &Address::IPv4([8, 8, 8, 8])), Some(0));
    assert_eq!(get_route_for(&Vec::new(), &Address::IPv4([8, 8, 8, 8])), None);
}

#[test]
fn fd_set_bits() {
    let mut set = FDSet::new();
    assert!(!set.is_set(5));
    set.set(5, true);
    set.set(1000, true);
    assert!(set.is_set(5));
    assert!(set.is_set(1000));
    assert!(!set.is_set(6));
    set.set(5, false);
    assert!(!set.is_set(5));
}

#[test]
fn idt_table() {
    let errors: [u32; 32] = core::array::from_fn(|i| 0x10000 + i as u32);
    let irqs: [u32; 16] = core::array::from_fn(|i| 0x20000 + i as u32);
    let entries = build_idt(&errors, &irqs, 0x12345678);
    assert_eq!(entries.len(), ENTRIES_COUNT);
    assert_eq!(entries[3].offset, 3);
    assert_eq!(entries[3].offset_2, 1);
    assert_eq!(entries[3].flags, 0x8e);
    assert_eq!(entries[0x21].offset, 1);
    assert_eq!(entries[0x21].offset_2, 2);
    assert_eq!(entries[0x50].flags, 0);
    assert_eq!(entries[SYSCALL_ENTRY].offset, 0x5678);
    assert_eq!(entries[SYSCALL_ENTRY].offset_2, 0x1234);
    assert_eq!(entries[SYSCALL_ENTRY].flags, 0xee);
    let d = InterruptDescriptor::new(0xdeadbeef, 8, 0x8e);
    assert_eq!((d.offset, d.offset_2, d.selector, d.zero), (0xbeef, 0xdead, 8, 0));
}

#[test]
fn callbacks() {
    let mut list: CallbackList<u32> = CallbackList::new();
    let h = list.register_callback(5, 55, 0).unwrap();
    assert_eq!(h.id(), 5);
    assert_eq!(list.get(5), Some(&55));
    h.unregister(&mut list);
    assert_eq!(list.get(5), None);
    let h = list.alloc_callback(7, 1).unwrap();
    assert!(h.id() >= 32);
    assert_eq!(list.get(h.id()), Some(&7));
    let plan = interrupt_plan(0x21, 0, 0x1b);
    assert_eq!(plan.ring, 3);
    assert_eq!(plan.end_of_interrupt, Some(1));
    assert!(plan.feed_entropy);
    let pf = interrupt_plan(0xe, 2, 0x8);
    assert!(!pf.feed_entropy);
    assert_eq!(pf.end_of_interrupt, None);
}

fn tag(t: u32, payload: &[u8]) -> Vec<u8> {
    let size = 8 + payload.len() as u32;
    let mut v = Vec::new();
    v.extend_from_slice(&t.to_le_bytes());
    v.extend_from_slice(&size.to_le_bytes());
    v.extend_from_slice(payload);
    while v.len() % 8 != 0 {
        v.push(0);
    }
    v
}

#[test]
fn multiboot_tags() {
    let mut b = vec![0u8; 8];
    b.extend(tag(1, b"quiet\0"));
    b.extend(tag(2, b"GRUB\0"));
    let mut meminfo = Vec::new();
    meminfo.extend_from_slice(&640u32.to_le_bytes());
    meminfo.extend_from_slice(&65536u32.to_le_bytes());
    b.extend(tag(4, &meminfo));
    b.extend(tag(0, &[]));
    let info = read(&b).unwrap();
    assert_eq!(info.cmdline, Some(b"quiet".to_vec()));
    assert_eq!(info.loader_name, Some(b"GRUB".to_vec()));
    assert_eq!(info.mem_upper, 65536);
    assert_eq!(info.tags_end, b.len());
    // A truncated tag list is refused
    assert!(read(&b[..20]).is_none());
}

#[test]
fn mmap_entry_kinds() {
    let e = MmapEntry { addr: 0x1000, len: 0x2000, type_: 1, zero: 0 };
    assert!(e.is_valid());
    assert_eq!(e.get_type_string(), MemoryRegionKind::Available);
    assert_eq!(MemoryRegionKind::BadRam.as_str(), "Bad RAM");
    let bad = MmapEntry { addr: 0x1000, len: 0, type_: 5, zero: 0 };
    assert_eq!(bad.get_type_string(), MemoryRegionKind::BadRam);
}

#[test]
fn relocations() {
    let mut image = vec![0u8; 16];
    let rel = Rela { r_offset: 4, r_info: R_X86_64_RELATIVE as u64, r_addend: 0x10 };
    assert_eq!(perform(&rel, 0x1000, &mut image, 0, |_, _| Ok(0)), Ok(()));
    assert_eq!(&image[4..12], &0x1010u64.to_le_bytes());
    let rel = Rela { r_offset: 0, r_info: (3u64 << 32) | R_X86_64_64 as u64, r_addend: 2 };
    assert_eq!(perform(&rel, 0, &mut image, 1, |_, sym| Ok(sym * 100)), Ok(()));
    assert_eq!(&image[0..8], &302u64.to_le_bytes());
    let rel = Rela { r_offset: 12, r_info: R_X86_64_64 as u64, r_addend: 0 };
    assert!(perform(&rel, 0, &mut image, 1, |_, _| Ok(1)).is_err());
    let rel = Rela { r_offset: 0, r_info: 99, r_addend: 0 };
    assert!(perform(&rel, 0, &mut image, 1, |_, _| Err(RelocationError)).is_err());
}

#[test]
fn sysfs_and_fs_types() {
    let fs = SysFsType.load_filesystem().unwrap();
    assert_eq!(fs.get_name(), b"sysfs");
    assert!(!fs.cache_entries());
    let st = fs.get_stat().unwrap();
    assert_eq!((st.f_type, st.f_bsize, st.f_namelen), (0, 0, 0));
    assert_eq!(fs.create_node(), Err(maestro::errno::Errno::EINVAL));
    assert_eq!(fs.destroy_node(), Ok(()));
    assert_eq!(SysFsType.get_name(), b"sysfs");
    assert_eq!(SysFsType.detect(), Ok(false));
    assert_eq!(TmpFsType.get_name(), b"tmpfs");
    assert_eq!(TmpFsType.detect(), Ok(false));
    let tmp = TmpFsType.load_filesystem(true).unwrap();
    assert!(tmp.readonly());
    assert_eq!(ProcFsType {}.get_name(), b"procfs");
    assert_eq!(ProcFsType {}.detect(), Ok(false));
    let _ = SysFS;
}
