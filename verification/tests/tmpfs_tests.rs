use maestro::errno::Errno;
use maestro::file::{FileType, Stat, S_IFDIR, S_IFLNK, S_IFREG};
use maestro::tmpfs::{DirInner, TmpFS, TmpFSRegular, TmpfsDirEntry, RENAME_EXCHANGE, ROOT_INODE};

fn stat_with_mode(mode: u32) -> Stat {
    let mut st = Stat::default();
    st.mode = mode;
    st.nlink = 0;
    st
}

fn names(fs: &TmpFS, dir: u64) -> Vec<Vec<u8>> {
    let (ents, _) = fs.iter_entries(dir, 0, usize::MAX).unwrap();
    ents.into_iter().map(|e| e.name).collect()
}

#[test]
fn dir_inner_slots() {
    let mut d = DirInner::new();
    assert_eq!(d.insert(TmpfsDirEntry { name: b"a".to_vec(), node: 1 }), 0);
    assert_eq!(d.insert(TmpfsDirEntry { name: b"b".to_vec(), node: 2 }), 1);
    assert_eq!(d.insert(TmpfsDirEntry { name: b"c".to_vec(), node: 3 }), 2);
    assert_eq!(d.find(b"b"), Some(2));
    d.remove(b"b");
    assert_eq!(d.find(b"b"), None);
    assert_eq!(d.slots_count(), 3);
    assert_eq!(d.used_slots(), 2);
    // The hole is filled first
    assert_eq!(d.insert(TmpfsDirEntry { name: b"d".to_vec(), node: 4 }), 1);
    // Removing the last slot drops it
    d.remove(b"c");
    assert_eq!(d.slots_count(), 2);
    d.set_inode(b"a", 9);
    assert_eq!(d.find(b"a"), Some(9));
    d.clear();
    assert_eq!(d.slots_count(), 0);
    assert_eq!(d.used_slots(), 0);
}

#[test]
fn load_filesystem_root() {
    let fs = TmpFS::load_filesystem(false);
    assert_eq!(fs.root(), Ok(ROOT_INODE));
    let st = fs.stat(ROOT_INODE).unwrap();
    assert_eq!(st.mode, S_IFDIR | 0o1777);
    assert_eq!(st.nlink, 2);
    assert_eq!(fs.lookup_entry(ROOT_INODE, b"."), Ok(Some(ROOT_INODE)));
    assert_eq!(fs.lookup_entry(ROOT_INODE, b".."), Ok(Some(ROOT_INODE)));
    assert_eq!(names(&fs, ROOT_INODE), vec![b".".to_vec(), b"..".to_vec()]);
    let st = fs.get_stat();
    assert_eq!(st.f_bsize, 4096);
    assert_eq!(st.f_namelen, 255);
}

#[test]
fn create_link_lookup() {
    let mut fs = TmpFS::load_filesystem(false);
    let file = fs.create_node(stat_with_mode(S_IFREG | 0o644)).unwrap();
    assert_eq!(file, 1);
    assert_eq!(fs.link(ROOT_INODE, b"file", file), Ok(()));
    assert_eq!(fs.lookup_entry(ROOT_INODE, b"file"), Ok(Some(file)));
    assert_eq!(fs.stat(file).unwrap().nlink, 1);
    assert_eq!(fs.link(ROOT_INODE, b"file", file), Err(Errno::EEXIST));
    assert_eq!(fs.link(file, b"x", file), Err(Errno::ENOTDIR));
    assert_eq!(fs.lookup_entry(file, b"x"), Err(Errno::ENOTDIR));
    assert_eq!(fs.create_node(stat_with_mode(0o170000)), Err(Errno::EINVAL));
}

#[test]
fn link_directory_counts() {
    let mut fs = TmpFS::load_filesystem(false);
    let dir = fs.create_node(stat_with_mode(S_IFDIR | 0o755)).unwrap();
    fs.link(ROOT_INODE, b"dir", dir).unwrap();
    assert_eq!(fs.stat(dir).unwrap().nlink, 2);
    assert_eq!(fs.stat(ROOT_INODE).unwrap().nlink, 3);
    assert_eq!(fs.lookup_entry(dir, b".."), Ok(Some(ROOT_INODE)));
    assert_eq!(fs.lookup_entry(dir, b"."), Ok(Some(dir)));
    // A non-empty directory cannot be removed
    let f = fs.create_node(stat_with_mode(S_IFREG | 0o644)).unwrap();
    fs.link(dir, b"f", f).unwrap();
    assert_eq!(fs.unlink(ROOT_INODE, b"dir"), Err(Errno::ENOTEMPTY));
    assert_eq!(fs.unlink(dir, b"f"), Ok(()));
    assert_eq!(fs.stat(f).unwrap().nlink, 0);
    assert_eq!(fs.unlink(ROOT_INODE, b"dir"), Ok(()));
    assert_eq!(fs.lookup_entry(ROOT_INODE, b"dir"), Ok(None));
    assert_eq!(fs.stat(dir).unwrap().nlink, 0);
    assert_eq!(fs.stat(ROOT_INODE).unwrap().nlink, 2);
    assert_eq!(fs.unlink(ROOT_INODE, b"dir"), Err(Errno::ENOENT));
}

#[test]
fn readonly_filesystem() {
    let mut fs = TmpFS::load_filesystem(true);
    assert_eq!(fs.create_node(stat_with_mode(S_IFREG)), Err(Errno::EROFS));
    assert_eq!(fs.link(ROOT_INODE, b"a", ROOT_INODE), Err(Errno::EROFS));
    assert_eq!(fs.unlink(ROOT_INODE, b"."), Err(Errno::EROFS));
    assert_eq!(fs.destroy_node(ROOT_INODE), Err(Errno::EROFS));
    assert_eq!(fs.write(ROOT_INODE, 0, b"x"), Err(Errno::EROFS));
}

#[test]
fn destroy_and_reuse_inode() {
    let mut fs = TmpFS::load_filesystem(false);
    let a = fs.create_node(stat_with_mode(S_IFREG)).unwrap();
    let b = fs.create_node(stat_with_mode(S_IFREG)).unwrap();
    assert_eq!((a, b), (1, 2));
    assert_eq!(fs.destroy_node(a), Ok(()));
    assert!(fs.stat(a).is_none());
    assert_eq!(fs.create_node(stat_with_mode(S_IFREG)), Ok(1));
}

#[test]
fn iter_entries_window() {
    let mut fs = TmpFS::load_filesystem(false);
    for name in [b"a", b"b", b"c"] {
        let n = fs.create_node(stat_with_mode(S_IFREG)).unwrap();
        fs.link(ROOT_INODE, name, n).unwrap();
    }
    let (ents, off) = fs.iter_entries(ROOT_INODE, 1, 2).unwrap();
    assert_eq!(off, 3);
    assert_eq!(ents.len(), 2);
    assert_eq!(ents[0].name, b"..".to_vec());
    assert_eq!(ents[1].name, b"a".to_vec());
    assert_eq!(ents[1].entry_type, Some(FileType::Regular));
    let (ents, off) = fs.iter_entries(ROOT_INODE, 10, 5).unwrap();
    assert!(ents.is_empty());
    assert_eq!(off, 10);
    assert_eq!(fs.iter_entries(1, 0, 1).unwrap_err(), Errno::ENOTDIR);
}

#[test]
fn symlink_target() {
    let mut fs = TmpFS::load_filesystem(false);
    let l = fs.create_node(stat_with_mode(S_IFLNK | 0o777)).unwrap();
    assert_eq!(fs.writelink(l, b"/some/target"), Ok(()));
    assert_eq!(fs.stat(l).unwrap().size, 12);
    let mut buf = [0u8; 32];
    assert_eq!(fs.readlink(l, &mut buf), Ok(12));
    assert_eq!(&buf[..12], b"/some/target");
    let mut small = [0u8; 4];
    assert_eq!(fs.readlink(l, &mut small), Ok(4));
    assert_eq!(&small, b"/som");
    assert_eq!(fs.readlink(ROOT_INODE, &mut buf), Err(Errno::EINVAL));
    assert_eq!(fs.writelink(ROOT_INODE, b"x"), Err(Errno::EINVAL));
}

#[test]
fn regular_write_read_truncate() {
    let mut fs = TmpFS::load_filesystem(false);
    let f = fs.create_node(stat_with_mode(S_IFREG | 0o644)).unwrap();
    assert_eq!(fs.write(f, 0, b"hello"), Ok(5));
    assert_eq!(fs.write(f, 5, b" world"), Ok(6));
    assert_eq!(fs.write(f, 20, b"x"), Err(Errno::EINVAL));
    assert_eq!(fs.stat(f).unwrap().size, 11);
    let mut buf = [0u8; 16];
    assert_eq!(fs.read(f, 0, &mut buf), Ok((11, true)));
    assert_eq!(&buf[..11], b"hello world");
    let mut buf = [0u8; 3];
    assert_eq!(fs.read(f, 6, &mut buf), Ok((3, false)));
    assert_eq!(&buf, b"wor");
    assert_eq!(fs.read(f, 12, &mut buf), Err(Errno::EINVAL));
    assert_eq!(fs.truncate(f, 5), Ok(()));
    assert_eq!(fs.stat(f).unwrap().size, 5);
    let mut buf = [0u8; 16];
    assert_eq!(fs.read(f, 0, &mut buf), Ok((5, true)));
    assert_eq!(&buf[..5], b"hello");
    assert_eq!(fs.truncate(f, 8192), Ok(()));
    assert_eq!(fs.stat(f).unwrap().size, 8192);
    assert_eq!(fs.truncate(ROOT_INODE, 0), Err(Errno::EINVAL));
    // Truncating to a page boundary keeps the first bytes
    assert_eq!(fs.truncate(f, 4096), Ok(()));
    let mut buf = [1u8; 5];
    assert_eq!(fs.read(f, 0, &mut buf), Ok((5, false)));
    assert_eq!(&buf, b"hello");
    // Shrinking within a page drops the bytes past the new size
    assert_eq!(fs.truncate(f, 3), Ok(()));
    assert_eq!(fs.truncate(f, 5), Ok(()));
    let mut buf = [1u8; 5];
    assert_eq!(fs.read(f, 0, &mut buf), Ok((5, true)));
    assert_eq!(&buf, b"hel\0\0");
}

#[test]
fn rename_moves_directory_links() {
    let mut fs = TmpFS::load_filesystem(false);
    let a = fs.create_node(stat_with_mode(S_IFDIR | 0o755)).unwrap();
    fs.link(ROOT_INODE, b"a", a).unwrap();
    let b = fs.create_node(stat_with_mode(S_IFDIR | 0o755)).unwrap();
    fs.link(ROOT_INODE, b"b", b).unwrap();
    let d = fs.create_node(stat_with_mode(S_IFDIR | 0o755)).unwrap();
    fs.link(a, b"d", d).unwrap();
    let na = fs.stat(a).unwrap().nlink;
    let nb = fs.stat(b).unwrap().nlink;
    assert_eq!(fs.rename(a, b"d", b, b"d", 0, false), Ok(()));
    assert_eq!(fs.lookup_entry(b, b"d"), Ok(Some(d)));
    assert_eq!(fs.lookup_entry(a, b"d"), Ok(None));
    assert_eq!(fs.lookup_entry(d, b".."), Ok(Some(b)));
    assert_eq!(fs.stat(a).unwrap().nlink, na - 1);
    assert_eq!(fs.stat(b).unwrap().nlink, nb + 1);
}

#[test]
fn rename_moves_entry() {
    let mut fs = TmpFS::load_filesystem(false);
    let dir = fs.create_node(stat_with_mode(S_IFDIR | 0o755)).unwrap();
    fs.link(ROOT_INODE, b"dir", dir).unwrap();
    let f = fs.create_node(stat_with_mode(S_IFREG | 0o644)).unwrap();
    fs.link(ROOT_INODE, b"f", f).unwrap();
    assert_eq!(fs.rename(ROOT_INODE, b"f", dir, b"g", 0, false), Ok(()));
    assert_eq!(fs.lookup_entry(dir, b"g"), Ok(Some(f)));
    assert_eq!(fs.lookup_entry(ROOT_INODE, b"f"), Ok(None));
    assert_eq!(fs.rename(ROOT_INODE, b"dir", dir, b"x", 0, true), Err(Errno::EINVAL));
    assert_eq!(fs.rename(ROOT_INODE, b"dir", f, b"x", 0, false), Err(Errno::ENOTDIR));
}

#[test]
fn rename_replace_and_exchange() {
    let mut fs = TmpFS::load_filesystem(false);
    let a = fs.create_node(stat_with_mode(S_IFREG)).unwrap();
    let b = fs.create_node(stat_with_mode(S_IFREG)).unwrap();
    fs.link(ROOT_INODE, b"a", a).unwrap();
    fs.link(ROOT_INODE, b"b", b).unwrap();
    assert_eq!(fs.rename(ROOT_INODE, b"a", ROOT_INODE, b"b", RENAME_EXCHANGE, false), Ok(()));
    assert_eq!(fs.lookup_entry(ROOT_INODE, b"a"), Ok(Some(b)));
    assert_eq!(fs.lookup_entry(ROOT_INODE, b"b"), Ok(Some(a)));
    assert_eq!(fs.rename(ROOT_INODE, b"a", ROOT_INODE, b"b", 0, false), Ok(()));
    assert_eq!(fs.lookup_entry(ROOT_INODE, b"b"), Ok(Some(b)));
    assert_eq!(fs.lookup_entry(ROOT_INODE, b"a"), Ok(None));
    assert_eq!(fs.stat(a).unwrap().nlink, 0);
}

#[test]
fn rename_directory_updates_parent() {
    let mut fs = TmpFS::load_filesystem(false);
    let d1 = fs.create_node(stat_with_mode(S_IFDIR | 0o755)).unwrap();
    let d2 = fs.create_node(stat_with_mode(S_IFDIR | 0o755)).unwrap();
    fs.link(ROOT_INODE, b"d1", d1).unwrap();
    fs.link(ROOT_INODE, b"d2", d2).unwrap();
    assert_eq!(fs.rename(ROOT_INODE, b"d2", d1, b"sub", 0, false), Ok(()));
    assert_eq!(fs.lookup_entry(d2, b".."), Ok(Some(d1)));
    assert_eq!(fs.stat(d1).unwrap().nlink, 3);
}

#[test]
fn tmpfs_regular_node() {
    let mut f = TmpFSRegular::new(0o644, 1000, 100, Some(42));
    assert_eq!(f.get_hard_links_count(), 1);
    assert_eq!(f.get_mode(), 0o644);
    assert_eq!((f.get_uid(), f.get_gid()), (1000, 100));
    assert_eq!((f.get_ctime(), f.get_mtime(), f.get_atime()), (42, 42, 42));
    assert_eq!(f.get_size(), 0);
    assert_eq!(f.write(0, b"abc"), Ok(3));
    assert_eq!(f.write(5, b"z"), Err(Errno::EINVAL));
    assert_eq!(f.write(1, b"XYZW"), Ok(4));
    assert_eq!(f.get_size(), 5);
    let mut buf = [0u8; 8];
    assert_eq!(f.read(0, &mut buf), Ok((5, true)));
    assert_eq!(&buf[..5], b"aXYZW");
    assert_eq!(f.read(6, &mut buf), Err(Errno::EINVAL));
    f.set_hard_links_count(3);
    f.set_mode(0o600);
    f.set_uid(1);
    f.set_gid(2);
    f.set_atime(7);
    f.set_ctime(8);
    f.set_mtime(9);
    assert_eq!(f.get_hard_links_count(), 3);
    assert_eq!(f.get_mode(), 0o600);
    assert_eq!((f.get_uid(), f.get_gid()), (1, 2));
    assert_eq!((f.get_ctime(), f.get_mtime(), f.get_atime()), (8, 9, 7));
    let g = TmpFSRegular::new(0o600, 0, 0, None);
    assert_eq!(g.get_atime(), 0);
}
