use maestro::errno::Errno;
use maestro::file::{FileLocation, FileType, Stat, S_IFDIR, S_IFREG};
use maestro::open_file::File;
use maestro::path::PathBuf;
use maestro::tmpfs::{TmpFS, ROOT_INODE};
use maestro::vfs::{create_file, Entry};

fn stat_with_mode(mode: u32) -> Stat {
    let mut st = Stat::default();
    st.mode = mode;
    st
}

fn location(inode: u64) -> FileLocation {
    FileLocation { mountpoint_id: 1, inode }
}

#[test]
fn file_read_all() {
    let mut fs = TmpFS::load_filesystem(false);
    let root = Entry::new_root(ROOT_INODE);
    let f = create_file(&mut fs, None, &root, b"motd", stat_with_mode(S_IFREG | 0o644)).unwrap();
    assert_eq!(fs.write(f.node(), 0, b"hello, world\n"), Ok(13));
    let file = File::open(PathBuf::try_from_bytes(b"/motd").unwrap(), location(f.node()), 0);
    assert_eq!(file.get_path().as_bytes(), b"/motd");
    assert_eq!(file.get_location().inode, f.node());
    assert_eq!(file.read_all(&fs).unwrap(), b"hello, world\n".to_vec());
    assert_eq!(file.get_type(&fs), Ok(FileType::Regular));
    assert_eq!(file.get_stat(&fs).unwrap().size, 13);
    // An empty directory reads as nothing
    let d = create_file(&mut fs, None, &root, b"dir", stat_with_mode(S_IFDIR | 0o755)).unwrap();
    let dir = File::open(PathBuf::try_from_bytes(b"/dir").unwrap(), location(d.node()), 0);
    assert_eq!(dir.read_all(&fs).unwrap(), Vec::<u8>::new());
    // A missing node
    let gone = File::open(PathBuf::try_from_bytes(b"/gone").unwrap(), location(4242), 0);
    assert_eq!(gone.read_all(&fs), Err(Errno::ENOENT));
    assert_eq!(gone.get_type(&fs), Err(Errno::ENOENT));
}

#[test]
fn file_dir_entries_and_close() {
    let mut fs = TmpFS::load_filesystem(false);
    let root = Entry::new_root(ROOT_INODE);
    let f = create_file(&mut fs, None, &root, b"a", stat_with_mode(S_IFREG | 0o644)).unwrap();
    let dir = File::open(PathBuf::try_from_bytes(b"/").unwrap(), location(ROOT_INODE), 0);
    let e = dir.dir_entry_by_name(&fs, b"a").unwrap();
    assert_eq!(e.inode, f.node());
    assert_eq!(e.entry_type, Some(FileType::Regular));
    assert_eq!(e.name, b"a".to_vec());
    assert!(dir.dir_entry_by_name(&fs, b"b").is_none());
    let file = File::open(PathBuf::try_from_bytes(b"/a").unwrap(), location(f.node()), 0);
    assert!(file.dir_entry_by_name(&fs, b"x").is_none());
    // A node with links remains after closing
    let mut file = file;
    assert_eq!(file.close(&mut fs), Ok(()));
    assert!(fs.stat(f.node()).is_some());
    // An unlinked node is removed on close
    let mut st = stat_with_mode(S_IFREG | 0o600);
    st.nlink = 0;
    let orphan = fs.create_node(st).unwrap();
    let mut of = File::open_ops(0);
    assert_eq!(of.get_location().inode, 0);
    of = File::open(PathBuf::try_from_bytes(b"/orphan").unwrap(), location(orphan), 0);
    assert_eq!(of.close(&mut fs), Ok(()));
    assert!(fs.stat(orphan).is_none());
    assert_eq!(of.close(&mut fs), Err(Errno::ENOENT));
}
