use maestro::errno::Errno;
use maestro::file::{Stat, S_IFREG};
use maestro::path::Path;
use maestro::tmpfs::{TmpFS, ROOT_INODE};
use maestro::util::create_dirs;
use maestro::vfs::{create_file, get_file_from_path, Entry};

#[test]
fn create_dirs_nested() {
    let mut fs = TmpFS::load_filesystem(false);
    let root = Entry::new_root(ROOT_INODE);
    assert_eq!(create_dirs(&mut fs, &root, Path::new(b"/usr/local/bin").unwrap()), Ok(()));
    let bin = get_file_from_path(&fs, None, None, &root, Path::new(b"/usr/local/bin").unwrap(), true)
        .unwrap();
    let st = fs.stat(bin.node()).unwrap();
    assert_eq!(st.mode & 0o777, 0o755);
    // Existing directories are no error; `.` and `..` are skipped; relative paths start at root
    assert_eq!(create_dirs(&mut fs, &root, Path::new(b"usr/./local/../share").unwrap()), Ok(()));
    assert!(get_file_from_path(&fs, None, None, &root, Path::new(b"/usr/local/share").unwrap(), true)
        .is_ok());
}

#[test]
fn create_dirs_through_file() {
    let mut fs = TmpFS::load_filesystem(false);
    let root = Entry::new_root(ROOT_INODE);
    let mut st = Stat::default();
    st.mode = S_IFREG | 0o644;
    create_file(&mut fs, None, &root, b"file", st).unwrap();
    assert_eq!(create_dirs(&mut fs, &root, Path::new(b"/file/sub").unwrap()), Err(Errno::ENOTDIR));
    let mut ro = TmpFS::load_filesystem(true);
    assert_eq!(create_dirs(&mut ro, &root, Path::new(b"/a").unwrap()), Err(Errno::EROFS));
}
