use maestro::errno::Errno;
use maestro::file::{Stat, S_IFDIR, S_IFREG};
use maestro::path::Path;
use maestro::perm::{AccessProfile, ProcessFs};
use maestro::tmpfs::{StatSet, TmpFS, ROOT_INODE};
use maestro::file::FileLocation;
use maestro::mountpoint::{MountPoints, MountSource};
use maestro::vfs::{
    create_file, get_file_from_path, get_file_from_path_opt, link, rename, resolve_path, resolve_path_impl, set_stat,
    symlink, unlink, Entry, Resolved, ResolutionSettings, RENAME_NOREPLACE,
};

fn stat_with_mode(mode: u32) -> Stat {
    let mut st = Stat::default();
    st.mode = mode;
    st
}

fn settings(create: bool, follow_link: bool) -> ResolutionSettings {
    ResolutionSettings { root: Entry::new_root(ROOT_INODE), cwd: None, create, follow_link }
}

fn found(fs: &TmpFS, path: &[u8], follow: bool) -> Result<Entry, Errno> {
    let rs = settings(false, follow);
    match resolve_path(fs, None, Path::new(path).unwrap(), &rs)? {
        Resolved::Found(e) => Ok(e),
        Resolved::Creatable { .. } => panic!("unexpected creatable"),
    }
}

/// Builds `/dir/file` and `/dir/sub/` with a link `/ln -> dir/file` and `/loop -> loop`.
fn sample_fs() -> TmpFS {
    let mut fs = TmpFS::load_filesystem(false);
    let root = Entry::new_root(ROOT_INODE);
    let dir = create_file(&mut fs, None, &root, b"dir", stat_with_mode(S_IFDIR | 0o755)).unwrap();
    create_file(&mut fs, None, &dir, b"file", stat_with_mode(S_IFREG | 0o644)).unwrap();
    create_file(&mut fs, None, &dir, b"sub", stat_with_mode(S_IFDIR | 0o700)).unwrap();
    symlink(&mut fs, None, &root, b"ln", b"dir/file", Stat::default()).unwrap();
    symlink(&mut fs, None, &root, b"loop", b"/loop", Stat::default()).unwrap();
    fs
}

#[test]
fn resolve_root_and_names() {
    let fs = sample_fs();
    let root = found(&fs, b"/", true).unwrap();
    assert_eq!(root.node(), ROOT_INODE);
    assert!(!root.has_parent());
    let file = found(&fs, b"/dir/file", true).unwrap();
    assert_eq!(file.name(), b"file");
    assert_eq!(file.get_path().unwrap(), b"/dir/file".to_vec());
    let same = found(&fs, b"/dir/./sub/../file", true).unwrap();
    assert_eq!(same.node(), file.node());
    let dir = found(&fs, b"/dir/sub/..", true).unwrap();
    assert_eq!(dir.get_path().unwrap(), b"/dir".to_vec());
    assert_eq!(found(&fs, b"/..", true).unwrap().node(), ROOT_INODE);
    assert_eq!(root.get_path().unwrap(), b"/".to_vec());
}

#[test]
fn resolve_errors() {
    let fs = sample_fs();
    assert_eq!(found(&fs, b"/nope", true).unwrap_err(), Errno::ENOENT);
    assert_eq!(found(&fs, b"/dir/file/x", true).unwrap_err(), Errno::ENOTDIR);
    assert_eq!(found(&fs, b"/loop", true).unwrap_err(), Errno::ELOOP);
    let rs = settings(false, true);
    assert!(matches!(resolve_path(&fs, None, Path::new(b"").unwrap(), &rs), Err(Errno::ENOMEM)));
}

#[test]
fn resolve_links() {
    let fs = sample_fs();
    let file = found(&fs, b"/dir/file", true).unwrap();
    assert_eq!(found(&fs, b"/ln", true).unwrap().node(), file.node());
    let link = found(&fs, b"/ln", false).unwrap();
    assert_ne!(link.node(), file.node());
    assert_eq!(link.name(), b"ln");
}

#[test]
fn resolve_creatable() {
    let fs = sample_fs();
    let rs = settings(true, true);
    match resolve_path(&fs, None, Path::new(b"/dir/new").unwrap(), &rs).unwrap() {
        Resolved::Creatable { parent, name } => {
            assert_eq!(name, b"new");
            assert_eq!(parent.get_path().unwrap(), b"/dir".to_vec());
        }
        Resolved::Found(_) => panic!("unexpected found"),
    }
}

#[test]
fn resolve_relative_to_cwd() {
    let fs = sample_fs();
    let dir = found(&fs, b"/dir", true).unwrap();
    let rs = ResolutionSettings {
        root: Entry::new_root(ROOT_INODE),
        cwd: Some(dir.duplicate()),
        create: false,
        follow_link: true,
    };
    match resolve_path(&fs, None, Path::new(b"file").unwrap(), &rs).unwrap() {
        Resolved::Found(e) => assert_eq!(e.get_path().unwrap(), b"/dir/file".to_vec()),
        _ => panic!("not found"),
    }
    let root = Entry::new_root(ROOT_INODE);
    let got = get_file_from_path(&fs, None, Some((&root, &dir)), &root, Path::new(b"sub").unwrap(), true)
        .unwrap();
    assert_eq!(got.get_path().unwrap(), b"/dir/sub".to_vec());
    assert!(get_file_from_path_opt(&fs, None, None, &root, Path::new(b"/none").unwrap(), true)
        .unwrap()
        .is_none());
    assert_eq!(
        get_file_from_path(&fs, None, None, &root, Path::new(b"/none").unwrap(), true).unwrap_err(),
        Errno::ENOENT
    );
}

#[test]
fn search_permission() {
    let fs = sample_fs();
    let user = ProcessFs { ap: AccessProfile::new(1000, 1000), groups: vec![] };
    let rs = settings(false, true);
    // `/dir/sub` is 0o700, owned by root: another user cannot search it
    let r = resolve_path(&fs, Some(&user), Path::new(b"/dir/sub/x").unwrap(), &rs);
    assert!(matches!(r, Err(Errno::EACCES)));
    let r = resolve_path(&fs, Some(&user), Path::new(b"/dir/file").unwrap(), &rs);
    assert!(matches!(r, Ok(Resolved::Found(_))));
}

#[test]
fn vfs_create_link_unlink() {
    let mut fs = sample_fs();
    let root = Entry::new_root(ROOT_INODE);
    let dir = found(&fs, b"/dir", true).unwrap();
    let file = found(&fs, b"/dir/file", true).unwrap();
    assert_eq!(
        create_file(&mut fs, None, &dir, b"file", stat_with_mode(S_IFREG)).unwrap_err(),
        Errno::EEXIST
    );
    assert_eq!(
        create_file(&mut fs, None, &file, b"x", stat_with_mode(S_IFREG)).unwrap_err(),
        Errno::ENOTDIR
    );
    assert_eq!(link(&mut fs, None, &root, b"hard", file.node()), Ok(()));
    assert_eq!(found(&fs, b"/hard", true).unwrap().node(), file.node());
    assert_eq!(fs.stat(file.node()).unwrap().nlink, 2);
    assert_eq!(link(&mut fs, None, &root, b"d2", dir.node()), Err(Errno::EPERM));
    assert_eq!(unlink(&mut fs, None, &file), Ok(()));
    assert_eq!(found(&fs, b"/dir/file", true).unwrap_err(), Errno::ENOENT);
    assert_eq!(fs.stat(file.node()).unwrap().nlink, 1);
    let hard = found(&fs, b"/hard", true).unwrap();
    assert_eq!(unlink(&mut fs, None, &hard), Ok(()));
    // The last link is gone: the node is removed
    assert!(fs.stat(hard.node()).is_none());
    assert_eq!(unlink(&mut fs, None, &root), Err(Errno::EBUSY));
    let user = ProcessFs { ap: AccessProfile::new(1000, 1000), groups: vec![] };
    assert_eq!(
        create_file(&mut fs, Some(&user), &dir, b"y", stat_with_mode(S_IFREG)).unwrap_err(),
        Errno::EACCES
    );
}

#[test]
fn created_file_owner() {
    let mut fs = TmpFS::load_filesystem(false);
    let root = Entry::new_root(ROOT_INODE);
    let user = ProcessFs { ap: AccessProfile::new(1000, 50), groups: vec![] };
    let e = create_file(&mut fs, Some(&user), &root, b"f", stat_with_mode(S_IFREG | 0o600)).unwrap();
    let st = fs.stat(e.node()).unwrap();
    assert_eq!((st.uid, st.gid, st.nlink), (1000, 50, 1));
}

#[test]
fn vfs_rename() {
    let mut fs = sample_fs();
    let mps = MountPoints::new();
    let root = Entry::new_root(ROOT_INODE);
    let dir = found(&fs, b"/dir", true).unwrap();
    let file = found(&fs, b"/dir/file", true).unwrap();
    assert_eq!(rename(&mut fs, &mps, 0, None, &file, &root, b"moved", 0), Ok(()));
    assert_eq!(found(&fs, b"/moved", true).unwrap().node(), file.node());
    assert_eq!(found(&fs, b"/dir/file", true).unwrap_err(), Errno::ENOENT);
    let sub = found(&fs, b"/dir/sub", true).unwrap();
    assert_eq!(rename(&mut fs, &mps, 0, None, &dir, &sub, b"inside", 0), Err(Errno::EINVAL));
    let moved = found(&fs, b"/moved", true).unwrap();
    assert_eq!(rename(&mut fs, &mps, 0, None, &moved, &root, b"dir", RENAME_NOREPLACE), Err(Errno::EEXIST));
    assert_eq!(rename(&mut fs, &mps, 0, None, &moved, &root, b"x", 3), Err(Errno::EINVAL));
    assert_eq!(rename(&mut fs, &mps, 0, None, &root, &root, b"x", 0), Err(Errno::EBUSY));
    assert_eq!(rename(&mut fs, &mps, 0, None, &moved, &root, b"moved", 0), Ok(()));
}

#[test]
fn vfs_set_stat() {
    let mut fs = TmpFS::load_filesystem(false);
    let mut st = stat_with_mode(S_IFREG | 0o644);
    st.uid = 1000;
    let ino = fs.create_node(st).unwrap();
    let set = StatSet { mode: Some(0o170755), uid: None, gid: Some(5), ctime: Some(7), mtime: None, atime: None };
    // The kernel may change anything
    assert_eq!(set_stat(&mut fs, None, ino, &set), Ok(()));
    let new = fs.stat(ino).unwrap();
    assert_eq!(new.mode, S_IFREG | 0o755);
    assert_eq!((new.uid, new.gid, new.ctime), (1000, 5, 7));
    assert_eq!(set_stat(&mut fs, None, 999, &set), Err(Errno::ENOENT));
    // Another user may not, the owner may
    let other = ProcessFs { ap: AccessProfile::new(1001, 1001), groups: vec![] };
    assert_eq!(set_stat(&mut fs, Some(&other), ino, &set), Err(Errno::EPERM));
    let owner = ProcessFs { ap: AccessProfile::new(1000, 1000), groups: vec![] };
    let set = StatSet { mode: Some(0o600), uid: None, gid: None, ctime: None, mtime: None, atime: Some(9) };
    assert_eq!(set_stat(&mut fs, Some(&owner), ino, &set), Ok(()));
    assert_eq!(fs.stat(ino).unwrap().mode, S_IFREG | 0o600);
    assert_eq!(fs.stat(ino).unwrap().atime, 9);
}

#[test]
fn vfs_kernel_settings() {
    let root = Entry::new_root(ROOT_INODE);
    let rs = ResolutionSettings::kernel_follow(&root);
    assert!(rs.follow_link && !rs.create && rs.cwd.is_none());
    let rs = ResolutionSettings::kernel_nofollow(&root);
    assert!(!rs.follow_link && !rs.create);
    assert_eq!(rs.root.node(), ROOT_INODE);
}

#[test]
fn vfs_rename_mountpoint_busy() {
    let mut fs = sample_fs();
    let root = Entry::new_root(ROOT_INODE);
    let dir = found(&fs, b"/dir", true).unwrap();
    let file = found(&fs, b"/dir/file", true).unwrap();
    let mut mps = MountPoints::new();
    let target = FileLocation { mountpoint_id: 0, inode: dir.node() };
    mps.create(MountSource::NoDev(b"tmpfs".to_vec()), 0, b"/dir".to_vec(), target, Ok((1, b"tmpfs".to_vec())))
        .unwrap();
    // The mountpoint itself cannot move, and no file can replace it
    assert_eq!(rename(&mut fs, &mps, 0, None, &dir, &root, b"other", 0), Err(Errno::EBUSY));
    assert_eq!(rename(&mut fs, &mps, 0, None, &file, &root, b"dir", 0), Err(Errno::EBUSY));
    // On another mountpoint, the same inodes are not busy
    assert_eq!(rename(&mut fs, &mps, 1, None, &dir, &root, b"other", 0), Ok(()));
}

#[test]
fn vfs_resolve_past_link_budget() {
    let fs = sample_fs();
    let rs = settings(false, true);
    // With the budget of links spent, a link cannot be followed, but other files resolve
    let r = resolve_path_impl(&fs, None, Path::new(b"/ln").unwrap(), &rs, 45);
    assert_eq!(r.err(), Some(Errno::ELOOP));
    match resolve_path_impl(&fs, None, Path::new(b"/dir/file").unwrap(), &rs, 45) {
        Ok(Resolved::Found(_)) => {}
        _ => panic!("expected the file"),
    }
}
