//! Utility functions on top of the VFS.
use crate::errno::Errno;
use crate::file::{type_of_mode, FileType, Stat, S_IFDIR, TYPE_MASK};
use crate::path::{
    comps_fwd, components_of, join_comps, lemma_comps_fwd_unfold, root_bytes, Component, Path,
    PathBuf, PATH_SEPARATOR,
};
use crate::tmpfs::{FsView, TmpFS};
use crate::vfs::{
    create_and_link, create_check, create_file, create_fits, entry_node, file_at_path,
    get_file_from_path, new_file_stat, stat_of, Entry, EntryView,
};
use vstd::prelude::*;

verus! {

/// The status with which [`create_dirs`] creates directories: a directory with permissions
/// `0o755`, the rest as [`Stat::default`] gives it.
pub open spec fn dirs_stat() -> Stat {
    Stat {
        mode: S_IFDIR | 0o755,
        nlink: 1,
        uid: 0,
        gid: 0,
        size: 0,
        blocks: 0,
        dev_major: 0,
        dev_minor: 0,
        ctime: 0,
        mtime: 0,
        atime: 0,
    }
}

/// The component `c` is a name: neither the root, `.` nor `..`.
pub open spec fn is_name(c: Seq<u8>) -> bool {
    c != root_bytes() && c != seq![46u8] && c != seq![46u8, 46u8]
}

/// The path `p` joined with `c`, as [`Path::join`] does.
pub open spec fn joined(p: Seq<u8>, c: Seq<u8>) -> Seq<u8> {
    if c.len() > 0 && c[0] == PATH_SEPARATOR {
        c
    } else {
        join_comps(components_of(p).add(components_of(c)))
    }
}

/// The outcome of creating the directory `name` in the directory at path `p`, looked up from
/// `root` with kernel access: the result and the filesystem after it. If `p` cannot be looked
/// up, nothing is done.
pub open spec fn create_dir_outcome(
    fs: FsView,
    readonly: bool,
    root: EntryView,
    p: Seq<u8>,
    name: Seq<u8>,
) -> (Result<(), Errno>, FsView) {
    match file_at_path(fs, None, root, None, p) {
        Err(_) => (Ok(()), fs),
        Ok(parent) => if !create_fits(fs, entry_node(parent), dirs_stat()) {
            (Err(Errno::ENOMEM), fs)
        } else {
            match create_check(fs, None, parent) {
                Some(e) => (Err(e), fs),
                None => {
                    let st = new_file_stat(None, stat_of(fs, entry_node(parent))->0, dirs_stat());
                    let (res, after) = create_and_link(fs, readonly, entry_node(parent), name, st);
                    (
                        match res {
                            Ok(_) => Ok(()),
                            Err(e) => Err(e),
                        },
                        after,
                    )
                },
            }
        },
    }
}

/// The outcome of creating, one after the other, the directories named by the components
/// `comps`, from the directory at path `p`: the result and the filesystem after it.
///
/// Components that are not names are skipped. A directory that already exists is no error.
pub open spec fn create_dirs_outcome(
    fs: FsView,
    readonly: bool,
    root: EntryView,
    p: Seq<u8>,
    comps: Seq<Seq<u8>>,
) -> (Result<(), Errno>, FsView)
    decreases comps.len(),
{
    if comps.len() == 0 {
        (Ok(()), fs)
    } else if !is_name(comps[0]) {
        create_dirs_outcome(fs, readonly, root, p, comps.drop_first())
    } else {
        let (res, fs1) = create_dir_outcome(fs, readonly, root, p, comps[0]);
        match res {
            Err(e) => if e != Errno::EEXIST {
                (Err(e), fs1)
            } else {
                create_dirs_outcome(fs1, readonly, root, joined(p, comps[0]), comps.drop_first())
            },
            Ok(_) => create_dirs_outcome(
                fs1,
                readonly,
                root,
                joined(p, comps[0]),
                comps.drop_first(),
            ),
        }
    }
}

proof fn lemma_dirs_stat_is_dir()
    ensures
        type_of_mode(dirs_stat().mode) == Some(FileType::Directory),
{
    assert((S_IFDIR | 0o755u32) & TYPE_MASK == S_IFDIR) by (bit_vector);
}

/// Creates the directory `name` in the directory at path `p`, as [`create_dir_outcome`] says.
fn create_dir(fs: &mut TmpFS, vfs_root: &Entry, p: Path, name: &[u8]) -> (r: Result<(), Errno>)
    requires
        old(fs).wf(),
        vfs_root.wf(),
    ensures
        final(fs).wf(),
        final(fs).is_readonly() == old(fs).is_readonly(),
        (r, final(fs)@) == create_dir_outcome(
            old(fs)@,
            old(fs).is_readonly(),
            vfs_root@,
            p@,
            name@,
        ),
{
    let parent = match get_file_from_path(fs, None, None, vfs_root, p, true) {
        Ok(parent) => parent,
        Err(_) => return Ok(()),
    };
    assert(file_at_path(old(fs)@, None, vfs_root@, None, p@) == Ok::<EntryView, Errno>(parent@));
    proof {
        lemma_dirs_stat_is_dir();
    }
    if !fs.creation_fits(parent.node(), true) {
        return Err(Errno::ENOMEM);
    }
    let mut st = Stat::default();
    st.mode = S_IFDIR | 0o755;
    assert(st == dirs_stat());
    match create_file(fs, None, &parent, name, st) {
        Ok(_) => Ok(()),
        Err(e) => Err(e),
    }
}

/// Creates the directories necessary to reach path `path`.
///
/// If relative, the path is taken from the root. Each directory is looked up from `vfs_root` with
/// kernel access; a directory that already exists is no error.
pub fn create_dirs(fs: &mut TmpFS, vfs_root: &Entry, path: Path) -> (r: Result<(), Errno>)
    requires
        old(fs).wf(),
        vfs_root.wf(),
    ensures
        final(fs).wf(),
        final(fs).is_readonly() == old(fs).is_readonly(),
        (r, final(fs)@) == create_dirs_outcome(
            old(fs)@,
            old(fs).is_readonly(),
            vfs_root@,
            root_bytes(),
            components_of(path@),
        ),
{
    let ghost ro = old(fs).is_readonly();
    let ghost goal = create_dirs_outcome(old(fs)@, ro, vfs_root@, root_bytes(), components_of(path@));
    // Path of the parent directory
    let mut p = PathBuf::root();
    let mut it = path.components();
    loop
        invariant
            fs.wf(),
            vfs_root.wf(),
            ro == old(fs).is_readonly(),
            goal == create_dirs_outcome(
                old(fs)@,
                ro,
                vfs_root@,
                root_bytes(),
                components_of(path@),
            ),
            fs.is_readonly() == ro,
            it.path()@ == path@,
            it.front() <= it.back() <= path@.len(),
            goal == create_dirs_outcome(
                fs@,
                ro,
                vfs_root@,
                p@,
                comps_fwd(path@, it.front() as int, it.back() as int),
            ),
        decreases comps_fwd(path@, it.front() as int, it.back() as int).len(),
    {
        let ghost rest = comps_fwd(path@, it.front() as int, it.back() as int);
        proof {
            lemma_comps_fwd_unfold(path@, it.front() as int, it.back() as int);
        }
        match it.next() {
            None => {
                return Ok(());
            },
            Some(Component::Normal(name)) => {
                assert(rest[0] == name@);
                assert(is_name(name@));
                let res = create_dir(fs, vfs_root, p.as_path(), name);
                match res {
                    Err(e) => {
                        if e != Errno::EEXIST {
                            return Err(e);
                        }
                    },
                    Ok(()) => {},
                }
                p = p.as_path().join(&Path::new_unchecked(name));
                assert(rest.drop_first() =~= comps_fwd(
                    path@,
                    it.front() as int,
                    it.back() as int,
                ));
            },
            Some(c) => {
                assert(!is_name(rest[0]));
                assert(rest.drop_first() =~= comps_fwd(
                    path@,
                    it.front() as int,
                    it.back() as int,
                ));
            },
        }
    }
}

} // verus!
