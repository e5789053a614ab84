//! The VFS (Virtual FileSystem) resolves paths to entries of a filesystem.
//!
//! An entry is the chain of the directory entries leading to a file from the root of the VFS:
//! each link of the chain holds the name of the entry and the inode it points to. The parent of
//! an entry is the chain without its last link.
use crate::errno::Errno;
use crate::file::{type_of_mode, FileLocation, FileType, INode, Stat, S_IFLNK};
use crate::mountpoint::{mount_index, MountPoints, MountView};
use crate::path::{
    comps_fwd, kind_ok, lemma_comps_fwd_unfold, lemma_next_bwd_progress, lemma_next_fwd_progress,
    next_bwd, next_fwd, opt_view, root_bytes, Component, Path, PATH_SEPARATOR,
};
use crate::perm::{
    can_search_directory, can_set_file_permissions, can_write_directory, privileged, process_bits_allow, profile_of, ROOT_UID,
    AccessProfile, ProcessFs, S_ISGID, S_ISVTX, S_IWGRP, S_IWOTH, S_IWUSR, S_IXGRP, S_IXOTH, S_IXUSR,
};
use crate::tmpfs::{
    empty_content, first_free, is_first_free, lemma_first_free, link_error, link_fits, link_result,
    link_target, lookup_slots, nlink_at, node_at, place_node, rename_error, rename_fits,
    rename_result, slots_at, stat_with_size, unlink_error, unlink_fits, unlink_result, ContentView,
    FsView, NodeView, TmpFS, RENAME_EXCHANGE, apply_stat_set, StatSet,
};
use vstd::prelude::*;

verus! {

/// The maximum number of symbolic links followed while resolving one path.
pub const SYMLOOP_MAX: usize = 40;
/// The maximum length of the target of a symbolic link that is read.
pub const SYMLINK_MAX: usize = 4096;

/// The view of an entry: the names and inodes from the root of the VFS to the entry.
pub type EntryView = Seq<(Seq<u8>, INode)>;

/// A VFS entry, representing a directory entry leading to a file.
#[derive(Debug)]
pub struct Entry {
    /// The names of the entries of the chain; the root's is empty.
    names: Vec<Vec<u8>>,
    /// The inodes the entries of the chain point to.
    nodes: Vec<INode>,
}

impl Entry {
    /// The chain of the entry.
    pub closed spec fn view(&self) -> EntryView {
        Seq::new(self.nodes@.len(), |i: int| (self.names@[i]@, self.nodes@[i]))
    }

    /// The chain is not empty, and holds as many names as inodes.
    pub closed spec fn wf(&self) -> bool {
        &&& self.nodes@.len() >= 1
        &&& self.names@.len() == self.nodes@.len()
    }

    /// Creates the root entry of the VFS, pointing to the inode `root`.
    pub fn new_root(root: INode) -> (e: Self)
        ensures
            e.wf(),
            e@ == seq![(Seq::<u8>::empty(), root)],
    {
        let mut names: Vec<Vec<u8>> = Vec::new();
        names.push(Vec::new());
        let mut nodes: Vec<INode> = Vec::new();
        nodes.push(root);
        let e = Entry { names, nodes };
        assert(e@ =~= seq![(Seq::<u8>::empty(), root)]);
        e
    }

    /// Returns the inode the entry points to.
    pub fn node(&self) -> (ino: INode)
        requires
            self.wf(),
        ensures
            ino == entry_node(self@),
    {
        self.nodes[self.nodes.len() - 1]
    }

    /// Returns the inode the parent of the entry points to.
    pub fn parent_node(&self) -> (ino: INode)
        requires
            self.wf(),
            self@.len() > 1,
        ensures
            ino == entry_node(self@.drop_last()),
    {
        self.nodes[self.nodes.len() - 2]
    }

    /// Returns the name of the entry.
    pub fn name(&self) -> (name: &[u8])
        requires
            self.wf(),
        ensures
            name@ == self@.last().0,
    {
        self.names[self.names.len() - 1].as_slice()
    }

    /// Tells whether the entry has a parent, that is, whether it is not the root of the VFS.
    pub fn has_parent(&self) -> (b: bool)
        requires
            self.wf(),
        ensures
            b == (self@.len() > 1),
    {
        self.nodes.len() > 1
    }

    /// Returns a copy of the entry.
    pub fn duplicate(&self) -> (e: Self)
        requires
            self.wf(),
        ensures
            e.wf(),
            e@ == self@,
    {
        let mut names: Vec<Vec<u8>> = Vec::new();
        let mut nodes: Vec<INode> = Vec::new();
        let mut i: usize = 0;
        while i < self.nodes.len()
            invariant
                self.wf(),
                i <= self.nodes@.len(),
                names@.len() == i,
                nodes@.len() == i,
                forall|j: int| 0 <= j < i ==> #[trigger] names@[j]@ == self.names@[j]@,
                forall|j: int| 0 <= j < i ==> #[trigger] nodes@[j] == self.nodes@[j],
            decreases self.nodes@.len() - i,
        {
            names.push(crate::tmpfs::copy_bytes(self.names[i].as_slice()));
            nodes.push(self.nodes[i]);
            i += 1;
        }
        let e = Entry { names, nodes };
        assert(e@ =~= self@);
        e
    }

    /// Moves the entry to its child named `name`, pointing to `ino`.
    pub fn push(&mut self, name: &[u8], ino: INode)
        requires
            old(self).wf(),
        ensures
            final(self).wf(),
            final(self)@ == old(self)@.push((name@, ino)),
    {
        self.names.push(crate::tmpfs::copy_bytes(name));
        self.nodes.push(ino);
        assert(self@ =~= old(self)@.push((name@, ino)));
    }

    /// Moves the entry to its parent, if it has one.
    pub fn to_parent(&mut self)
        requires
            old(self).wf(),
        ensures
            final(self).wf(),
            final(self)@ == parent_or_self(old(self)@),
    {
        if self.nodes.len() > 1 {
            self.names.pop();
            self.nodes.pop();
            assert(self@ =~= old(self)@.drop_last());
        }
    }

    /// Recursively checks whether `self` is contained in `e`: whether `e` is a strict ancestor
    /// of `self`.
    pub fn is_child_of(&self, e: &Self) -> (b: bool)
        requires
            self.wf(),
            e.wf(),
        ensures
            b == is_strict_prefix(e@, self@),
    {
        if e.nodes.len() >= self.nodes.len() {
            return false;
        }
        let mut i: usize = 0;
        while i < e.nodes.len()
            invariant
                self.wf(),
                e.wf(),
                e@.len() < self@.len(),
                i <= e@.len(),
                forall|j: int| 0 <= j < i ==> #[trigger] e@[j] == self@[j],
            decreases e@.len() - i,
        {
            if e.nodes[i] != self.nodes[i] || !crate::tmpfs::bytes_eq(
                e.names[i].as_slice(),
                self.names[i].as_slice(),
            ) {
                assert(e@[i as int] != self@[i as int]);
                return false;
            }
            assert(e@[i as int] == self@[i as int]);
            i += 1;
        }
        assert(self@.take(e@.len() as int) =~= e@);
        true
    }

    /// Returns the absolute path to reach the entry: the names of the chain after the root, each
    /// preceded by `/`, or `/` for the root itself.
    ///
    /// If the path is longer than [`crate::path::PATH_MAX`], the function returns
    /// [`Errno::ENAMETOOLONG`].
    pub fn get_path(&self) -> (r: Result<Vec<u8>, Errno>)
        requires
            self.wf(),
        ensures
            self@.len() == 1 ==> (r matches Ok(p) && p@ == root_bytes()),
            self@.len() > 1 ==> match r {
                Ok(p) => p@ == entry_path(self@, self@.len() as int) && p@.len()
                    <= crate::path::PATH_MAX,
                Err(e) => e == Errno::ENAMETOOLONG && entry_path(self@, self@.len() as int).len()
                    > crate::path::PATH_MAX,
            },
    {
        if self.nodes.len() == 1 {
            let mut p: Vec<u8> = Vec::new();
            p.push(PATH_SEPARATOR);
            assert(p@ =~= root_bytes());
            return Ok(p);
        }
        let mut out: Vec<u8> = Vec::new();
        let mut i: usize = 1;
        while i < self.nodes.len()
            invariant
                self.wf(),
                1 <= i <= self@.len(),
                out@ == entry_path(self@, i as int),
                out@.len() <= crate::path::PATH_MAX,
            decreases self@.len() - i,
        {
            let name = self.names[i].as_slice();
            if name.len() >= crate::path::PATH_MAX - out.len() {
                proof {
                    lemma_entry_path_grows(self@, i as int + 1, self@.len() as int);
                }
                return Err(Errno::ENAMETOOLONG);
            }
            out.push(PATH_SEPARATOR);
            let mut k: usize = 0;
            let ghost before = out@;
            while k < name.len()
                invariant
                    k <= name@.len(),
                    out@ == before + name@.take(k as int),
                decreases name@.len() - k,
            {
                out.push(name[k]);
                k += 1;
                assert(out@ =~= before + name@.take(k as int));
            }
            assert(name@.take(name@.len() as int) =~= name@);
            i += 1;
        }
        Ok(out)
    }
}

/// The inode an entry points to.
pub open spec fn entry_node(e: EntryView) -> INode {
    e.last().1
}

/// The parent of an entry, or the entry itself if it is the root of the VFS.
pub open spec fn parent_or_self(e: EntryView) -> EntryView {
    if e.len() > 1 {
        e.drop_last()
    } else {
        e
    }
}

/// `a` is a strict prefix of `b`.
pub open spec fn is_strict_prefix(a: EntryView, b: EntryView) -> bool {
    a.len() < b.len() && b.take(a.len() as int) == a
}

/// The path of the first `n` links of the chain `e`, the root excluded: each name preceded by
/// `/`.
pub open spec fn entry_path(e: EntryView, n: int) -> Seq<u8>
    decreases n,
{
    if n <= 1 {
        Seq::empty()
    } else {
        entry_path(e, n - 1) + seq![PATH_SEPARATOR] + e[n - 1].0
    }
}

proof fn lemma_entry_path_grows(e: EntryView, a: int, b: int)
    requires
        1 <= a <= b,
    ensures
        entry_path(e, a).len() <= entry_path(e, b).len(),
    decreases b - a,
{
    if a < b {
        lemma_entry_path_grows(e, a, b - 1);
    }
}

/// The status of the node of inode `ino`, if it exists.
pub open spec fn stat_of(fs: FsView, ino: INode) -> Option<Stat> {
    match node_at(fs, ino as int) {
        Some(n) => Some(n.stat),
        None => None,
    }
}

/// The process may access the files of a directory with status `st` whose names it knows.
pub open spec fn can_search(proc: Option<&ProcessFs>, st: Stat) -> bool {
    (type_of_mode(st.mode) != Some(FileType::Regular) && privileged(proc)) || process_bits_allow(
        proc,
        st,
        true,
        S_IXUSR,
        S_IXGRP,
        S_IXOTH,
    )
}

/// The lookup of the entry `name` in the directory `dir` of the filesystem.
pub open spec fn fs_lookup(fs: FsView, dir: INode, name: Seq<u8>) -> Result<Option<INode>, Errno> {
    match slots_at(fs, dir as int) {
        Some(s) => Ok(lookup_slots(s, name)),
        None => Err(Errno::ENOTDIR),
    }
}

/// The component `.`.
pub open spec fn cur_dir() -> Seq<u8> {
    seq![46u8]
}

/// The component `..`.
pub open spec fn parent_dir() -> Seq<u8> {
    seq![46u8, 46u8]
}

/// The target of the symbolic link `ino` as read for resolution: at most [`SYMLINK_MAX`] bytes.
pub open spec fn read_target(fs: FsView, ino: INode) -> Option<Seq<u8>> {
    match link_target(fs, ino as int) {
        Some(t) => Some(
            if t.len() <= SYMLINK_MAX {
                t
            } else {
                t.take(SYMLINK_MAX as int)
            },
        ),
        None => None,
    }
}

/// The path `p` is absolute.
pub open spec fn path_is_absolute(p: Seq<u8>) -> bool {
    p.len() > 0 && p[0] == PATH_SEPARATOR
}

/// The outcome of a path resolution.
pub enum ResolvedView {
    /// The file was found.
    Found(EntryView),
    /// The file does not exist but can be created, in the given directory, with the given name.
    Creatable(EntryView, Seq<u8>),
}

/// The number of components read forward in a part of a path is at most its length.
pub proof fn lemma_comps_fwd_len(s: Seq<u8>, f: int, b: int)
    requires
        0 <= f,
        b <= s.len(),
    ensures
        comps_fwd(s, f, b).len() <= if b > f {
            b - f
        } else {
            0
        },
    decreases b - f,
{
    lemma_next_fwd_progress(s, f, b);
    lemma_comps_fwd_unfold(s, f, b);
    if next_fwd(s, f, b).0 is Some {
        lemma_comps_fwd_len(s, next_fwd(s, f, b).1, b);
    }
}

/// Walks the intermediate components `comps` of a path from the directory `dir`: each must be
/// searchable; `..` goes to the parent, `/` and `.` stay, a name goes to its entry, which must be
/// a directory or a symbolic link, the latter being followed. `rec` is the number of symbolic
/// links followed so far.
pub open spec fn walk(
    fs: FsView,
    proc: Option<&ProcessFs>,
    root: EntryView,
    dir: EntryView,
    comps: Seq<Seq<u8>>,
    rec: nat,
) -> Result<EntryView, Errno>
    decreases SYMLOOP_MAX - rec, comps.len() + 1,
{
    if comps.len() == 0 {
        Ok(dir)
    } else {
        let c = comps[0];
        let rest = comps.drop_first();
        match stat_of(fs, entry_node(dir)) {
            None => Err(Errno::ENOENT),
            Some(st) => if !can_search(proc, st) {
                Err(Errno::EACCES)
            } else if c == parent_dir() {
                walk(fs, proc, root, parent_or_self(dir), rest, rec)
            } else if c == root_bytes() || c == cur_dir() {
                walk(fs, proc, root, dir, rest, rec)
            } else {
                match fs_lookup(fs, entry_node(dir), c) {
                    Err(e) => Err(e),
                    Ok(None) => Err(Errno::ENOENT),
                    Ok(Some(ino)) => {
                        let child = dir.push((c, ino));
                        match stat_of(fs, ino) {
                            None => Err(Errno::ENOENT),
                            Some(cs) => match type_of_mode(cs.mode) {
                                None => Err(Errno::EUCLEAN),
                                Some(FileType::Directory) => walk(fs, proc, root, child, rest, rec),
                                Some(FileType::Link) => match follow(
                                    fs,
                                    proc,
                                    root,
                                    child,
                                    dir,
                                    rec,
                                ) {
                                    Ok(d) => walk(fs, proc, root, d, rest, rec),
                                    Err(e) => Err(e),
                                },
                                _ => Err(Errno::ENOTDIR),
                            },
                        }
                    },
                }
            },
        }
    }
}

/// Follows the symbolic link `link` found in the directory `dir`: its target is resolved from
/// `dir`, or from `root` if it is absolute, following symbolic links, including the last one.
pub open spec fn follow(
    fs: FsView,
    proc: Option<&ProcessFs>,
    root: EntryView,
    link: EntryView,
    dir: EntryView,
    rec: nat,
) -> Result<EntryView, Errno>
    decreases SYMLOOP_MAX - rec, 0int,
{
    if rec + 1 > SYMLOOP_MAX {
        Err(Errno::ELOOP)
    } else {
        match read_target(fs, entry_node(link)) {
            None => Err(Errno::EINVAL),
            Some(t) => {
                let start = if path_is_absolute(t) {
                    root
                } else {
                    dir
                };
                match resolve_comps(fs, proc, root, start, t, false, true, rec + 1) {
                    Ok(ResolvedView::Found(e)) => Ok(e),
                    Ok(ResolvedView::Creatable(_, _)) => Err(Errno::ENOENT),
                    Err(e) => Err(e),
                }
            },
        }
    }
}

/// Resolves the path `path` from the directory `start`: its components but the last are walked,
/// then the last is looked up. If it does not exist, it can be created when `create` is set. If
/// it is a symbolic link, it is followed when `follow_link` is set.
pub open spec fn resolve_comps(
    fs: FsView,
    proc: Option<&ProcessFs>,
    root: EntryView,
    start: EntryView,
    path: Seq<u8>,
    create: bool,
    follow_link: bool,
    rec: nat,
) -> Result<ResolvedView, Errno>
    decreases SYMLOOP_MAX - rec, path.len() + 2,
{
    let (last, b) = next_bwd(path, 0, path.len() as int);
    match last {
        None => Ok(ResolvedView::Found(start)),
        Some(fc) => {
            proof {
                lemma_next_bwd_progress(path, 0, path.len() as int);
                lemma_comps_fwd_len(path, 0, b);
            }
            match walk(fs, proc, root, start, comps_fwd(path, 0, b), rec) {
                Err(e) => Err(e),
                Ok(dir) => if fc == root_bytes() || fc == cur_dir() {
                    Ok(ResolvedView::Found(dir))
                } else if fc == parent_dir() {
                    Ok(ResolvedView::Found(parent_or_self(dir)))
                } else {
                    match stat_of(fs, entry_node(dir)) {
                        None => Err(Errno::ENOENT),
                        Some(st) => if !can_search(proc, st) {
                            Err(Errno::EACCES)
                        } else {
                            match fs_lookup(fs, entry_node(dir), fc) {
                                Err(e) => Err(e),
                                Ok(None) => if create {
                                    Ok(ResolvedView::Creatable(dir, fc))
                                } else {
                                    Err(Errno::ENOENT)
                                },
                                Ok(Some(ino)) => {
                                    let child = dir.push((fc, ino));
                                    if follow_link {
                                        match stat_of(fs, ino) {
                                            None => Err(Errno::ENOENT),
                                            Some(cs) => match type_of_mode(cs.mode) {
                                                None => Err(Errno::EUCLEAN),
                                                Some(FileType::Link) => match follow(
                                                    fs,
                                                    proc,
                                                    root,
                                                    child,
                                                    dir,
                                                    rec,
                                                ) {
                                                    Ok(t) => Ok(ResolvedView::Found(t)),
                                                    Err(e) => Err(e),
                                                },
                                                _ => Ok(ResolvedView::Found(child)),
                                            },
                                        }
                                    } else {
                                        Ok(ResolvedView::Found(child))
                                    }
                                },
                            }
                        },
                    }
                },
            }
        },
    }
}

/// Settings for a path resolution operation.
#[derive(Debug)]
pub struct ResolutionSettings {
    /// The location of the root directory for the operation.
    pub root: Entry,
    /// The current working directory, from which the resolution starts.
    ///
    /// If `None`, resolution starts from `root`.
    pub cwd: Option<Entry>,
    /// If `true`, the path is resolved for creation, meaning the operation will not fail if the
    /// file does not exist.
    pub create: bool,
    /// If `true` and if the last component of the path is a symbolic link, path resolution
    /// follows it.
    pub follow_link: bool,
}

impl ResolutionSettings {
    /// The entries of the settings are well formed.
    pub open spec fn wf(&self) -> bool {
        &&& self.root.wf()
        &&& self.cwd matches Some(c) ==> c.wf()
    }

    /// The directory from which the resolution of `path` starts: the current working directory
    /// for a relative path, if there is one, else the root.
    pub open spec fn start(&self, path: Seq<u8>) -> EntryView {
        match self.cwd {
            Some(c) => if !path_is_absolute(path) {
                c@
            } else {
                self.root@
            },
            None => self.root@,
        }
    }

    /// Returns the settings for kernel access from the root `vfs_root` of the VFS, following
    /// symbolic links, without creation.
    pub fn kernel_follow(vfs_root: &Entry) -> (rs: Self)
        requires
            vfs_root.wf(),
        ensures
            rs.wf(),
            rs.root@ == vfs_root@,
            rs.cwd is None,
            !rs.create,
            rs.follow_link,
    {
        ResolutionSettings { root: vfs_root.duplicate(), cwd: None, create: false, follow_link: true }
    }

    /// Returns the settings for kernel access from the root `vfs_root` of the VFS, without
    /// following symbolic links, without creation.
    pub fn kernel_nofollow(vfs_root: &Entry) -> (rs: Self)
        requires
            vfs_root.wf(),
        ensures
            rs.wf(),
            rs.root@ == vfs_root@,
            rs.cwd is None,
            !rs.create,
            !rs.follow_link,
    {
        ResolutionSettings { root: vfs_root.duplicate(), cwd: None, create: false, follow_link: false }
    }

    /// Returns the settings for the current task, given the root and working directory of its
    /// process, if it has filesystem information, and the root of the VFS.
    pub fn cur_task(task_dirs: Option<(&Entry, &Entry)>, vfs_root: &Entry, create: bool, follow_link: bool) -> (
        rs: Self)
        requires
            vfs_root.wf(),
            task_dirs matches Some((r, c)) ==> r.wf() && c.wf(),
        ensures
            rs.wf(),
            rs.create == create,
            rs.follow_link == follow_link,
            match task_dirs {
                Some((r, c)) => rs.root@ == r@ && (rs.cwd matches Some(cw) && cw@ == c@),
                None => rs.root@ == vfs_root@ && rs.cwd is None,
            },
    {
        match task_dirs {
            Some((r, c)) => ResolutionSettings {
                root: r.duplicate(),
                cwd: Some(c.duplicate()),
                create,
                follow_link,
            },
            None => ResolutionSettings { root: vfs_root.duplicate(), cwd: None, create, follow_link },
        }
    }
}

/// The result of the path resolution operation.
#[derive(Debug)]
pub enum Resolved<'s> {
    /// The file has been found.
    Found(Entry),
    /// The file can be created.
    ///
    /// This variant can be returned only if the `create` field is set to `true` in
    /// [`ResolutionSettings`].
    Creatable {
        /// The parent directory in which the file is to be created.
        parent: Entry,
        /// The name of the file to be created.
        name: &'s [u8],
    },
}

/// The view of the outcome of a resolution.
pub open spec fn resolved_view(r: Result<Resolved, Errno>) -> Result<ResolvedView, Errno> {
    match r {
        Ok(Resolved::Found(e)) => Ok(ResolvedView::Found(e@)),
        Ok(Resolved::Creatable { parent, name }) => Ok(ResolvedView::Creatable(parent@, name@)),
        Err(e) => Err(e),
    }
}

/// The entries of a resolution's outcome are well formed.
pub open spec fn resolved_wf(r: Result<Resolved, Errno>) -> bool {
    match r {
        Ok(Resolved::Found(e)) => e.wf(),
        Ok(Resolved::Creatable { parent, name }) => parent.wf(),
        Err(_) => true,
    }
}

/// Reads the target of the symbolic link `ino`, with a buffer grown by steps until it holds the
/// whole target or reaches [`SYMLINK_MAX`] bytes.
///
/// If `ino` is not a symbolic link, the function returns [`Errno::EINVAL`].
pub fn readlink_node(fs: &TmpFS, ino: INode) -> (r: Result<Vec<u8>, Errno>)
    ensures
        match read_target(fs@, ino) {
            Some(t) => r matches Ok(v) && v@ == t,
            None => r == Err::<Vec<u8>, Errno>(Errno::EINVAL),
        },
{
    let mut size: usize = 64;
    loop
        invariant
            64 <= size <= SYMLINK_MAX,
            size % 64 == 0,
        decreases SYMLINK_MAX - size,
    {
        let mut buf: Vec<u8> = Vec::new();
        let mut k: usize = 0;
        while k < size
            invariant
                k <= size,
                buf@.len() == k,
            decreases size - k,
        {
            buf.push(0);
            k += 1;
        }
        let ghost before = buf@;
        let len = fs.readlink(ino, buf.as_mut_slice())?;
        if len < size || size >= SYMLINK_MAX {
            buf.truncate(len);
            proof {
                let t = link_target(fs@, ino as int)->0;
                assert(buf@ =~= t.take(len as int));
                if t.len() <= SYMLINK_MAX {
                    assert(t.take(len as int) =~= t);
                }
            }
            return Ok(buf);
        }
        size = size + 64;
    }
}

/// Resolves the entry `name` in the directory of the entry `dir`, returning the inode it points
/// to, if it exists.
///
/// If `dir` is not a directory, the function returns [`Errno::ENOTDIR`].
pub fn resolve_entry(fs: &TmpFS, dir: &Entry, name: &[u8]) -> (r: Result<Option<INode>, Errno>)
    requires
        dir.wf(),
    ensures
        r == fs_lookup(fs@, entry_node(dir@), name@),
{
    fs.lookup_entry(dir.node(), name)
}

/// Returns the type of the node of inode `ino`, if it exists and its type is valid.
fn node_type_of(fs: &TmpFS, ino: INode) -> (r: Result<FileType, Errno>)
    ensures
        match stat_of(fs@, ino) {
            None => r == Err::<FileType, Errno>(Errno::ENOENT),
            Some(st) => match type_of_mode(st.mode) {
                None => r == Err::<FileType, Errno>(Errno::EUCLEAN),
                Some(t) => r == Ok::<FileType, Errno>(t),
            },
        },
{
    match fs.stat(ino) {
        None => Err(Errno::ENOENT),
        Some(st) => match FileType::from_mode(st.mode) {
            None => Err(Errno::EUCLEAN),
            Some(t) => Ok(t),
        },
    }
}

/// Tells whether the process may search the directory of the entry `dir`.
///
/// If the node of the entry does not exist, the function returns [`Errno::ENOENT`].
fn check_search(fs: &TmpFS, proc: Option<&ProcessFs>, dir: &Entry) -> (r: Result<bool, Errno>)
    requires
        dir.wf(),
    ensures
        match stat_of(fs@, entry_node(dir@)) {
            None => r == Err::<bool, Errno>(Errno::ENOENT),
            Some(st) => r == Ok::<bool, Errno>(can_search(proc, st)),
        },
{
    match fs.stat(dir.node()) {
        None => Err(Errno::ENOENT),
        Some(st) => Ok(can_search_directory(proc, &st)),
    }
}

/// Resolves the symbolic link `link` and returns the target.
///
/// Arguments:
/// - `root` is the root directory
/// - `lookup_dir` is the directory from which the resolution of the target starts
/// - `symlink_rec` is the number of recursions so far
///
/// Symbolic links are followed recursively, including the last element of the target path. If
/// more than [`SYMLOOP_MAX`] links would be followed, the function returns [`Errno::ELOOP`].
pub fn resolve_link(
    fs: &TmpFS,
    proc: Option<&ProcessFs>,
    link: &Entry,
    root: &Entry,
    lookup_dir: &Entry,
    symlink_rec: usize,
) -> (r: Result<Entry, Errno>)
    requires
        link.wf(),
        root.wf(),
        lookup_dir.wf(),
    ensures
        match r {
            Ok(e) => e.wf() && follow(fs@, proc, root@, link@, lookup_dir@, symlink_rec as nat) == Ok::<
                EntryView,
                Errno,
            >(e@),
            Err(e) => follow(fs@, proc, root@, link@, lookup_dir@, symlink_rec as nat) == Err::<
                EntryView,
                Errno,
            >(e),
        },
    decreases SYMLOOP_MAX - symlink_rec, 0int,
{
    if symlink_rec >= SYMLOOP_MAX {
        return Err(Errno::ELOOP);
    }
    let target = readlink_node(fs, link.node())?;
    let rs = ResolutionSettings {
        root: root.duplicate(),
        cwd: Some(lookup_dir.duplicate()),
        create: false,
        follow_link: true,
    };
    let path = Path::new_unchecked(target.as_slice());
    let resolved = resolve_path_impl(fs, proc, path, &rs, symlink_rec + 1)?;
    match resolved {
        Resolved::Found(e) => Ok(e),
        Resolved::Creatable { .. } => Err(Errno::ENOENT),
    }
}

/// Implementation of [`resolve_path`].
///
/// `symlink_rec` is the number of recursions due to symbolic links resolution.
pub fn resolve_path_impl<'p>(
    fs: &TmpFS,
    proc: Option<&ProcessFs>,
    path: Path<'p>,
    settings: &ResolutionSettings,
    symlink_rec: usize,
) -> (r: Result<Resolved<'p>, Errno>)
    requires
        settings.wf(),
    ensures
        resolved_wf(r),
        resolved_view(r) == resolve_comps(
            fs@,
            proc,
            settings.root@,
            settings.start(path@),
            path@,
            settings.create,
            settings.follow_link,
            symlink_rec as nat,
        ),
    decreases SYMLOOP_MAX - symlink_rec, path@.len() + 2,
{
    let ghost s = path@;
    let ghost fsv = fs@;
    let ghost root = settings.root@;
    let ghost rec = symlink_rec as nat;
    let mut lookup_dir = match &settings.cwd {
        Some(start) => if !path.is_absolute() {
            start.duplicate()
        } else {
            settings.root.duplicate()
        },
        None => settings.root.duplicate(),
    };
    let ghost start = lookup_dir@;
    let mut components = path.components();
    let final_component = match components.next_back() {
        None => {
            return Ok(Resolved::Found(lookup_dir));
        },
        Some(c) => c,
    };
    let ghost b = components.back() as int;
    let ghost fc = final_component@;
    proof {
        lemma_next_bwd_progress(s, 0, s.len() as int);
    }
    loop
        invariant
            components.path()@ == s,
            components.back() == b,
            0 <= b <= s.len(),
            components.front() <= b,
            lookup_dir.wf(),
            settings.wf(),
            root == settings.root@,
            fsv == fs@,
            rec == symlink_rec,
            walk(fsv, proc, root, lookup_dir@, comps_fwd(s, components.front() as int, b), rec)
                == walk(fsv, proc, root, start, comps_fwd(s, 0, b), rec),
            next_bwd(s, 0, s.len() as int) == (Some(fc), b),
            s == path@,
            start == settings.start(s),
        ensures
            lookup_dir.wf(),
            walk(fsv, proc, root, start, comps_fwd(s, 0, b), rec) == Ok::<EntryView, Errno>(
                lookup_dir@,
            ),
        decreases b - components.front(),
    {
        let ghost f = components.front() as int;
        let ghost comps = comps_fwd(s, f, b);
        proof {
            lemma_comps_fwd_unfold(s, f, b);
            lemma_next_fwd_progress(s, f, b);
        }
        let comp = match components.next() {
            None => {
                assert(comps =~= Seq::<Seq<u8>>::empty());
                break ;
            },
            Some(c) => c,
        };
        let ghost rest = comps_fwd(s, components.front() as int, b);
        assert(comps[0] == comp@);
        assert(comps.drop_first() =~= rest);
        let can = check_search(fs, proc, &lookup_dir)?;
        if !can {
            return Err(Errno::EACCES);
        }
        match comp {
            Component::ParentDir => {
                lookup_dir.to_parent();
            },
            Component::Normal(name) => {
                let entry = resolve_entry(fs, &lookup_dir, name)?;
                let ino = match entry {
                    None => {
                        return Err(Errno::ENOENT);
                    },
                    Some(ino) => ino,
                };
                let t = node_type_of(fs, ino)?;
                match t {
                    FileType::Directory => {
                        lookup_dir.push(name, ino);
                    },
                    FileType::Link => {
                        let mut link = lookup_dir.duplicate();
                        link.push(name, ino);
                        let target = resolve_link(
                            fs,
                            proc,
                            &link,
                            &settings.root,
                            &lookup_dir,
                            symlink_rec,
                        )?;
                        lookup_dir = target;
                    },
                    _ => {
                        return Err(Errno::ENOTDIR);
                    },
                }
            },
            _ => {},
        }
    }
    let ghost dir = lookup_dir@;
    let name = match final_component {
        Component::RootDir | Component::CurDir => {
            return Ok(Resolved::Found(lookup_dir));
        },
        Component::ParentDir => {
            lookup_dir.to_parent();
            return Ok(Resolved::Found(lookup_dir));
        },
        Component::Normal(name) => name,
    };
    let can = check_search(fs, proc, &lookup_dir)?;
    if !can {
        return Err(Errno::EACCES);
    }
    let entry = resolve_entry(fs, &lookup_dir, name)?;
    let ino = match entry {
        None => {
            if settings.create {
                return Ok(Resolved::Creatable { parent: lookup_dir, name });
            } else {
                return Err(Errno::ENOENT);
            }
        },
        Some(ino) => ino,
    };
    let mut child = lookup_dir.duplicate();
    child.push(name, ino);
    if settings.follow_link {
        let t = node_type_of(fs, ino)?;
        if t == FileType::Link {
            let target = resolve_link(fs, proc, &child, &settings.root, &lookup_dir, symlink_rec)?;
            return Ok(Resolved::Found(target));
        }
    }
    Ok(Resolved::Found(child))
}

/// Resolves the given `path` with the given `settings`.
///
/// The following conditions can cause errors:
/// - If the path is empty, the function returns [`Errno::ENOMEM`].
/// - If a component of the path cannot be accessed with the provided access profile, the
///   function returns [`Errno::EACCES`].
/// - If a component of the path (excluding the last) is not a directory nor a symbolic link, the
///   function returns [`Errno::ENOTDIR`].
/// - If the resolution of the path requires more symbolic link indirections than
///   [`SYMLOOP_MAX`], the function returns [`Errno::ELOOP`].
pub fn resolve_path<'p>(
    fs: &TmpFS,
    proc: Option<&ProcessFs>,
    path: Path<'p>,
    settings: &ResolutionSettings,
) -> (r: Result<Resolved<'p>, Errno>)
    requires
        settings.wf(),
    ensures
        resolved_wf(r),
        path@.len() == 0 ==> r == Err::<Resolved<'p>, Errno>(Errno::ENOMEM),
        path@.len() != 0 ==> resolved_view(r) == resolve_comps(
            fs@,
            proc,
            settings.root@,
            settings.start(path@),
            path@,
            settings.create,
            settings.follow_link,
            0,
        ),
{
    if path.is_empty() {
        return Err(Errno::ENOMEM);
    }
    resolve_path_impl(fs, proc, path, settings, 0)
}

/// Like [`get_file_from_path`], but returns `None` if the file does not exist.
///
/// The resolution uses the settings of the current task (see [`ResolutionSettings::cur_task`]),
/// without creation.
pub fn get_file_from_path_opt(
    fs: &TmpFS,
    proc: Option<&ProcessFs>,
    task_dirs: Option<(&Entry, &Entry)>,
    vfs_root: &Entry,
    path: Path,
    follow_link: bool,
) -> (r: Result<Option<Entry>, Errno>)
    requires
        vfs_root.wf(),
        task_dirs matches Some((rt, c)) ==> rt.wf() && c.wf(),
    ensures
        ({
            let (root, cwd) = match task_dirs {
                Some((rt, c)) => (rt@, Some(c@)),
                None => (vfs_root@, None::<EntryView>),
            };
            let start = match cwd {
                Some(c) => if !path_is_absolute(path@) {
                    c
                } else {
                    root
                },
                None => root,
            };
            if path@.len() == 0 {
                r == Err::<Option<Entry>, Errno>(Errno::ENOMEM)
            } else {
                match resolve_comps(fs@, proc, root, start, path@, false, follow_link, 0) {
                    Ok(ResolvedView::Found(e)) => r matches Ok(Some(f)) && f.wf() && f@ == e,
                    Ok(ResolvedView::Creatable(_, _)) => r == Ok::<Option<Entry>, Errno>(None),
                    Err(e) => if e == Errno::ENOENT {
                        r == Ok::<Option<Entry>, Errno>(None)
                    } else {
                        r == Err::<Option<Entry>, Errno>(e)
                    },
                }
            }
        }),
{
    let rs = ResolutionSettings::cur_task(task_dirs, vfs_root, false, follow_link);
    match resolve_path(fs, proc, path, &rs) {
        Ok(Resolved::Found(file)) => Ok(Some(file)),
        Ok(Resolved::Creatable { .. }) => Ok(None),
        Err(e) => if e == Errno::ENOENT {
            Ok(None)
        } else {
            Err(e)
        },
    }
}

/// Returns the file at the given `path`.
///
/// If the file does not exist, the function returns [`Errno::ENOENT`].
pub fn get_file_from_path(
    fs: &TmpFS,
    proc: Option<&ProcessFs>,
    task_dirs: Option<(&Entry, &Entry)>,
    vfs_root: &Entry,
    path: Path,
    follow_link: bool,
) -> (r: Result<Entry, Errno>)
    requires
        vfs_root.wf(),
        task_dirs matches Some((rt, c)) ==> rt.wf() && c.wf(),
    ensures
        ({
            let (root, cwd) = match task_dirs {
                Some((rt, c)) => (rt@, Some(c@)),
                None => (vfs_root@, None::<EntryView>),
            };
            let start = match cwd {
                Some(c) => if !path_is_absolute(path@) {
                    c
                } else {
                    root
                },
                None => root,
            };
            if path@.len() == 0 {
                r == Err::<Entry, Errno>(Errno::ENOMEM)
            } else {
                match resolve_comps(fs@, proc, root, start, path@, false, follow_link, 0) {
                    Ok(ResolvedView::Found(e)) => r matches Ok(f) && f.wf() && f@ == e,
                    Ok(ResolvedView::Creatable(_, _)) => r == Err::<Entry, Errno>(Errno::ENOENT),
                    Err(e) => r == Err::<Entry, Errno>(e),
                }
            }
        }),
{
    match get_file_from_path_opt(fs, proc, task_dirs, vfs_root, path, follow_link)? {
        Some(e) => Ok(e),
        None => Err(Errno::ENOENT),
    }
}

/// The file that `path` designates, looked up as [`get_file_from_path`] does, following
/// symbolic links: from the directories of the task if any (its root, then its working
/// directory), else from the root of the VFS.
pub open spec fn file_at_path(
    fs: FsView,
    proc: Option<&ProcessFs>,
    root: EntryView,
    cwd: Option<EntryView>,
    path: Seq<u8>,
) -> Result<EntryView, Errno> {
    let start = match cwd {
        Some(c) => if !path_is_absolute(path) {
            c
        } else {
            root
        },
        None => root,
    };
    if path.len() == 0 {
        Err(Errno::ENOMEM)
    } else {
        match resolve_comps(fs, proc, root, start, path, false, true, 0) {
            Ok(ResolvedView::Found(e)) => Ok(e),
            Ok(ResolvedView::Creatable(_, _)) => Err(Errno::ENOENT),
            Err(e) => Err(e),
        }
    }
}

/// The maximum number of links to a file.
pub const LINK_MAX: usize = 127;
/// Rename flag: do not replace the destination if it exists.
pub const RENAME_NOREPLACE: i32 = 1;

/// The process may modify the entries of a directory with status `st`.
pub open spec fn can_write_dir(proc: Option<&ProcessFs>, st: Stat) -> bool {
    (privileged(proc) || process_bits_allow(proc, st, true, S_IWUSR, S_IWGRP, S_IWOTH)) && can_search(
        proc,
        st,
    )
}

/// Returns the access profile of the current process, given its filesystem information.
fn current_profile_of(proc: Option<&ProcessFs>) -> (ap: AccessProfile)
    ensures
        ap == profile_of(proc),
{
    AccessProfile::current(
        match proc {
            Some(f) => Some(f.ap),
            None => None,
        },
    )
}

/// The status of a file created by the process in a directory with status `parent`, from the
/// requested status `stat`: no link yet, owned by the process's effective user, and by the
/// directory's group if the directory has the set-group-ID bit, else by the process's effective
/// group.
pub open spec fn new_file_stat(proc: Option<&ProcessFs>, parent: Stat, stat: Stat) -> Stat {
    Stat {
        nlink: 0,
        uid: profile_of(proc).euid,
        gid: if parent.mode & S_ISGID != 0 {
            parent.gid
        } else {
            profile_of(proc).egid
        },
        ..stat
    }
}

/// The error with which the creation of a file in the directory `parent` is refused before
/// anything is done, if any.
pub open spec fn create_check(fs: FsView, proc: Option<&ProcessFs>, parent: EntryView) -> Option<
    Errno,
> {
    match stat_of(fs, entry_node(parent)) {
        None => Some(Errno::ENOENT),
        Some(ps) => if type_of_mode(ps.mode) != Some(FileType::Directory) {
            Some(Errno::ENOTDIR)
        } else if !can_write_dir(proc, ps) {
            Some(Errno::EACCES)
        } else {
            None
        },
    }
}

/// The outcome of creating a node with status `st` and linking it as `name` in the directory
/// `parent`, once the checks passed: the result (the new node's inode) and the filesystem after.
pub open spec fn create_and_link(
    fs: FsView,
    readonly: bool,
    parent: INode,
    name: Seq<u8>,
    st: Stat,
) -> (Result<INode, Errno>, FsView) {
    if readonly {
        (Err(Errno::EROFS), fs)
    } else if type_of_mode(st.mode) is None {
        (Err(Errno::EINVAL), fs)
    } else {
        let ino = first_free(fs);
        let v1 = place_node(fs, ino, NodeView { stat: st, content: empty_content(type_of_mode(st.mode)->0) });
        match link_error(false, v1, parent, name) {
            Some(e) => (Err(e), v1),
            None => (Ok(ino as INode), link_result(v1, parent, name, ino as INode)),
        }
    }
}

/// The creation of a node in the directory `parent` fits in the machine: one more node, one more
/// slot in the directory, and one more link to it if the node is a directory.
pub open spec fn create_fits(fs: FsView, parent: INode, st: Stat) -> bool {
    &&& fs.len() + 1 < usize::MAX
    &&& slots_at(fs, parent as int) matches Some(s) ==> s.len() + 1 < usize::MAX
    &&& type_of_mode(st.mode) == Some(FileType::Directory) ==> nlink_at(fs, parent as int) + 1
        <= u16::MAX
}

proof fn lemma_create_link_fits(fs: FsView, parent: INode, name: Seq<u8>, st: Stat)
    requires
        node_at(fs, parent as int) is Some,
        create_fits(fs, parent, st),
        type_of_mode(st.mode) is Some,
        st.nlink == 0,
    ensures
        ({
            let ino = first_free(fs);
            let v1 = place_node(fs, ino, NodeView { stat: st, content: empty_content(type_of_mode(st.mode)->0) });
            &&& is_first_free(fs, ino)
            &&& link_error(false, v1, parent, name) is None ==> link_fits(v1, parent, ino as INode)
        }),
{
    let ino = if exists|i: int| 0 <= i < fs.len() && fs[i] is None && forall|j: int| 0 <= j < i ==> #[trigger] fs[j] is Some {
        choose|i: int| 0 <= i < fs.len() && fs[i] is None && forall|j: int| 0 <= j < i ==> #[trigger] fs[j] is Some
    } else {
        fs.len() as int
    };
    if ino == fs.len() {
        assert forall|j: int| 0 <= j < fs.len() implies #[trigger] fs[j] is Some by {
            if fs[j] is None {
                lemma_first_none_exists(fs, j);
            }
        }
    }
    assert(is_first_free(fs, ino));
    lemma_first_free(fs, ino);
}

proof fn lemma_first_none_exists(fs: FsView, i: int)
    requires
        0 <= i < fs.len(),
        fs[i] is None,
    ensures
        exists|k: int| 0 <= k < fs.len() && fs[k] is None && forall|j: int| 0 <= j < k ==> #[trigger] fs[j] is Some,
    decreases i,
{
    if exists|j: int| 0 <= j < i && fs[j] is None {
        let j = choose|j: int| 0 <= j < i && fs[j] is None;
        lemma_first_none_exists(fs, j);
    } else {
        assert(forall|j: int| 0 <= j < i ==> #[trigger] fs[j] is Some);
    }
}

/// Creates a file named `name` in the directory `parent`, with the status `stat` but for its
/// links count, its owner and its group, which are set as [`new_file_stat`] says.
///
/// Errors:
/// - `parent` is not a directory: [`Errno::ENOTDIR`]
/// - the process may not write in `parent`: [`Errno::EACCES`]
/// - the file already exists: [`Errno::EEXIST`]
///
/// Other errors can be returned depending on the underlying filesystem.
pub fn create_file(
    fs: &mut TmpFS,
    proc: Option<&ProcessFs>,
    parent: &Entry,
    name: &[u8],
    stat: Stat,
) -> (r: Result<Entry, Errno>)
    requires
        old(fs).wf(),
        parent.wf(),
        create_fits(old(fs)@, entry_node(parent@), stat),
    ensures
        final(fs).wf(),
        final(fs).is_readonly() == old(fs).is_readonly(),
        match create_check(old(fs)@, proc, parent@) {
            Some(e) => r == Err::<Entry, Errno>(e) && final(fs)@ == old(fs)@,
            None => {
                let st = new_file_stat(proc, stat_of(old(fs)@, entry_node(parent@))->0, stat);
                let (res, after) = create_and_link(
                    old(fs)@,
                    old(fs).is_readonly(),
                    entry_node(parent@),
                    name@,
                    st,
                );
                &&& final(fs)@ == after
                &&& match res {
                    Ok(ino) => r matches Ok(e) && e.wf() && e@ == parent@.push((name@, ino)),
                    Err(err) => r == Err::<Entry, Errno>(err),
                }
            },
        },
{
    let parent_stat = match fs.stat(parent.node()) {
        Some(st) => st,
        None => {
            return Err(Errno::ENOENT);
        },
    };
    if FileType::from_mode(parent_stat.mode) != Some(FileType::Directory) {
        return Err(Errno::ENOTDIR);
    }
    if !can_write_directory(proc, &parent_stat) {
        return Err(Errno::EACCES);
    }
    let ap = current_profile_of(proc);
    let ghost stat0 = stat;
    let mut stat = stat;
    stat.nlink = 0;
    stat.uid = ap.euid;
    stat.gid = if parent_stat.mode & S_ISGID != 0 {
        parent_stat.gid
    } else {
        ap.egid
    };
    assert(stat == new_file_stat(proc, parent_stat, stat0));
    let node = fs.create_node(stat)?;
    proof {
        lemma_create_link_fits(old(fs)@, entry_node(parent@), name@, stat);
        lemma_first_free(old(fs)@, node as int);
    }
    fs.link(parent.node(), name, node)?;
    let mut ent = parent.duplicate();
    ent.push(name, node);
    Ok(ent)
}

/// The outcome of releasing the node `ino` once an entry to it is gone: the node is removed from
/// the filesystem if no link to it remains (one for a directory, its own `.` entry).
pub open spec fn release_result(fs: FsView, readonly: bool, ino: INode) -> (Result<(), Errno>, FsView) {
    match stat_of(fs, ino) {
        None => (Ok(()), fs),
        Some(st) => if (type_of_mode(st.mode) == Some(FileType::Directory) && st.nlink <= 1)
            || st.nlink == 0 {
            if readonly {
                (Err(Errno::EROFS), fs)
            } else {
                (Ok(()), fs.update(ino as int, None))
            }
        } else {
            (Ok(()), fs)
        },
    }
}

/// Releases the node `ino` once an entry to it is gone, removing it from the filesystem if no
/// link to it remains. The node is taken as no longer in use elsewhere.
pub fn release_node(fs: &mut TmpFS, ino: INode) -> (r: Result<(), Errno>)
    requires
        old(fs).wf(),
    ensures
        final(fs).wf(),
        final(fs).is_readonly() == old(fs).is_readonly(),
        (r, final(fs)@) == release_result(old(fs)@, old(fs).is_readonly(), ino),
{
    let st = match fs.stat(ino) {
        Some(st) => st,
        None => {
            return Ok(());
        },
    };
    let dir = FileType::from_mode(st.mode) == Some(FileType::Directory);
    if (dir && st.nlink <= 1) || st.nlink == 0 {
        fs.destroy_node(ino)?;
    }
    Ok(())
}

/// The error with which a hard link to the node `target` in the directory `parent` is refused
/// before anything is done, if any.
pub open spec fn link_check(fs: FsView, proc: Option<&ProcessFs>, parent: EntryView, target: INode) -> Option<
    Errno,
> {
    match stat_of(fs, entry_node(parent)) {
        None => Some(Errno::ENOENT),
        Some(ps) => if type_of_mode(ps.mode) != Some(FileType::Directory) {
            Some(Errno::ENOTDIR)
        } else {
            match stat_of(fs, target) {
                None => Some(Errno::ENOENT),
                Some(ts) => if type_of_mode(ts.mode) == Some(FileType::Directory) {
                    Some(Errno::EPERM)
                } else if ts.nlink >= LINK_MAX {
                    Some(Errno::EMLINK)
                } else if !can_write_dir(proc, ps) {
                    Some(Errno::EACCES)
                } else {
                    None
                },
            }
        },
    }
}

/// Creates a new hard link named `name` in the directory `parent` to the node `target`.
///
/// Errors:
/// - `parent` is not a directory: [`Errno::ENOTDIR`]
/// - `target` is a directory: [`Errno::EPERM`]
/// - the number of links to `target` is [`LINK_MAX`] or more: [`Errno::EMLINK`]
/// - the process may not write in `parent`: [`Errno::EACCES`]
///
/// Other errors can be returned depending on the underlying filesystem.
pub fn link(fs: &mut TmpFS, proc: Option<&ProcessFs>, parent: &Entry, name: &[u8], target: INode) -> (r: Result<
    (),
    Errno,
>)
    requires
        old(fs).wf(),
        parent.wf(),
        slots_at(old(fs)@, entry_node(parent@) as int) matches Some(s) ==> s.len() + 1 < usize::MAX,
    ensures
        final(fs).wf(),
        final(fs).is_readonly() == old(fs).is_readonly(),
        match link_check(old(fs)@, proc, parent@, target) {
            Some(e) => r == Err::<(), Errno>(e) && final(fs)@ == old(fs)@,
            None => match link_error(old(fs).is_readonly(), old(fs)@, entry_node(parent@), name@) {
                Some(e) => r == Err::<(), Errno>(e) && final(fs)@ == old(fs)@,
                None => r is Ok && final(fs)@ == link_result(
                    old(fs)@,
                    entry_node(parent@),
                    name@,
                    target,
                ),
            },
        },
{
    let parent_stat = match fs.stat(parent.node()) {
        Some(st) => st,
        None => {
            return Err(Errno::ENOENT);
        },
    };
    if FileType::from_mode(parent_stat.mode) != Some(FileType::Directory) {
        return Err(Errno::ENOTDIR);
    }
    let target_stat = match fs.stat(target) {
        Some(st) => st,
        None => {
            return Err(Errno::ENOENT);
        },
    };
    if FileType::from_mode(target_stat.mode) == Some(FileType::Directory) {
        return Err(Errno::EPERM);
    }
    if target_stat.nlink as usize >= LINK_MAX {
        return Err(Errno::EMLINK);
    }
    if !can_write_directory(proc, &parent_stat) {
        return Err(Errno::EACCES);
    }
    proof {
        fs.lemma_dir_kind(target as int);
    }
    fs.link(parent.node(), name, target)
}

/// The status of a symbolic link created by the process in a directory with status `parent`,
/// from the requested status `stat`: its mode is that of a link with all permissions, the rest as
/// [`new_file_stat`] says.
pub open spec fn symlink_stat(proc: Option<&ProcessFs>, parent: Stat, stat: Stat) -> Stat {
    Stat { mode: S_IFLNK | 0o777, ..new_file_stat(proc, parent, stat) }
}

/// The outcome of creating a symbolic link to `target` with status `st` and linking it as `name`
/// in the directory `parent`, once the checks passed.
pub open spec fn create_symlink(
    fs: FsView,
    readonly: bool,
    parent: INode,
    name: Seq<u8>,
    target: Seq<u8>,
    st: Stat,
) -> (Result<(), Errno>, FsView) {
    if readonly {
        (Err(Errno::EROFS), fs)
    } else {
        let ino = first_free(fs);
        let v1 = place_node(
            fs,
            ino,
            NodeView { stat: stat_with_size(st, target.len() as u64), content: ContentView::Link(target) },
        );
        match link_error(false, v1, parent, name) {
            Some(e) => (Err(e), v1),
            None => (Ok(()), link_result(v1, parent, name, ino as INode)),
        }
    }
}

/// Creates a symbolic link named `name` in the directory `parent`, pointing to `target`. The
/// link's status is `stat` but for its mode, links count, owner and group, which are set as
/// [`symlink_stat`] says.
///
/// Errors:
/// - `parent` is not a directory: [`Errno::ENOTDIR`]
/// - the process may not write in `parent`: [`Errno::EACCES`]
/// - the file already exists: [`Errno::EEXIST`]
///
/// Other errors can be returned depending on the underlying filesystem.
pub fn symlink(
    fs: &mut TmpFS,
    proc: Option<&ProcessFs>,
    parent: &Entry,
    name: &[u8],
    target: &[u8],
    stat: Stat,
) -> (r: Result<(), Errno>)
    requires
        old(fs).wf(),
        parent.wf(),
        create_fits(old(fs)@, entry_node(parent@), stat),
    ensures
        final(fs).wf(),
        final(fs).is_readonly() == old(fs).is_readonly(),
        match create_check(old(fs)@, proc, parent@) {
            Some(e) => r == Err::<(), Errno>(e) && final(fs)@ == old(fs)@,
            None => (r, final(fs)@) == create_symlink(
                old(fs)@,
                old(fs).is_readonly(),
                entry_node(parent@),
                name@,
                target@,
                symlink_stat(proc, stat_of(old(fs)@, entry_node(parent@))->0, stat),
            ),
        },
{
    let parent_stat = match fs.stat(parent.node()) {
        Some(st) => st,
        None => {
            return Err(Errno::ENOENT);
        },
    };
    if FileType::from_mode(parent_stat.mode) != Some(FileType::Directory) {
        return Err(Errno::ENOTDIR);
    }
    if !can_write_directory(proc, &parent_stat) {
        return Err(Errno::EACCES);
    }
    let ap = current_profile_of(proc);
    let ghost stat0 = stat;
    let mut stat = stat;
    stat.mode = S_IFLNK | 0o777;
    stat.nlink = 0;
    stat.uid = ap.euid;
    stat.gid = if parent_stat.mode & S_ISGID != 0 {
        parent_stat.gid
    } else {
        ap.egid
    };
    assert(stat == symlink_stat(proc, parent_stat, stat0));
    let m = stat.mode;
    assert(m & 0o770000 == 0o120000) by (bit_vector)
        requires
            m == 0o120000u32 | 0o777u32,
    ;
    let ghost v0 = fs@;
    let node = fs.create_node(stat)?;
    proof {
        lemma_create_link_fits(v0, entry_node(parent@), name@, stat);
        lemma_first_free(v0, node as int);
    }
    let ghost v1 = fs@;
    fs.writelink(node, target)?;
    proof {
        assert(fs@ =~= place_node(
            v0,
            node as int,
            NodeView { stat: stat_with_size(stat, target@.len() as u64), content: ContentView::Link(target@) },
        ));
    }
    fs.link(parent.node(), name, node)?;
    Ok(())
}

/// The error with which the removal of the entry `entry` is refused before anything is done, if
/// any.
pub open spec fn unlink_check(fs: FsView, proc: Option<&ProcessFs>, entry: EntryView) -> Option<
    Errno,
> {
    if entry.len() <= 1 {
        Some(Errno::EBUSY)
    } else {
        let parent = entry.drop_last();
        let euid = profile_of(proc).euid;
        match stat_of(fs, entry_node(parent)) {
            None => Some(Errno::ENOENT),
            Some(ps) => if type_of_mode(ps.mode) != Some(FileType::Directory) {
                Some(Errno::ENOTDIR)
            } else if !can_write_dir(proc, ps) {
                Some(Errno::EACCES)
            } else {
                match stat_of(fs, entry_node(entry)) {
                    None => Some(Errno::ENOENT),
                    Some(st) => if ps.mode & S_ISVTX != 0 && euid != st.uid && euid != ps.uid {
                        Some(Errno::EACCES)
                    } else {
                        None
                    },
                }
            },
        }
    }
}

/// Removes the hard link `entry`, then releases its node, which is removed from the filesystem
/// if no link to it remains.
///
/// Errors:
/// - `entry` is the root of the VFS: [`Errno::EBUSY`]
/// - the parent of `entry` is not a directory: [`Errno::ENOTDIR`]
/// - the process may not write in the parent, or the parent is sticky and the process owns
///   neither it nor the file: [`Errno::EACCES`]
///
/// Other errors can be returned depending on the underlying filesystem.
pub fn unlink(fs: &mut TmpFS, proc: Option<&ProcessFs>, entry: &Entry) -> (r: Result<(), Errno>)
    requires
        old(fs).wf(),
        entry.wf(),
        unlink_check(old(fs)@, proc, entry@) is None && unlink_error(
            old(fs).is_readonly(),
            old(fs)@,
            entry_node(entry@.drop_last()),
            entry@.last().0,
        ) is None ==> unlink_fits(old(fs)@, entry_node(entry@.drop_last()), entry@.last().0),
    ensures
        final(fs).wf(),
        final(fs).is_readonly() == old(fs).is_readonly(),
        match unlink_check(old(fs)@, proc, entry@) {
            Some(e) => r == Err::<(), Errno>(e) && final(fs)@ == old(fs)@,
            None => match unlink_error(
                old(fs).is_readonly(),
                old(fs)@,
                entry_node(entry@.drop_last()),
                entry@.last().0,
            ) {
                Some(e) => r == Err::<(), Errno>(e) && final(fs)@ == old(fs)@,
                None => (r, final(fs)@) == release_result(
                    unlink_result(old(fs)@, entry_node(entry@.drop_last()), entry@.last().0),
                    old(fs).is_readonly(),
                    entry_node(entry@),
                ),
            },
        },
{
    if !entry.has_parent() {
        return Err(Errno::EBUSY);
    }
    let parent_node = entry.parent_node();
    let parent_stat = match fs.stat(parent_node) {
        Some(st) => st,
        None => {
            return Err(Errno::ENOENT);
        },
    };
    if FileType::from_mode(parent_stat.mode) != Some(FileType::Directory) {
        return Err(Errno::ENOTDIR);
    }
    if !can_write_directory(proc, &parent_stat) {
        return Err(Errno::EACCES);
    }
    let stat = match fs.stat(entry.node()) {
        Some(st) => st,
        None => {
            return Err(Errno::ENOENT);
        },
    };
    let has_sticky_bit = parent_stat.mode & S_ISVTX != 0;
    let ap = current_profile_of(proc);
    if has_sticky_bit && ap.euid != stat.uid && ap.euid != parent_stat.uid {
        return Err(Errno::EACCES);
    }
    fs.unlink(parent_node, entry.name())?;
    release_node(fs, entry.node())
}

/// The outcome of the checks of a rename of `old` to the entry `new_name` of `new_parent`, if
/// they end it: with an error, or with success when source and destination are the same node.
pub open spec fn rename_check(
    fs: FsView,
    mounts: Seq<MountView>,
    mountpoint_id: u32,
    proc: Option<&ProcessFs>,
    old: EntryView,
    new_parent: EntryView,
    new_name: Seq<u8>,
    flags: i32,
) -> Option<Result<(), Errno>> {
    let euid = profile_of(proc).euid;
    if flags & (RENAME_NOREPLACE | RENAME_EXCHANGE) == RENAME_NOREPLACE | RENAME_EXCHANGE {
        Some(Err(Errno::EINVAL))
    } else if old.len() <= 1 {
        Some(Err(Errno::EBUSY))
    } else if mount_index(mounts, FileLocation { mountpoint_id, inode: entry_node(old) }) is Some {
        Some(Err(Errno::EBUSY))
    } else {
        match stat_of(fs, entry_node(old.drop_last())) {
            None => Some(Err(Errno::ENOENT)),
            Some(ops) => if !can_write_dir(proc, ops) {
                Some(Err(Errno::EACCES))
            } else {
                match stat_of(fs, entry_node(old)) {
                    None => Some(Err(Errno::ENOENT)),
                    Some(os) => if os.mode & S_ISVTX != 0 && euid != os.uid && euid != ops.uid {
                        Some(Err(Errno::EACCES))
                    } else {
                        match stat_of(fs, entry_node(new_parent)) {
                            None => Some(Err(Errno::ENOENT)),
                            Some(nps) => if !can_write_dir(proc, nps) {
                                Some(Err(Errno::EACCES))
                            } else {
                                match fs_lookup(fs, entry_node(new_parent), new_name) {
                                    Err(e) => Some(Err(e)),
                                    Ok(Some(t)) => if flags & RENAME_NOREPLACE != 0 {
                                        Some(Err(Errno::EEXIST))
                                    } else if mount_index(
                                        mounts,
                                        FileLocation { mountpoint_id, inode: t },
                                    ) is Some {
                                        Some(Err(Errno::EBUSY))
                                    } else if t == entry_node(old) {
                                        Some(Ok(()))
                                    } else {
                                        match stat_of(fs, t) {
                                            None => Some(Err(Errno::ENOENT)),
                                            Some(ns) => if ns.mode & S_ISVTX != 0 && euid != ns.uid
                                                && euid != nps.uid {
                                                Some(Err(Errno::EACCES))
                                            } else if type_of_mode(os.mode) == Some(
                                                FileType::Directory,
                                            ) && type_of_mode(ns.mode) != Some(
                                                FileType::Directory,
                                            ) {
                                                Some(Err(Errno::EISDIR))
                                            } else {
                                                None
                                            },
                                        }
                                    },
                                    Ok(None) => if flags & RENAME_EXCHANGE != 0 {
                                        Some(Err(Errno::ENOENT))
                                    } else {
                                        None
                                    },
                                }
                            },
                        }
                    },
                }
            },
        }
    }
}

/// The outcome of a rename that passed the checks: the filesystem's rename, then the release of
/// the node the destination pointed to, if any.
pub open spec fn rename_outcome(
    fs: FsView,
    readonly: bool,
    old: EntryView,
    new_parent: EntryView,
    new_name: Seq<u8>,
    flags: i32,
) -> (Result<(), Errno>, FsView) {
    let new_in_old = is_strict_prefix(old, new_parent.push((new_name, 0)));
    match rename_error(readonly, fs, entry_node(new_parent), new_in_old) {
        Some(e) => (Err(e), fs),
        None => {
            let (r1, v1) = rename_result(
                fs,
                entry_node(old.drop_last()),
                old.last().0,
                entry_node(new_parent),
                new_name,
                flags,
            );
            if r1 is Err {
                (r1, v1)
            } else {
                match fs_lookup(fs, entry_node(new_parent), new_name) {
                    Ok(Some(t)) => release_result(v1, readonly, t),
                    _ => (Ok(()), v1),
                }
            }
        },
    }
}

/// Moves the file `old_entry` to the entry `new_name` of the directory `new_parent`, on the
/// same filesystem, then releases the node the destination pointed to, if any. `mounts` holds the
/// mountpoints, and `mountpoint_id` is the mountpoint of the filesystem `fs`.
///
/// If `old_entry` is a directory, the destination shall not exist or be a directory.
///
/// Errors:
/// - both [`RENAME_NOREPLACE`] and [`RENAME_EXCHANGE`] are in `flags`: [`Errno::EINVAL`]
/// - `old_entry` is the root of the VFS, or a file on which a filesystem of `mounts` is mounted,
///   or so is the destination: [`Errno::EBUSY`]
/// - the process may not write in a parent, or a sticky file is owned neither by the process nor
///   by the owner of its parent: [`Errno::EACCES`]
/// - the destination exists and [`RENAME_NOREPLACE`] is set: [`Errno::EEXIST`]
/// - the destination does not exist and [`RENAME_EXCHANGE`] is set: [`Errno::ENOENT`]
/// - `old_entry` is a directory and the destination is not: [`Errno::EISDIR`]
/// - the destination lies inside `old_entry`: [`Errno::EINVAL`]
///
/// If source and destination are the same file, the function does nothing.
///
/// Other errors can be returned depending on the underlying filesystem.
pub fn rename(
    fs: &mut TmpFS,
    mounts: &MountPoints,
    mountpoint_id: u32,
    proc: Option<&ProcessFs>,
    old_entry: &Entry,
    new_parent: &Entry,
    new_name: &[u8],
    flags: i32,
) -> (r: Result<(), Errno>)
    requires
        old(fs).wf(),
        old_entry.wf(),
        new_parent.wf(),
        mounts.wf(),
        rename_check(old(fs)@, mounts.mounts(), mountpoint_id, proc, old_entry@, new_parent@, new_name@, flags) is None
            && !old(fs).is_readonly() ==> slots_at(old(fs)@, entry_node(old_entry@.drop_last()) as int)
            is Some && rename_fits(
            old(fs)@,
            entry_node(old_entry@.drop_last()),
            old_entry@.last().0,
            entry_node(new_parent@),
            new_name@,
        ),
    ensures
        final(fs).wf(),
        final(fs).is_readonly() == old(fs).is_readonly(),
        match rename_check(old(fs)@, mounts.mounts(), mountpoint_id, proc, old_entry@, new_parent@, new_name@, flags) {
            Some(res) => r == res && final(fs)@ == old(fs)@,
            None => (r, final(fs)@) == rename_outcome(
                old(fs)@,
                old(fs).is_readonly(),
                old_entry@,
                new_parent@,
                new_name@,
                flags,
            ),
        },
{
    if flags & (RENAME_NOREPLACE | RENAME_EXCHANGE) == RENAME_NOREPLACE | RENAME_EXCHANGE {
        return Err(Errno::EINVAL);
    }
    if !old_entry.has_parent() {
        return Err(Errno::EBUSY);
    }
    if mounts.from_location(&FileLocation { mountpoint_id, inode: old_entry.node() }).is_some() {
        return Err(Errno::EBUSY);
    }
    let old_parent_node = old_entry.parent_node();
    let old_parent_stat = match fs.stat(old_parent_node) {
        Some(st) => st,
        None => {
            return Err(Errno::ENOENT);
        },
    };
    if !can_write_directory(proc, &old_parent_stat) {
        return Err(Errno::EACCES);
    }
    let old_stat = match fs.stat(old_entry.node()) {
        Some(st) => st,
        None => {
            return Err(Errno::ENOENT);
        },
    };
    let ap = current_profile_of(proc);
    if old_stat.mode & S_ISVTX != 0 && ap.euid != old_stat.uid && ap.euid != old_parent_stat.uid {
        return Err(Errno::EACCES);
    }
    let new_parent_stat = match fs.stat(new_parent.node()) {
        Some(st) => st,
        None => {
            return Err(Errno::ENOENT);
        },
    };
    if !can_write_directory(proc, &new_parent_stat) {
        return Err(Errno::EACCES);
    }
    let new_entry = resolve_entry(fs, new_parent, new_name)?;
    match new_entry {
        Some(new_node) => {
            if flags & RENAME_NOREPLACE != 0 {
                return Err(Errno::EEXIST);
            }
            if mounts.from_location(&FileLocation { mountpoint_id, inode: new_node }).is_some() {
                return Err(Errno::EBUSY);
            }
            if new_node == old_entry.node() {
                return Ok(());
            }
            let new_stat = match fs.stat(new_node) {
                Some(st) => st,
                None => {
                    return Err(Errno::ENOENT);
                },
            };
            if new_stat.mode & S_ISVTX != 0 && ap.euid != new_stat.uid && ap.euid
                != new_parent_stat.uid {
                return Err(Errno::EACCES);
            }
            if FileType::from_mode(old_stat.mode) == Some(FileType::Directory) && FileType::from_mode(
                new_stat.mode,
            ) != Some(FileType::Directory) {
                return Err(Errno::EISDIR);
            }
        },
        None => {
            if flags & RENAME_EXCHANGE != 0 {
                return Err(Errno::ENOENT);
            }
        },
    }
    let mut dest = new_parent.duplicate();
    dest.push(new_name, 0);
    let new_in_old = dest.is_child_of(old_entry);
    fs.rename(old_parent_node, old_entry.name(), new_parent.node(), new_name, flags, new_in_old)?;
    match new_entry {
        Some(new_node) => release_node(fs, new_node),
        None => Ok(()),
    }
}

/// Resolving `/` gives the root of the resolution.
pub proof fn lemma_resolve_root(
    fs: FsView,
    proc: Option<&ProcessFs>,
    root: EntryView,
    create: bool,
    follow_link: bool,
    rec: nat,
)
    ensures
        resolve_comps(fs, proc, root, root, root_bytes(), create, follow_link, rec) == Ok::<
            ResolvedView,
            Errno,
        >(ResolvedView::Found(root)),
{
    let s = root_bytes();
    assert(next_bwd(s, 0, 1) == (Some(root_bytes()), 0int));
    assert(comps_fwd(s, 0, 0) =~= Seq::<Seq<u8>>::empty());
}

proof fn lemma_run_bwd_name(s: Seq<u8>, b: int)
    requires
        0 <= b <= s.len(),
        forall|i: int| 0 <= i < s.len() ==> s[i] != PATH_SEPARATOR,
    ensures
        crate::path::run_bwd(s, 0, b) == b,
    decreases b,
{
    if b > 0 {
        lemma_run_bwd_name(s, b - 1);
    }
}

/// Resolving a single name from a directory the process may search gives the entry of that
/// name, when the name is not `.` or `..` and the entry exists and is not a symbolic link to
/// follow.
pub proof fn lemma_resolve_name(
    fs: FsView,
    proc: Option<&ProcessFs>,
    root: EntryView,
    dir: EntryView,
    name: Seq<u8>,
    ino: INode,
    create: bool,
    follow_link: bool,
    rec: nat,
)
    requires
        name.len() > 0,
        forall|i: int| 0 <= i < name.len() ==> name[i] != PATH_SEPARATOR,
        name != cur_dir(),
        name != parent_dir(),
        stat_of(fs, entry_node(dir)) matches Some(st) && can_search(proc, st),
        fs_lookup(fs, entry_node(dir), name) == Ok::<Option<INode>, Errno>(Some(ino)),
        stat_of(fs, ino) matches Some(cs) && (follow_link ==> type_of_mode(cs.mode) is Some
            && type_of_mode(cs.mode) != Some(FileType::Link)),
    ensures
        resolve_comps(fs, proc, root, dir, name, create, follow_link, rec) == Ok::<
            ResolvedView,
            Errno,
        >(ResolvedView::Found(dir.push((name, ino)))),
{
    lemma_run_bwd_name(name, name.len() as int);
    assert(name.subrange(0, name.len() as int) =~= name);
    assert(next_bwd(name, 0, name.len() as int) == (Some(name), 0int));
    assert(comps_fwd(name, 0, 0) =~= Seq::<Seq<u8>>::empty());
    assert(name != root_bytes()) by {
        if name == root_bytes() {
            assert(name[0] == PATH_SEPARATOR);
        }
    }
}


/// Changes the status of the node `ino` with `set` (see [`apply_stat_set`]), for the process
/// whose filesystem information is `proc` (the kernel if `None`).
///
/// Errors:
/// - the node does not exist: [`Errno::ENOENT`]
/// - the process may not change the permissions of the node: [`Errno::EPERM`]
pub fn set_stat(fs: &mut TmpFS, proc: Option<&ProcessFs>, ino: INode, set: &StatSet) -> (r: Result<(), Errno>)
    requires
        old(fs).wf(),
    ensures
        final(fs).wf(),
        final(fs).is_readonly() == old(fs).is_readonly(),
        match node_at(old(fs)@, ino as int) {
            None => r == Err::<(), Errno>(Errno::ENOENT) && final(fs)@ == old(fs)@,
            Some(n) => if !(profile_of(proc).uid == ROOT_UID || profile_of(proc).uid == n.stat.uid) {
                r == Err::<(), Errno>(Errno::EPERM) && final(fs)@ == old(fs)@
            } else {
                r is Ok && final(fs)@ == old(fs)@.update(
                    ino as int,
                    Some(NodeView { stat: apply_stat_set(n.stat, *set), content: n.content }),
                )
            },
        },
{
    let stat = match fs.stat(ino) {
        Some(st) => st,
        None => {
            return Err(Errno::ENOENT);
        },
    };
    if !can_set_file_permissions(proc, &stat) {
        return Err(Errno::EPERM);
    }
    fs.set_stat(ino, set)
}

} // verus!
