//! A mountpoint is a directory in which a filesystem is mounted.
//!
//! Filesystems are loaded once per source: mountpoints of the same source share its
//! filesystem, which is counted by references and unloaded with its last mountpoint.
//! Filesystems are designated here by handles, given by whoever loads them.
use crate::errno::Errno;
use crate::file::{DeviceType, FileLocation, FileType};
use crate::path::{Path, PATH_MAX};
use vstd::prelude::*;

verus! {

/// Mount flag: Mandatory locking.
pub const FLAG_MANDLOCK: u32 = 0b000000000001;
/// Mount flag: Doesn't update access time.
pub const FLAG_NOATIME: u32 = 0b000000000010;
/// Mount flag: Doesn't allow access to device files.
pub const FLAG_NODEV: u32 = 0b000000000100;
/// Mount flag: Doesn't update directory access time.
pub const FLAG_NODIRATIME: u32 = 0b000000001000;
/// Mount flag: Doesn't allow execution of programs.
pub const FLAG_NOEXEC: u32 = 0b000000010000;
/// Mount flag: Ignores set-user-ID and set-group-ID bits.
pub const FLAG_NOSUID: u32 = 0b000000100000;
/// Mount flag: Read-only.
pub const FLAG_RDONLY: u32 = 0b000001000000;
/// Mount flag: Recursive bind mount.
pub const FLAG_REC: u32 = 0b000010000000;
/// Mount flag: Updates access time relative to modification time.
pub const FLAG_RELATIME: u32 = 0b000100000000;
/// Mount flag: Suppresses warnings.
pub const FLAG_SILENT: u32 = 0b001000000000;
/// Mount flag: Always updates access time.
pub const FLAG_STRICTATIME: u32 = 0b010000000000;
/// Mount flag: Makes writes synchronous.
pub const FLAG_SYNCHRONOUS: u32 = 0b100000000000;

/// The source of a mountpoint.
#[derive(Debug)]
pub enum MountSource {
    /// The mountpoint is mounted from a device.
    Device {
        /// The device type.
        dev_type: DeviceType,
        /// The major number.
        major: u32,
        /// The minor number.
        minor: u32,
    },
    /// The mountpoint is bound to a virtual device, named by the string.
    NoDev(Vec<u8>),
}

/// The abstract content of a [`MountSource`].
pub enum SourceView {
    /// See [`MountSource::Device`].
    Device(DeviceType, u32, u32),
    /// See [`MountSource::NoDev`].
    NoDev(Seq<u8>),
}

impl MountSource {
    /// The abstract content of the source.
    pub open spec fn view(&self) -> SourceView {
        match self {
            MountSource::Device { dev_type, major, minor } => SourceView::Device(*dev_type, *major, *minor),
            MountSource::NoDev(s) => SourceView::NoDev(s@),
        }
    }

    /// Creates a source from the string `string`, given what the lookup of the file at the
    /// path `string` found: its type and device numbers, or the error of the lookup.
    ///
    /// A device file gives a device source; a missing file, a virtual device named by the
    /// string. Other files are invalid sources, and other errors of the lookup are returned.
    ///
    /// If the string is too long to be a path, the function returns [`Errno::ENAMETOOLONG`].
    pub fn new(string: &[u8], found: Result<(FileType, u32, u32), Errno>) -> (r: Result<Self, Errno>)
        ensures
            string@.len() > PATH_MAX ==> r == Err::<Self, Errno>(Errno::ENAMETOOLONG),
            string@.len() <= PATH_MAX ==> match found {
                Ok((FileType::BlockDevice, major, minor)) => r matches Ok(s) && s@ == SourceView::Device(
                    DeviceType::Block,
                    major,
                    minor,
                ),
                Ok((FileType::CharDevice, major, minor)) => r matches Ok(s) && s@ == SourceView::Device(
                    DeviceType::Char,
                    major,
                    minor,
                ),
                Ok(_) => r == Err::<Self, Errno>(Errno::EINVAL),
                Err(Errno::ENOENT) => r matches Ok(s) && s@ == SourceView::NoDev(string@),
                Err(e) => r == Err::<Self, Errno>(e),
            },
    {
        let _path = Path::new(string)?;
        match found {
            Ok((FileType::BlockDevice, major, minor)) => Ok(MountSource::Device { dev_type: DeviceType::Block, major, minor }),
            Ok((FileType::CharDevice, major, minor)) => Ok(MountSource::Device { dev_type: DeviceType::Char, major, minor }),
            Ok(_) => Err(Errno::EINVAL),
            Err(Errno::ENOENT) => Ok(MountSource::NoDev(crate::procfs::bytes_to_vec(string))),
            Err(e) => Err(e),
        }
    }

    /// Returns a copy of the source.
    pub fn try_clone(&self) -> (r: Self)
        ensures
            r@ == self@,
    {
        match self {
            MountSource::Device { dev_type, major, minor } => MountSource::Device {
                dev_type: *dev_type,
                major: *major,
                minor: *minor,
            },
            MountSource::NoDev(s) => MountSource::NoDev(crate::procfs::bytes_to_vec(s.as_slice())),
        }
    }

    /// Tells whether the two sources are the same.
    pub fn eq(&self, other: &Self) -> (b: bool)
        ensures
            b == (self@ == other@),
    {
        match (self, other) {
            (
                MountSource::Device { dev_type: t1, major: a1, minor: b1 },
                MountSource::Device { dev_type: t2, major: a2, minor: b2 },
            ) => *t1 == *t2 && *a1 == *a2 && *b1 == *b2,
            (MountSource::NoDev(s1), MountSource::NoDev(s2)) => crate::net::bytes_eq(s1.as_slice(), s2.as_slice()),
            _ => false,
        }
    }
}

/// A loaded filesystem, with the number of mountpoints using it.
#[derive(Debug)]
pub struct LoadedFS {
    /// The source the filesystem is loaded from.
    pub source: MountSource,
    /// The number of mountpoints using the filesystem.
    pub ref_count: usize,
    /// The handle of the filesystem.
    pub fs: u32,
    /// The name of the type of the filesystem.
    pub name: Vec<u8>,
}

/// The abstract content of a [`LoadedFS`].
pub struct LoadedView {
    /// See [`LoadedFS::source`].
    pub source: SourceView,
    /// See [`LoadedFS::ref_count`].
    pub ref_count: nat,
    /// See [`LoadedFS::fs`].
    pub fs: u32,
    /// See [`LoadedFS::name`].
    pub name: Seq<u8>,
}

/// A mountpoint.
#[derive(Debug)]
pub struct MountPoint {
    /// The ID of the mountpoint.
    id: u32,
    /// Mount flags.
    flags: u32,
    /// The source of the mountpoint.
    source: MountSource,
    /// The handle of the mounted filesystem.
    fs: u32,
    /// The name of the type of the mounted filesystem.
    fs_type_name: Vec<u8>,
    /// The path to the directory in which the filesystem is mounted.
    target_path: Vec<u8>,
    /// The location of the directory in which the filesystem is mounted.
    target_location: FileLocation,
}

/// The abstract content of a [`MountPoint`].
pub struct MountView {
    /// The ID of the mountpoint.
    pub id: u32,
    /// Mount flags.
    pub flags: u32,
    /// The source of the mountpoint.
    pub source: SourceView,
    /// The handle of the mounted filesystem.
    pub fs: u32,
    /// The name of the type of the mounted filesystem.
    pub fs_type_name: Seq<u8>,
    /// The path to the directory in which the filesystem is mounted.
    pub target_path: Seq<u8>,
    /// The location of the directory in which the filesystem is mounted.
    pub target_location: FileLocation,
}

impl MountPoint {
    /// The abstract content of the mountpoint.
    pub closed spec fn view(&self) -> MountView {
        MountView {
            id: self.id,
            flags: self.flags,
            source: self.source@,
            fs: self.fs,
            fs_type_name: self.fs_type_name@,
            target_path: self.target_path@,
            target_location: self.target_location,
        }
    }

    /// Returns the ID of the mountpoint.
    pub fn get_id(&self) -> (id: u32)
        ensures
            id == self@.id,
    {
        self.id
    }

    /// Returns the mount flags.
    pub fn get_flags(&self) -> (f: u32)
        ensures
            f == self@.flags,
    {
        self.flags
    }

    /// Tells whether the mountpoint is mounted as read-only.
    pub fn is_readonly(&self) -> (b: bool)
        ensures
            b == (self@.flags & FLAG_RDONLY != 0),
    {
        self.flags & FLAG_RDONLY != 0
    }

    /// Returns the source of the mountpoint.
    pub fn get_source(&self) -> (s: &MountSource)
        ensures
            s@ == self@.source,
    {
        &self.source
    }

    /// Returns the handle of the mounted filesystem.
    pub fn get_filesystem(&self) -> (fs: u32)
        ensures
            fs == self@.fs,
    {
        self.fs
    }

    /// Returns the name of the type of the mounted filesystem.
    pub fn get_filesystem_type(&self) -> (n: &Vec<u8>)
        ensures
            n@ == self@.fs_type_name,
    {
        &self.fs_type_name
    }

    /// Returns the path to the directory in which the filesystem is mounted.
    pub fn get_target_path(&self) -> (p: &Vec<u8>)
        ensures
            p@ == self@.target_path,
    {
        &self.target_path
    }

    /// Returns the location of the directory in which the filesystem is mounted.
    pub fn get_target_location(&self) -> (l: &FileLocation)
        ensures
            *l == self@.target_location,
    {
        &self.target_location
    }
}

/// The index of the filesystem loaded from `source` in `fss`, if any.
pub open spec fn fs_index(fss: Seq<LoadedView>, source: SourceView) -> Option<int> {
    if exists|k: int| 0 <= k < fss.len() && fss[k].source == source {
        Some(choose|k: int| 0 <= k < fss.len() && fss[k].source == source)
    } else {
        None
    }
}

/// The index of the mountpoint at `loc` in `ms`, if any.
pub open spec fn mount_index(ms: Seq<MountView>, loc: FileLocation) -> Option<int> {
    if exists|i: int| 0 <= i < ms.len() && ms[i].target_location == loc {
        Some(choose|i: int| 0 <= i < ms.len() && ms[i].target_location == loc)
    } else {
        None
    }
}

/// The ID given to the next mountpoint after the mountpoints `ms`: one more than the greatest
/// ID, or `0` if there is no mountpoint.
pub open spec fn next_id(ms: Seq<MountView>) -> nat
    decreases ms.len(),
{
    if ms.len() == 0 {
        0
    } else {
        let n = next_id(ms.drop_last());
        let m = ms.last().id + 1;
        if n < m {
            m as nat
        } else {
            n
        }
    }
}

/// The next ID after a prefix of mountpoints is at most the next ID after all of them.
proof fn lemma_next_id_prefix(ms: Seq<MountView>, k: int)
    requires
        0 <= k <= ms.len(),
    ensures
        next_id(ms.take(k)) <= next_id(ms),
    decreases ms.len(),
{
    if k < ms.len() {
        assert(ms.drop_last().take(k) =~= ms.take(k));
        lemma_next_id_prefix(ms.drop_last(), k);
    } else {
        assert(ms.take(k) =~= ms);
    }
}

/// No source is loaded twice in `fss`, no location is mounted twice in `ms`, and every loaded
/// filesystem is referenced.
pub open spec fn views_wf(fss: Seq<LoadedView>, ms: Seq<MountView>) -> bool {
    &&& forall|a: int, b: int|
        0 <= a < fss.len() && 0 <= b < fss.len() && a != b ==> #[trigger] fss[a].source != #[trigger] fss[b].source
    &&& forall|a: int, b: int|
        0 <= a < ms.len() && 0 <= b < ms.len() && a != b ==> #[trigger] ms[a].target_location
            != #[trigger] ms[b].target_location
    &&& forall|k: int| 0 <= k < fss.len() ==> #[trigger] fss[k].ref_count >= 1
}

/// The mountpoint created with the ID `id`, the flags `flags`, from `source`, on the filesystem
/// `fs` of type `name`, at the path `path` and the location `loc`.
pub open spec fn new_mount(
    id: nat,
    flags: u32,
    source: SourceView,
    fs: u32,
    name: Seq<u8>,
    path: Seq<u8>,
    loc: FileLocation,
) -> MountView {
    MountView { id: id as u32, flags, source, fs, fs_type_name: name, target_path: path, target_location: loc }
}

/// The outcome `r` of the creation of a mountpoint at `loc`, from the filesystems `fss0` and
/// mountpoints `ms0` to `fss1` and `ms1`: a location is mounted once; the filesystem of the
/// source is shared if loaded, else the one that `loaded` holds (the outcome of loading it)
/// is added with one reference.
pub open spec fn create_outcome(
    fss0: Seq<LoadedView>,
    ms0: Seq<MountView>,
    source: SourceView,
    flags: u32,
    path: Seq<u8>,
    loc: FileLocation,
    loaded: Result<(u32, Seq<u8>), Errno>,
    fss1: Seq<LoadedView>,
    ms1: Seq<MountView>,
    r: Result<u32, Errno>,
) -> bool {
    let id = next_id(ms0);
    match mount_index(ms0, loc) {
        Some(_) => r == Err::<u32, Errno>(Errno::EINVAL) && fss1 == fss0 && ms1 == ms0,
        None => match fs_index(fss0, source) {
            Some(k) => {
                &&& r == Ok::<u32, Errno>(id as u32)
                &&& fss1 == fss0.update(k, LoadedView { ref_count: fss0[k].ref_count + 1, ..fss0[k] })
                &&& ms1 == ms0.push(new_mount(id, flags, source, fss0[k].fs, fss0[k].name, path, loc))
            },
            None => match loaded {
                Err(e) => r == Err::<u32, Errno>(e) && fss1 == fss0 && ms1 == ms0,
                Ok((fs, name)) => {
                    &&& r == Ok::<u32, Errno>(id as u32)
                    &&& fss1 == fss0.push(LoadedView { source, ref_count: 1, fs, name })
                    &&& ms1 == ms0.push(new_mount(id, flags, source, fs, name, path, loc))
                },
            },
        },
    }
}

/// The outcome `r` of the removal of the mountpoint at `loc`, from the filesystems `fss0` and
/// mountpoints `ms0` to `fss1` and `ms1`: the mountpoint is removed and its filesystem released,
/// or, if none is mounted there, the function fails with `EINVAL`.
pub open spec fn remove_outcome(
    fss0: Seq<LoadedView>,
    ms0: Seq<MountView>,
    loc: FileLocation,
    fss1: Seq<LoadedView>,
    ms1: Seq<MountView>,
    r: Result<(), Errno>,
) -> bool {
    match mount_index(ms0, loc) {
        None => r == Err::<(), Errno>(Errno::EINVAL) && fss1 == fss0 && ms1 == ms0,
        Some(i) => r == Ok::<(), Errno>(()) && ms1 == ms0.remove(i) && fss1 == release_fs(fss0, ms0[i].source),
    }
}

/// The abstract content of the outcome of loading a filesystem.
pub open spec fn loaded_view(l: Result<(u32, Vec<u8>), Errno>) -> Result<(u32, Seq<u8>), Errno> {
    match l {
        Ok((fs, name)) => Ok((fs, name@)),
        Err(e) => Err(e),
    }
}

/// The filesystems `fss` after releasing the one loaded from `source`: it loses a reference,
/// and is unloaded with its last one.
pub open spec fn release_fs(fss: Seq<LoadedView>, source: SourceView) -> Seq<LoadedView> {
    match fs_index(fss, source) {
        Some(k) => if fss[k].ref_count <= 1 {
            fss.remove(k)
        } else {
            fss.update(k, LoadedView { ref_count: (fss[k].ref_count - 1) as nat, ..fss[k] })
        },
        None => fss,
    }
}

/// The mountpoints and the loaded filesystems.
#[derive(Debug)]
pub struct MountPoints {
    /// The loaded filesystems.
    filesystems: Vec<LoadedFS>,
    /// The mountpoints.
    mount_points: Vec<MountPoint>,
}

impl MountPoints {
    /// The loaded filesystems.
    pub closed spec fn filesystems(&self) -> Seq<LoadedView> {
        self.filesystems@.map_values(
            |f: LoadedFS| LoadedView { source: f.source@, ref_count: f.ref_count as nat, fs: f.fs, name: f.name@ },
        )
    }

    /// The mountpoints.
    pub closed spec fn mounts(&self) -> Seq<MountView> {
        self.mount_points@.map_values(|m: MountPoint| m@)
    }

    /// The mountpoints and filesystems are consistent: see [`views_wf`].
    pub open spec fn wf(&self) -> bool {
        views_wf(self.filesystems(), self.mounts())
    }

    /// Creates an empty list.
    pub fn new() -> (m: Self)
        ensures
            m.wf(),
            m.filesystems().len() == 0,
            m.mounts().len() == 0,
    {
        let m = MountPoints { filesystems: Vec::new(), mount_points: Vec::new() };
        assert(m.filesystems() =~= Seq::<LoadedView>::empty());
        assert(m.mounts() =~= Seq::<MountView>::empty());
        m
    }

    /// Returns the index of the filesystem loaded from `source`, if any.
    fn find_fs(&self, source: &MountSource) -> (r: Option<usize>)
        requires
            self.wf(),
        ensures
            match r {
                Some(k) => fs_index(self.filesystems(), source@) == Some(k as int),
                None => fs_index(self.filesystems(), source@) is None,
            },
    {
        let mut k: usize = 0;
        while k < self.filesystems.len()
            invariant
                self.wf(),
                k <= self.filesystems().len(),
                self.filesystems().len() == self.filesystems@.len(),
                forall|j: int| 0 <= j < k ==> (#[trigger] self.filesystems()[j]).source != source@,
            decreases self.filesystems@.len() - k,
        {
            assert(self.filesystems()[k as int].source == self.filesystems@[k as int].source@);
            if self.filesystems[k].source.eq(source) {
                proof {
                    let c = choose|c: int|
                        0 <= c < self.filesystems().len() && self.filesystems()[c].source == source@;
                    if c != k {
                        assert(self.filesystems()[c].source != self.filesystems()[k as int].source);
                    }
                }
                return Some(k);
            }
            k += 1;
        }
        None
    }

    /// Returns the index of the mountpoint at `loc`, if any.
    fn find_mount(&self, loc: &FileLocation) -> (r: Option<usize>)
        requires
            self.wf(),
        ensures
            match r {
                Some(i) => mount_index(self.mounts(), *loc) == Some(i as int),
                None => mount_index(self.mounts(), *loc) is None,
            },
    {
        let mut i: usize = 0;
        while i < self.mount_points.len()
            invariant
                self.wf(),
                i <= self.mounts().len(),
                self.mounts().len() == self.mount_points@.len(),
                forall|j: int| 0 <= j < i ==> (#[trigger] self.mounts()[j]).target_location != *loc,
            decreases self.mount_points@.len() - i,
        {
            assert(self.mounts()[i as int].target_location == self.mount_points@[i as int].target_location);
            if self.mount_points[i].target_location == *loc {
                proof {
                    let c = choose|c: int| 0 <= c < self.mounts().len() && self.mounts()[c].target_location == *loc;
                    if c != i {
                        assert(self.mounts()[c].target_location != self.mounts()[i as int].target_location);
                    }
                }
                return Some(i);
            }
            i += 1;
        }
        None
    }

    /// Returns the handle of the filesystem loaded from `source`, if any.
    pub fn get_fs(&self, source: &MountSource) -> (r: Option<u32>)
        requires
            self.wf(),
        ensures
            match fs_index(self.filesystems(), source@) {
                Some(k) => r == Some(self.filesystems()[k].fs),
                None => r is None,
            },
    {
        match self.find_fs(source) {
            Some(k) => Some(self.filesystems[k].fs),
            None => None,
        }
    }

    /// Returns the mountpoint with ID `id`, if any.
    pub fn from_id(&self, id: u32) -> (r: Option<&MountPoint>)
        ensures
            match r {
                Some(m) => exists|i: int| 0 <= i < self.mounts().len() && self.mounts()[i] == m@ && m@.id == id,
                None => forall|i: int| 0 <= i < self.mounts().len() ==> (#[trigger] self.mounts()[i]).id != id,
            },
    {
        let mut i: usize = 0;
        while i < self.mount_points.len()
            invariant
                i <= self.mounts().len(),
                self.mounts().len() == self.mount_points@.len(),
                forall|j: int| 0 <= j < i ==> (#[trigger] self.mounts()[j]).id != id,
            decreases self.mount_points@.len() - i,
        {
            assert(self.mounts()[i as int] == self.mount_points@[i as int]@);
            if self.mount_points[i].id == id {
                return Some(&self.mount_points[i]);
            }
            i += 1;
        }
        None
    }

    /// Returns the mountpoint mounted at `loc`, if any.
    pub fn from_location(&self, loc: &FileLocation) -> (r: Option<&MountPoint>)
        requires
            self.wf(),
        ensures
            match mount_index(self.mounts(), *loc) {
                Some(i) => r matches Some(m) && m@ == self.mounts()[i],
                None => r is None,
            },
    {
        match self.find_mount(loc) {
            Some(i) => {
                assert(self.mounts()[i as int] == self.mount_points@[i as int]@);
                Some(&self.mount_points[i])
            },
            None => None,
        }
    }

    /// Returns the ID for the next mountpoint: see [`next_id`].
    fn next_mount_id(&self) -> (id: u32)
        requires
            next_id(self.mounts()) <= u32::MAX,
        ensures
            id == next_id(self.mounts()),
    {
        let mut id: u32 = 0;
        let mut i: usize = 0;
        proof {
            assert forall|k: int| 0 <= k <= self.mounts().len() implies next_id(#[trigger] self.mounts().take(k))
                <= next_id(self.mounts()) by {
                lemma_next_id_prefix(self.mounts(), k);
            }
            assert(self.mounts().take(0) =~= Seq::<MountView>::empty());
        }
        while i < self.mount_points.len()
            invariant
                i <= self.mounts().len(),
                self.mounts().len() == self.mount_points@.len(),
                id == next_id(self.mounts().take(i as int)),
                forall|k: int| 0 <= k <= self.mounts().len() ==> next_id(#[trigger] self.mounts().take(k)) <= next_id(
                    self.mounts(),
                ),
                next_id(self.mounts()) <= u32::MAX,
            decreases self.mount_points@.len() - i,
        {
            proof {
                assert(self.mounts().take(i + 1).drop_last() =~= self.mounts().take(i as int));
                assert(self.mounts().take(i + 1).last() == self.mount_points@[i as int]@);
                assert(next_id(self.mounts().take(i + 1)) <= next_id(self.mounts()));
            }
            let m = self.mount_points[i].id;
            if id < m + 1 {
                id = m + 1;
            }
            i += 1;
        }
        assert(self.mounts().take(self.mounts().len() as int) =~= self.mounts());
        id
    }
}


impl MountPoints {
    /// Creates a mountpoint from `source` with the flags `flags`, at the path `target_path` of
    /// the directory at `target_location`: see [`create_outcome`]. `loaded` is the outcome of
    /// loading the filesystem of the source, used only if it is not loaded yet.
    ///
    /// The function returns the ID of the new mountpoint.
    pub fn create(
        &mut self,
        source: MountSource,
        flags: u32,
        target_path: Vec<u8>,
        target_location: FileLocation,
        loaded: Result<(u32, Vec<u8>), Errno>,
    ) -> (r: Result<u32, Errno>)
        requires
            old(self).wf(),
            next_id(old(self).mounts()) <= u32::MAX,
            forall|k: int|
                0 <= k < old(self).filesystems().len() ==> #[trigger] old(self).filesystems()[k].ref_count
                    < usize::MAX,
        ensures
            final(self).wf(),
            create_outcome(
                old(self).filesystems(),
                old(self).mounts(),
                source@,
                flags,
                target_path@,
                target_location,
                loaded_view(loaded),
                final(self).filesystems(),
                final(self).mounts(),
                r,
            ),
    {
        if self.find_mount(&target_location).is_some() {
            return Err(Errno::EINVAL);
        }
        let id = self.next_mount_id();
        let ghost fss0 = self.filesystems();
        let ghost ms0 = self.mounts();
        let (fs, name) = match self.find_fs(&source) {
            Some(k) => {
                let fs = self.filesystems[k].fs;
                let name = crate::procfs::bytes_to_vec(self.filesystems[k].name.as_slice());
                let count = self.filesystems[k].ref_count;
                let f = &mut self.filesystems[k];
                f.ref_count = count + 1;
                proof {
                    assert(self.filesystems() =~= fss0.update(
                        k as int,
                        LoadedView { ref_count: fss0[k as int].ref_count + 1, ..fss0[k as int] },
                    ));
                }
                (fs, name)
            },
            None => {
                match loaded {
                    Err(e) => {
                        return Err(e);
                    },
                    Ok((fs, name)) => {
                        let copy = crate::procfs::bytes_to_vec(name.as_slice());
                        self.filesystems.push(LoadedFS { source: source.try_clone(), ref_count: 1, fs, name: copy });
                        proof {
                            assert(self.filesystems() =~= fss0.push(
                                LoadedView { source: source@, ref_count: 1, fs, name: name@ },
                            ));
                        }
                        (fs, name)
                    },
                }
            },
        };
        let ghost m = new_mount(id as nat, flags, source@, fs, name@, target_path@, target_location);
        self.mount_points.push(
            MountPoint { id, flags, source, fs, fs_type_name: name, target_path, target_location },
        );
        proof {
            assert(self.mounts() =~= ms0.push(m));
            let fss = self.filesystems();
            assert forall|a: int, b: int|
                0 <= a < fss.len() && 0 <= b < fss.len() && a != b implies #[trigger] fss[a].source
                != #[trigger] fss[b].source by {
                if a < fss0.len() && b < fss0.len() {
                    assert(fss0[a].source != fss0[b].source);
                } else if a < fss0.len() {
                    assert(fss0[a].source != source@);
                } else {
                    assert(fss0[b].source != source@);
                }
            }
            let ms = self.mounts();
            assert forall|a: int, b: int|
                0 <= a < ms.len() && 0 <= b < ms.len() && a != b implies #[trigger] ms[a].target_location
                != #[trigger] ms[b].target_location by {
                if a < ms0.len() && b < ms0.len() {
                    assert(ms0[a].target_location != ms0[b].target_location);
                } else if a < ms0.len() {
                    assert(ms0[a].target_location != target_location);
                } else {
                    assert(ms0[b].target_location != target_location);
                }
            }
        }
        Ok(id)
    }

    /// Removes the mountpoint at `target_location`, releasing its filesystem: see
    /// [`remove_outcome`].
    pub fn remove(&mut self, target_location: &FileLocation) -> (r: Result<(), Errno>)
        requires
            old(self).wf(),
        ensures
            final(self).wf(),
            remove_outcome(
                old(self).filesystems(),
                old(self).mounts(),
                *target_location,
                final(self).filesystems(),
                final(self).mounts(),
                r,
            ),
    {
        let i = match self.find_mount(target_location) {
            Some(i) => i,
            None => {
                return Err(Errno::EINVAL);
            },
        };
        let ghost fss0 = self.filesystems();
        let ghost ms0 = self.mounts();
        let m = self.mount_points.remove(i);
        proof {
            assert(self.mounts() =~= ms0.remove(i as int));
            assert(m@ == ms0[i as int]);
        }
        match self.find_fs(&m.source) {
            Some(k) => {
                if self.filesystems[k].ref_count <= 1 {
                    self.filesystems.remove(k);
                    proof {
                        assert(self.filesystems() =~= fss0.remove(k as int));
                    }
                } else {
                    let count = self.filesystems[k].ref_count;
                    let f = &mut self.filesystems[k];
                    f.ref_count = count - 1;
                    proof {
                        assert(self.filesystems() =~= fss0.update(
                            k as int,
                            LoadedView { ref_count: (fss0[k as int].ref_count - 1) as nat, ..fss0[k as int] },
                        ));
                    }
                }
            },
            None => {},
        }
        proof {
            let fss = self.filesystems();
            let ms = self.mounts();
            assert forall|a: int, b: int|
                0 <= a < ms.len() && 0 <= b < ms.len() && a != b implies #[trigger] ms[a].target_location
                != #[trigger] ms[b].target_location by {
                let a0 = if a < i { a } else { a + 1 };
                let b0 = if b < i { b } else { b + 1 };
                assert(ms[a] == ms0[a0] && ms[b] == ms0[b0]);
            }
            assert forall|a: int, b: int|
                0 <= a < fss.len() && 0 <= b < fss.len() && a != b implies #[trigger] fss[a].source
                != #[trigger] fss[b].source by {
                if fss.len() < fss0.len() {
                    let k = fs_index(fss0, m@.source)->0;
                    let a0 = if a < k { a } else { a + 1 };
                    let b0 = if b < k { b } else { b + 1 };
                    assert(fss[a] == fss0[a0] && fss[b] == fss0[b0]);
                } else {
                    assert(fss0[a].source != fss0[b].source);
                }
            }
            assert forall|a: int| 0 <= a < fss.len() implies #[trigger] fss[a].ref_count >= 1 by {
                if fss.len() < fss0.len() {
                    let k = fs_index(fss0, m@.source)->0;
                    let a0 = if a < k { a } else { a + 1 };
                    assert(fss[a] == fss0[a0]);
                } else {
                    assert(fss0[a].ref_count >= 1);
                }
            }
        }
        Ok(())
    }
}

/// Removing a mountpoint right after creating it gives back the mountpoints and the loaded
/// filesystems as they were.
pub proof fn lemma_create_then_remove(
    fss0: Seq<LoadedView>,
    ms0: Seq<MountView>,
    source: SourceView,
    flags: u32,
    path: Seq<u8>,
    loc: FileLocation,
    loaded: Result<(u32, Seq<u8>), Errno>,
    fss1: Seq<LoadedView>,
    ms1: Seq<MountView>,
    id: u32,
    fss2: Seq<LoadedView>,
    ms2: Seq<MountView>,
    r: Result<(), Errno>,
)
    requires
        views_wf(fss0, ms0),
        create_outcome(fss0, ms0, source, flags, path, loc, loaded, fss1, ms1, Ok(id)),
        remove_outcome(fss1, ms1, loc, fss2, ms2, r),
    ensures
        r is Ok,
        fss2 == fss0,
        ms2 == ms0,
{
    let n = ms0.len() as int;
    assert(mount_index(ms0, loc) is None);
    assert(ms1[n].target_location == loc);
    assert(mount_index(ms1, loc) == Some(n)) by {
        let c = choose|c: int| 0 <= c < ms1.len() && ms1[c].target_location == loc;
        if c < n {
            assert(ms0[c].target_location == loc);
        }
    }
    assert(ms1.remove(n) =~= ms0);
    assert(ms1[n].source == source);
    match fs_index(fss0, source) {
        Some(k) => {
            assert(fss1[k].source == source);
            assert(fs_index(fss1, source) == Some(k)) by {
                let c = choose|c: int| 0 <= c < fss1.len() && fss1[c].source == source;
                if c != k {
                    assert(fss0[c].source == source);
                    assert(fss0[c].source != fss0[k].source);
                }
            }
            assert(fss0[k].ref_count >= 1);
            assert(release_fs(fss1, source) =~= fss0);
        },
        None => {
            let m = fss0.len() as int;
            assert(fss1[m].source == source);
            assert(fs_index(fss1, source) == Some(m)) by {
                let c = choose|c: int| 0 <= c < fss1.len() && fss1[c].source == source;
                if c < m {
                    assert(fss0[c].source == source);
                }
            }
            assert(fss1.remove(m) =~= fss0);
        },
    }
}

} // verus!
