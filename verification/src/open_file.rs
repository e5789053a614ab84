//! Open file descriptions, on files of a tmpfs.
use crate::errno::Errno;
use crate::file::{type_of_mode, FileLocation, FileType, Stat};
use crate::path::{Path, PathBuf};
use crate::tmpfs::{
    file_bytes, lookup_slots, node_at, node_type, regular_data, slots_at, DirEntry, FsView, TmpFS,
};
use vstd::prelude::*;

verus! {

/// The status of the node at `loc`, or [`Errno::ENOENT`] if there is none.
pub open spec fn stat_at(fs: FsView, loc: FileLocation) -> Result<Stat, Errno> {
    match node_at(fs, loc.inode as int) {
        Some(n) => Ok(n.stat),
        None => Err(Errno::ENOENT),
    }
}

/// The whole content of the file at `loc`: the bytes of a regular file up to its size. Files of
/// other types have no content to read, unless they are empty.
pub open spec fn content_at(fs: FsView, loc: FileLocation) -> Result<Seq<u8>, Errno> {
    match stat_at(fs, loc) {
        Err(e) => Err(e),
        Ok(st) => if st.size > usize::MAX {
            Err(Errno::EOVERFLOW)
        } else if st.size == 0 {
            Ok(Seq::empty())
        } else {
            match regular_data(fs, loc.inode as int) {
                Some(data) => Ok(file_bytes(data, st.size as nat)),
                None => Err(Errno::EINVAL),
            }
        },
    }
}

/// An open file description.
#[derive(Debug)]
pub struct File {
    /// The file's absolute path.
    path: PathBuf,
    /// The location the file is stored on.
    location: FileLocation,
    /// Open file description flags.
    pub flags: i32,
    /// The current offset in the file.
    pub off: u64,
}

impl File {
    /// The file's absolute path.
    pub closed spec fn path_spec(&self) -> Seq<u8> {
        self.path@
    }

    /// The location of the file.
    pub closed spec fn location_spec(&self) -> FileLocation {
        self.location
    }

    /// The open file description's flags.
    pub closed spec fn flags_spec(&self) -> i32 {
        self.flags
    }

    /// The current offset in the file.
    pub closed spec fn off_spec(&self) -> u64 {
        self.off
    }

    /// Opens the file at `location`, whose absolute path is `path`, with the open file
    /// description's flags `flags`, at offset zero.
    pub fn open(path: PathBuf, location: FileLocation, flags: i32) -> (f: Self)
        ensures
            f.path_spec() == path@,
            f.location_spec() == location,
            f.flags_spec() == flags,
            f.off_spec() == 0,
    {
        File { path, location, flags, off: 0 }
    }

    /// Like [`File::open`], but without an associated path nor location.
    pub fn open_ops(flags: i32) -> (f: Self)
        ensures
            f.path_spec() == Seq::<u8>::empty(),
            f.location_spec().mountpoint_id == 0,
            f.location_spec().inode == 0,
            f.flags_spec() == flags,
            f.off_spec() == 0,
    {
        File {
            path: PathBuf::new_unchecked(Vec::new()),
            location: FileLocation::nowhere(),
            flags,
            off: 0,
        }
    }

    /// Returns the absolute path to the file.
    pub fn get_path(&self) -> (p: Path<'_>)
        ensures
            p@ == self.path_spec(),
    {
        self.path.as_path()
    }

    /// Returns the location of the file.
    pub fn get_location(&self) -> (l: &FileLocation)
        ensures
            *l == self.location_spec(),
    {
        &self.location
    }

    /// Returns the status of the file.
    ///
    /// If the file's node does not exist, the function returns [`Errno::ENOENT`].
    pub fn get_stat(&self, fs: &TmpFS) -> (r: Result<Stat, Errno>)
        ensures
            r == stat_at(fs@, self.location_spec()),
    {
        match fs.stat(self.location.inode) {
            Some(st) => Ok(st),
            None => Err(Errno::ENOENT),
        }
    }

    /// Returns the type of the file.
    ///
    /// If the mode of the file holds no valid type, the function returns [`Errno::EUCLEAN`].
    pub fn get_type(&self, fs: &TmpFS) -> (r: Result<FileType, Errno>)
        ensures
            r == match stat_at(fs@, self.location_spec()) {
                Err(e) => Err(e),
                Ok(st) => match type_of_mode(st.mode) {
                    Some(t) => Ok(t),
                    None => Err(Errno::EUCLEAN),
                },
            },
    {
        let stat = self.get_stat(fs)?;
        match FileType::from_mode(stat.mode) {
            Some(t) => Ok(t),
            None => Err(Errno::EUCLEAN),
        }
    }

    /// Reads the whole content of a file into a buffer.
    ///
    /// This function does not change the file's offset.
    ///
    /// Errors:
    /// - the file's node does not exist: [`Errno::ENOENT`]
    /// - the file's size does not fit in an `usize`: [`Errno::EOVERFLOW`]
    /// - the file is not empty and has no content to read (it is not a regular file):
    ///   [`Errno::EINVAL`]
    pub fn read_all(&self, fs: &TmpFS) -> (r: Result<Vec<u8>, Errno>)
        ensures
            match content_at(fs@, self.location_spec()) {
                Ok(bytes) => r matches Ok(v) && v@ == bytes,
                Err(e) => r == Err::<Vec<u8>, Errno>(e),
            },
    {
        let stat = self.get_stat(fs)?;
        if stat.size > usize::MAX as u64 {
            return Err(Errno::EOVERFLOW);
        }
        let len = stat.size as usize;
        let ino = self.location.inode;
        let ghost bytes = match regular_data(fs@, ino as int) {
            Some(data) => file_bytes(data, stat.size as nat),
            None => Seq::empty(),
        };
        let mut buf: Vec<u8> = Vec::new();
        let mut off: usize = 0;
        // Stick to the file's size to have an upper bound
        while off < len
            invariant
                off <= len,
                len == stat.size,
                ino == self.location_spec().inode,
                buf@.len() == off,
                node_at(fs@, ino as int) matches Some(n) && n.stat == stat,
                bytes == match regular_data(fs@, ino as int) {
                    Some(data) => file_bytes(data, stat.size as nat),
                    None => Seq::empty(),
                },
                regular_data(fs@, ino as int) is None ==> off == 0,
                regular_data(fs@, ino as int) is Some ==> buf@ == bytes.take(off as int),
            decreases len - off,
        {
            let rest: usize = len - off;
            let mut chunk: Vec<u8> = vec![0u8; rest];
            let (n, _) = fs.read(ino, off as u64, chunk.as_mut_slice())?;
            let n = n as usize;
            let mut k: usize = 0;
            while k < n
                invariant
                    k <= n,
                    n <= chunk@.len(),
                    off + n <= len,
                    regular_data(fs@, ino as int) is Some,
                    bytes.len() == len,
                    chunk@ == bytes.subrange(off as int, off + n) + chunk@.skip(n as int),
                    buf@ == bytes.take(off + k),
                decreases n - k,
            {
                buf.push(chunk[k]);
                k += 1;
                assert(buf@ =~= bytes.take(off + k));
            }
            off += n;
        }
        if len == 0 {
            assert(buf@ =~= Seq::<u8>::empty());
        } else {
            assert(buf@ =~= bytes);
        }
        Ok(buf)
    }

    /// Returns the directory entry with the given `name`.
    ///
    /// If the file is not a directory, or has no such entry, the function returns `None`.
    pub fn dir_entry_by_name(&self, fs: &TmpFS, name: &[u8]) -> (r: Option<DirEntry>)
        ensures
            match slots_at(fs@, self.location_spec().inode as int) {
                Some(s) => match lookup_slots(s, name@) {
                    Some(ino) => r matches Some(e) && e@ == (ino, node_type(fs@, ino), name@),
                    None => r is None,
                },
                None => r is None,
            },
    {
        match fs.lookup_entry(self.location.inode, name) {
            Ok(Some(inode)) => {
                let entry_type = match fs.stat(inode) {
                    Some(st) => FileType::from_mode(st.mode),
                    None => None,
                };
                Some(DirEntry { inode, entry_type, name: vstd::slice::slice_to_vec(name) })
            },
            _ => None,
        }
    }

    /// Closes the file, removing its node if no link to it remains.
    ///
    /// Errors:
    /// - the file's node does not exist: [`Errno::ENOENT`]
    /// - the node is to be removed and the filesystem is read-only: [`Errno::EROFS`]
    pub fn close(&mut self, fs: &mut TmpFS) -> (r: Result<(), Errno>)
        requires
            old(fs).wf(),
        ensures
            final(fs).wf(),
            final(fs).is_readonly() == old(fs).is_readonly(),
            *final(self) == *old(self),
            match stat_at(old(fs)@, old(self).location_spec()) {
                Err(e) => r == Err::<(), Errno>(e) && final(fs)@ == old(fs)@,
                Ok(st) => if st.nlink != 0 {
                    r is Ok && final(fs)@ == old(fs)@
                } else if old(fs).is_readonly() {
                    r == Err::<(), Errno>(Errno::EROFS) && final(fs)@ == old(fs)@
                } else {
                    r is Ok && final(fs)@ == old(fs)@.update(
                        old(self).location_spec().inode as int,
                        None,
                    )
                },
            },
    {
        let stat = self.get_stat(fs)?;
        // If no more link remain to the file, remove the node
        if stat.nlink == 0 {
            fs.destroy_node(self.location.inode)?;
        }
        Ok(())
    }
}

} // verus!
