//! File types, file status and file locations.
//!
//! A file mode packs the UNIX permissions in its 12 least significant bits and the UNIX file
//! type in the remaining bits.
use vstd::prelude::*;

verus! {

/// A filesystem node ID.
pub type INode = u64;
/// A file mode: UNIX permissions (12 least significant bits) and UNIX type (remaining bits).
pub type Mode = u32;
/// Type representing a user ID.
pub type Uid = u16;
/// Type representing a group ID.
pub type Gid = u16;
/// A timestamp, in seconds.
pub type Timestamp = u64;

/// File type: socket
pub const S_IFSOCK: Mode = 0o140000;
/// File type: symbolic link
pub const S_IFLNK: Mode = 0o120000;
/// File type: regular file
pub const S_IFREG: Mode = 0o100000;
/// File type: block device
pub const S_IFBLK: Mode = 0o060000;
/// File type: directory
pub const S_IFDIR: Mode = 0o040000;
/// File type: character device
pub const S_IFCHR: Mode = 0o020000;
/// File type: FIFO
pub const S_IFIFO: Mode = 0o010000;

/// The bits of a mode that hold the file type.
pub const TYPE_MASK: Mode = 0o770000;

/// Directory entry type: Block Device
pub const DT_BLK: u8 = 6;
/// Directory entry type: Char Device
pub const DT_CHR: u8 = 2;
/// Directory entry type: Directory
pub const DT_DIR: u8 = 4;
/// Directory entry type: FIFO
pub const DT_FIFO: u8 = 1;
/// Directory entry type: Symbolic Link
pub const DT_LNK: u8 = 10;
/// Directory entry type: Regular file
pub const DT_REG: u8 = 8;
/// Directory entry type: Socket
pub const DT_SOCK: u8 = 12;
/// Directory entry type: Unknown
pub const DT_UNKNOWN: u8 = 0;

/// Enumeration of device types.
#[derive(Clone, Copy, Debug, PartialEq, Eq, Structural)]
pub enum DeviceType {
    /// A block device.
    Block,
    /// A character device.
    Char,
}

/// Enumeration representing the different file types.
#[derive(Clone, Copy, Debug, PartialEq, Eq, Structural)]
pub enum FileType {
    /// A regular file storing data.
    Regular,
    /// A directory, containing other files.
    Directory,
    /// A symbolic link, pointing to another file.
    Link,
    /// A named pipe.
    Fifo,
    /// A Unix domain socket.
    Socket,
    /// A Block device file.
    BlockDevice,
    /// A Character device file.
    CharDevice,
}

/// The file type encoded in `mode`, if it is a valid one. A type field of zero stands for a
/// regular file.
pub open spec fn type_of_mode(mode: Mode) -> Option<FileType> {
    let t = mode & TYPE_MASK;
    if t == S_IFSOCK {
        Some(FileType::Socket)
    } else if t == S_IFLNK {
        Some(FileType::Link)
    } else if t == S_IFREG || t == 0 {
        Some(FileType::Regular)
    } else if t == S_IFBLK {
        Some(FileType::BlockDevice)
    } else if t == S_IFDIR {
        Some(FileType::Directory)
    } else if t == S_IFCHR {
        Some(FileType::CharDevice)
    } else if t == S_IFIFO {
        Some(FileType::Fifo)
    } else {
        None
    }
}

impl FileType {
    /// The mode bits of the type.
    pub open spec fn mode_bits(self) -> Mode {
        match self {
            FileType::Socket => S_IFSOCK,
            FileType::Link => S_IFLNK,
            FileType::Regular => S_IFREG,
            FileType::BlockDevice => S_IFBLK,
            FileType::Directory => S_IFDIR,
            FileType::CharDevice => S_IFCHR,
            FileType::Fifo => S_IFIFO,
        }
    }

    /// The directory entry type of the type.
    pub open spec fn dirent_bits(self) -> u8 {
        match self {
            FileType::Socket => DT_SOCK,
            FileType::Link => DT_LNK,
            FileType::Regular => DT_REG,
            FileType::BlockDevice => DT_BLK,
            FileType::Directory => DT_DIR,
            FileType::CharDevice => DT_CHR,
            FileType::Fifo => DT_FIFO,
        }
    }

    /// The device type of the type, for device files.
    pub open spec fn device(self) -> Option<DeviceType> {
        match self {
            FileType::BlockDevice => Some(DeviceType::Block),
            FileType::CharDevice => Some(DeviceType::Char),
            _ => None,
        }
    }

    /// Returns the type corresponding to the given mode `mode`.
    ///
    /// If the type doesn't exist, the function returns `None`.
    pub fn from_mode(mode: Mode) -> (t: Option<Self>)
        ensures
            t == type_of_mode(mode),
    {
        let t = mode & TYPE_MASK;
        if t == S_IFSOCK {
            Some(FileType::Socket)
        } else if t == S_IFLNK {
            Some(FileType::Link)
        } else if t == S_IFREG || t == 0 {
            Some(FileType::Regular)
        } else if t == S_IFBLK {
            Some(FileType::BlockDevice)
        } else if t == S_IFDIR {
            Some(FileType::Directory)
        } else if t == S_IFCHR {
            Some(FileType::CharDevice)
        } else if t == S_IFIFO {
            Some(FileType::Fifo)
        } else {
            None
        }
    }

    /// Returns the mode corresponding to the type.
    pub fn to_mode(&self) -> (m: Mode)
        ensures
            m == self.mode_bits(),
    {
        match self {
            FileType::Socket => S_IFSOCK,
            FileType::Link => S_IFLNK,
            FileType::Regular => S_IFREG,
            FileType::BlockDevice => S_IFBLK,
            FileType::Directory => S_IFDIR,
            FileType::CharDevice => S_IFCHR,
            FileType::Fifo => S_IFIFO,
        }
    }

    /// Returns the directory entry type.
    pub fn to_dirent_type(&self) -> (d: u8)
        ensures
            d == self.dirent_bits(),
    {
        match self {
            FileType::Socket => DT_SOCK,
            FileType::Link => DT_LNK,
            FileType::Regular => DT_REG,
            FileType::BlockDevice => DT_BLK,
            FileType::Directory => DT_DIR,
            FileType::CharDevice => DT_CHR,
            FileType::Fifo => DT_FIFO,
        }
    }

    /// Returns the device type, if any.
    pub fn to_device_type(&self) -> (d: Option<DeviceType>)
        ensures
            d == self.device(),
    {
        match self {
            FileType::BlockDevice => Some(DeviceType::Block),
            FileType::CharDevice => Some(DeviceType::Char),
            _ => None,
        }
    }
}

/// Converting a type to its mode and back gives the same type, and the permission bits of a mode
/// never change the type read from it.
pub proof fn lemma_mode_round_trip(t: FileType, perms: Mode)
    requires
        perms <= 0o7777,
    ensures
        type_of_mode(t.mode_bits()) == Some(t),
        type_of_mode(t.mode_bits() | perms) == Some(t),
{
    let m = t.mode_bits();
    assert(m & TYPE_MASK == m) by (bit_vector)
        requires
            m == 0o140000u32 || m == 0o120000u32 || m == 0o100000u32 || m == 0o060000u32
                || m == 0o040000u32 || m == 0o020000u32 || m == 0o010000u32;
    assert((m | perms) & TYPE_MASK == m) by (bit_vector)
        requires
            m == 0o140000u32 || m == 0o120000u32 || m == 0o100000u32 || m == 0o060000u32
                || m == 0o040000u32 || m == 0o020000u32 || m == 0o010000u32,
            perms <= 0o7777u32;
}

/// Distinct types have distinct modes and distinct directory entry types.
pub proof fn lemma_type_encodings_injective(a: FileType, b: FileType)
    ensures
        a.mode_bits() == b.mode_bits() ==> a == b,
        a.dirent_bits() == b.dirent_bits() ==> a == b,
{
}

/// The location of a file.
#[derive(Clone, Copy, Debug, PartialEq, Eq, Structural)]
pub struct FileLocation {
    /// The ID of the mountpoint of the file.
    pub mountpoint_id: u32,
    /// The file's inode.
    pub inode: INode,
}

impl FileLocation {
    /// Location to nowhere.
    pub fn nowhere() -> (l: Self)
        ensures
            l.mountpoint_id == 0,
            l.inode == 0,
    {
        FileLocation { mountpoint_id: 0, inode: 0 }
    }
}

/// File status information.
#[derive(Clone, Copy, Debug)]
pub struct Stat {
    /// The file's permissions.
    pub mode: Mode,
    /// The number of links to the file.
    pub nlink: u16,
    /// The file owner's user ID.
    pub uid: Uid,
    /// The file owner's group ID.
    pub gid: Gid,
    /// The size of the file in bytes.
    pub size: u64,
    /// The number of blocks occupied by the file.
    pub blocks: u64,
    /// If the file is a device file, this is the major number.
    pub dev_major: u32,
    /// If the file is a device file, this is the minor number.
    pub dev_minor: u32,
    /// Timestamp of the last modification of the metadata.
    pub ctime: Timestamp,
    /// Timestamp of the last modification of the file's content.
    pub mtime: Timestamp,
    /// Timestamp of the last access to the file.
    pub atime: Timestamp,
}

impl Default for Stat {
    /// A read-only (`0o444`) regular file with one link, owned by root, empty, with null
    /// timestamps.
    fn default() -> (s: Self)
        ensures
            s.mode == 0o444,
            s.nlink == 1,
            s.uid == 0,
            s.gid == 0,
            s.size == 0,
            s.blocks == 0,
            s.dev_major == 0,
            s.dev_minor == 0,
            s.ctime == 0,
            s.mtime == 0,
            s.atime == 0,
    {
        Stat {
            mode: 0o444,
            nlink: 1,
            uid: 0,
            gid: 0,
            size: 0,
            blocks: 0,
            dev_major: 0,
            dev_minor: 0,
            ctime: 0,
            mtime: 0,
            atime: 0,
        }
    }
}

impl Stat {
    /// Returns the file type.
    ///
    /// If the file type if invalid, the function returns `None`.
    pub fn get_type(&self) -> (t: Option<FileType>)
        ensures
            t == type_of_mode(self.mode),
    {
        FileType::from_mode(self.mode)
    }

    /// Sets the owner user ID, updating `ctime` with the current timestamp `now`, as read from
    /// the monotonic clock (`None` when the clock cannot be read, in which case `ctime` becomes
    /// zero).
    pub fn set_uid(&mut self, uid: Uid, now: Option<Timestamp>)
        ensures
            final(self).uid == uid,
            final(self).ctime == (match now {
                Some(t) => t,
                None => 0,
            }),
            final(self).mode == old(self).mode,
            final(self).gid == old(self).gid,
            final(self).nlink == old(self).nlink,
            final(self).size == old(self).size,
            final(self).blocks == old(self).blocks,
            final(self).dev_major == old(self).dev_major,
            final(self).dev_minor == old(self).dev_minor,
            final(self).mtime == old(self).mtime,
            final(self).atime == old(self).atime,
    {
        self.uid = uid;
        self.ctime = match now {
            Some(t) => t,
            None => 0,
        };
    }

    /// Sets the owner group ID, updating `ctime` with the current timestamp `now`, as read from
    /// the monotonic clock (`None` when the clock cannot be read, in which case `ctime` becomes
    /// zero).
    pub fn set_gid(&mut self, gid: Gid, now: Option<Timestamp>)
        ensures
            final(self).gid == gid,
            final(self).ctime == (match now {
                Some(t) => t,
                None => 0,
            }),
            final(self).mode == old(self).mode,
            final(self).uid == old(self).uid,
            final(self).nlink == old(self).nlink,
            final(self).size == old(self).size,
            final(self).blocks == old(self).blocks,
            final(self).dev_major == old(self).dev_major,
            final(self).dev_minor == old(self).dev_minor,
            final(self).mtime == old(self).mtime,
            final(self).atime == old(self).atime,
    {
        self.gid = gid;
        self.ctime = match now {
            Some(t) => t,
            None => 0,
        };
    }
}


/// Returns the location to start path resolution from: the root inode of the filesystem of the
/// root mountpoint, where `root_mountpoint` holds the ID of the root mountpoint and that root
/// inode, if the root mountpoint exists.
///
/// The root mountpoint must exist.
pub fn root_location(root_mountpoint: Option<(u32, INode)>) -> (l: FileLocation)
    requires
        root_mountpoint is Some,
    ensures
        root_mountpoint matches Some((id, inode)) && l.mountpoint_id == id && l.inode == inode,
{
    match root_mountpoint {
        Some((mountpoint_id, inode)) => FileLocation { mountpoint_id, inode },
        None => FileLocation::nowhere(),
    }
}

} // verus!
