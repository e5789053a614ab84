//! The sysfs is a virtual filesystem giving information about the system's devices. Its tree is
//! static: it has no node to create or destroy.
use crate::errno::Errno;
use crate::tmpfs::Statfs;
use vstd::prelude::*;
use vstd::string::*;

verus! {

/// A sysfs.
#[derive(Debug)]
pub struct SysFS;

impl SysFS {
    /// The name of the filesystem.
    pub fn get_name(&self) -> (n: &'static [u8])
        ensures
            n@ == "sysfs".spec_bytes(),
    {
        "sysfs".as_bytes()
    }

    /// The entries of the filesystem are not cached.
    pub fn cache_entries(&self) -> (b: bool)
        ensures
            !b,
    {
        false
    }

    /// Returns the filesystem's statistics: all null.
    pub fn get_stat(&self) -> (r: Result<Statfs, Errno>)
        ensures
            r matches Ok(st) && st.f_type == 0 && st.f_bsize == 0 && st.f_blocks == 0 && st.f_bfree
                == 0 && st.f_bavail == 0 && st.f_files == 0 && st.f_ffree == 0 && st.f_fsid == [
                0i32,
                0i32,
            ] && st.f_namelen == 0 && st.f_frsize == 0 && st.f_flags == 0,
    {
        Ok(
            Statfs {
                f_type: 0,
                f_bsize: 0,
                f_blocks: 0,
                f_bfree: 0,
                f_bavail: 0,
                f_files: 0,
                f_ffree: 0,
                f_fsid: [0i32, 0i32],
                f_namelen: 0,
                f_frsize: 0,
                f_flags: 0,
            },
        )
    }

    /// Nodes cannot be created on the filesystem: the function returns [`Errno::EINVAL`].
    pub fn create_node(&self) -> (r: Result<(), Errno>)
        ensures
            r == Err::<(), Errno>(Errno::EINVAL),
    {
        Err(Errno::EINVAL)
    }

    /// Destroying a node of the filesystem does nothing.
    pub fn destroy_node(&self) -> (r: Result<(), Errno>)
        ensures
            r == Ok::<(), Errno>(()),
    {
        Ok(())
    }
}

/// The sysfs filesystem type.
pub struct SysFsType;

impl SysFsType {
    /// The name of the filesystem type.
    pub fn get_name(&self) -> (n: &'static [u8])
        ensures
            n@ == "sysfs".spec_bytes(),
    {
        "sysfs".as_bytes()
    }

    /// A sysfs is never detected on a device: the function returns `false`.
    pub fn detect(&self) -> (r: Result<bool, Errno>)
        ensures
            r == Ok::<bool, Errno>(false),
    {
        Ok(false)
    }

    /// Creates a sysfs.
    pub fn load_filesystem(&self) -> (r: Result<SysFS, Errno>)
        ensures
            r is Ok,
    {
        Ok(SysFS)
    }
}

} // verus!
