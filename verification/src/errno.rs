//! Error numbers returned by the kernel's fallible operations.
use vstd::prelude::*;

verus! {

/// A POSIX error number, reported by fallible kernel operations.
#[derive(Clone, Copy, Debug, PartialEq, Eq, Structural)]
pub enum Errno {
    /// Operation not permitted.
    EPERM,
    /// File name too long.
    ENAMETOOLONG,
    /// No locks available.
    ENOLCK,
    /// Operation would block.
    EWOULDBLOCK,
    /// Address family not supported by protocol.
    EAFNOSUPPORT,
    /// Protocol not supported.
    EPROTONOSUPPORT,
    /// Structure needs cleaning (corrupted metadata).
    EUCLEAN,
    /// No such file or directory.
    ENOENT,
    /// Out of memory.
    ENOMEM,
    /// Permission denied.
    EACCES,
    /// File exists.
    EEXIST,
    /// Not a directory.
    ENOTDIR,
    /// Invalid argument.
    EINVAL,
    /// Too many open files.
    EMFILE,
    /// Read-only file system.
    EROFS,
    /// Directory not empty.
    ENOTEMPTY,
    /// Too many levels of symbolic links.
    ELOOP,
    /// Value too large for defined data type.
    EOVERFLOW,
    /// Device or resource busy.
    EBUSY,
    /// Is a directory.
    EISDIR,
    /// Too many links.
    EMLINK,
    /// Broken pipe.
    EPIPE,
    /// Inappropriate I/O control operation.
    ENOTTY,
    /// No such device.
    ENODEV,
    /// Block device required.
    ENOTBLK,
    /// Socket operation on a file that is not a socket.
    ENOTSOCK,
    /// The socket is already connected.
    EISCONN,
    /// Bad address.
    EFAULT,
}

impl Errno {
    /// Returns the numeric value of the error, as seen by userspace.
    pub fn as_int(&self) -> (n: i32)
        ensures
            n == self.spec_value(),
    {
        match self {
            Errno::EPERM => 1,
            Errno::ENAMETOOLONG => 36,
            Errno::ENOLCK => 37,
            Errno::EWOULDBLOCK => 11,
            Errno::EAFNOSUPPORT => 97,
            Errno::EPROTONOSUPPORT => 93,
            Errno::EUCLEAN => 117,
            Errno::ENOENT => 2,
            Errno::ENOMEM => 12,
            Errno::EACCES => 13,
            Errno::EEXIST => 17,
            Errno::ENOTDIR => 20,
            Errno::EINVAL => 22,
            Errno::EMFILE => 24,
            Errno::EROFS => 30,
            Errno::ENOTEMPTY => 39,
            Errno::ELOOP => 40,
            Errno::EOVERFLOW => 75,
            Errno::EBUSY => 16,
            Errno::EISDIR => 21,
            Errno::EMLINK => 31,
            Errno::EPIPE => 32,
            Errno::ENOTTY => 25,
            Errno::ENODEV => 19,
            Errno::ENOTBLK => 15,
            Errno::ENOTSOCK => 88,
            Errno::EISCONN => 106,
            Errno::EFAULT => 14,
        }
    }

    /// The numeric value of the error.
    pub open spec fn spec_value(&self) -> i32 {
        match self {
            Errno::EPERM => 1,
            Errno::ENAMETOOLONG => 36,
            Errno::ENOLCK => 37,
            Errno::EWOULDBLOCK => 11,
            Errno::EAFNOSUPPORT => 97,
            Errno::EPROTONOSUPPORT => 93,
            Errno::EUCLEAN => 117,
            Errno::ENOENT => 2,
            Errno::ENOMEM => 12,
            Errno::EACCES => 13,
            Errno::EEXIST => 17,
            Errno::ENOTDIR => 20,
            Errno::EINVAL => 22,
            Errno::EMFILE => 24,
            Errno::EROFS => 30,
            Errno::ENOTEMPTY => 39,
            Errno::ELOOP => 40,
            Errno::EOVERFLOW => 75,
            Errno::EBUSY => 16,
            Errno::EISDIR => 21,
            Errno::EMLINK => 31,
            Errno::EPIPE => 32,
            Errno::ENOTTY => 25,
            Errno::ENODEV => 19,
            Errno::ENOTBLK => 15,
            Errno::ENOTSOCK => 88,
            Errno::EISCONN => 106,
            Errno::EFAULT => 14,
        }
    }
}

/// Error returned when a memory or resource allocation fails.
#[derive(Clone, Copy, Debug, PartialEq, Eq, Structural)]
pub struct AllocError;

} // verus!
