//! Verified core logic of the Maestro kernel: file types and permissions, paths, filesystems
//! (tmpfs, procfs, sysfs) and path resolution, memory management (addresses, buddy allocator,
//! malloc chunks, paging with transactions, ring buffers), boot information parsing, interrupt
//! descriptors, module relocations, and networking (addresses, routes, interfaces, IPv4 headers).
use vstd::prelude::*;

pub mod errno;
pub mod file;
pub mod perm;
pub mod path;
pub mod ring_buffer;
pub mod flock;
pub mod memory;
pub mod net;
pub mod route;
pub mod poll;
pub mod idt;
pub mod multiboot;
pub mod relocation;
pub mod buddy;
pub mod tmpfs;
pub mod vfs;
pub mod vmem;
pub mod procfs;
pub mod sysfs;
pub mod malloc;
pub mod mapping;
pub mod ip;
pub mod iface;
pub mod trace;
pub mod stats;
pub mod pipe;
pub mod mountpoint;
pub mod netlink;
pub mod socket;
pub mod util;
pub mod open_file;
pub mod user;
pub mod cache;

verus! {

} // verus!
