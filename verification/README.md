# maestro

Verified core logic of the Maestro kernel, written in Verus: each function states in its
contract what it computes, and Verus proves it.

## Layout

- `src/`: the verified library.
  - Files: `file` (file types, modes, status), `perm` (access checks), `path` (paths and their
    components), `flock` (file locks), `tmpfs` (the temporary filesystem), `vfs` (path
    resolution, creation, links and renaming), `procfs` and `sysfs` (virtual filesystems),
    `mapping` (mapped files), `mountpoint` (mountpoints and loaded filesystems), `pipe`, `open_file` (open file
    descriptions), `util` (creating the directories of a path).
  - Memory: `memory` (addresses), `buddy` (the buddy allocator), `malloc` (chunks of the
    allocator, and the heap of blocks that allocations are made in), `vmem` (x86 paging, with transactions that roll back, and the mapping of the kernel), `ring_buffer`,
    `stats`, `trace`, `user` (the memory of the running process, as pages that are mapped or
    not, and copies from and to it), `cache` (the LRU of the page cache, and the choice of the
    page to evict).
  - Network: `net` (addresses, socket descriptors, buffer lists), `route` (routing),
    `iface` (registered interfaces), `ip` (IPv4 headers and their checksum), `netlink`, `socket` (sockets and the connection of
    UNIX sockets),
    `poll`.
  - Boot and CPU: `multiboot` (boot information), `idt` (interrupt descriptors and
    callbacks), `relocation` (kernel module relocations).
- `tests/`: tests of the library.
- `app/`: a hosted boot driver that reads boot information from a file.

The hardware itself (registers, port I/O, page table walks by the CPU) and the scheduler are not part of the library: the library takes what they would provide as
plain values.
