//! Structures of the `select`, `poll` and `epoll` system calls.
use vstd::prelude::*;

verus! {

/// The maximum number of file descriptors in a [`FDSet`].
pub const FD_SETSIZE: usize = 1024;
/// The number of bits in a word of a [`FDSet`].
pub const FD_WORD_BITS: u32 = 64;
/// The number of words in a [`FDSet`].
pub const FD_WORDS: usize = 16;

/// Poll event: There is data to read.
pub const POLLIN: u32 = 0x1;
/// Poll event: There is some exceptional condition on the file descriptor.
pub const POLLPRI: u32 = 0x2;
/// Poll event: Writing is now possible.
pub const POLLOUT: u32 = 0x4;
/// Poll event: Error condition.
pub const POLLERR: u32 = 0x8;
/// Poll event: Hang up.
pub const POLLHUP: u32 = 0x10;
/// Poll event: Invalid request.
pub const POLLNVAL: u32 = 0x20;
/// Poll event: Equivalent to POLLIN.
pub const POLLRDNORM: u32 = 0x40;
/// Poll event: Priority band data can be read.
pub const POLLRDBAND: u32 = 0x80;
/// Poll event: Equivalent to POLLOUT.
pub const POLLWRNORM: u32 = 0x100;
/// Poll event: Priority data may be written.
pub const POLLWRBAND: u32 = 0x200;
/// Poll event: Stream socket peer closed connection, or shut down writing half of connection.
pub const POLLRDHUP: u32 = 0x2000;

/// Structure representing `fd_set`: a bitfield of file descriptors, in words of 64 bits.
#[derive(Clone, Copy, Debug)]
pub struct FDSet {
    /// The set's bitfield.
    pub fds_bits: [u64; 16],
}

impl FDSet {
    /// Creates an empty set.
    pub fn new() -> (s: Self)
        ensures
            forall|i: int| 0 <= i < 16 ==> s.fds_bits@[i] == 0,
    {
        FDSet { fds_bits: [0u64; 16] }
    }

    /// Tells whether the given file descriptor `fd` is set in the list: its bit, or any higher
    /// bit of the same word, is set.
    pub fn is_set(&self, fd: u32) -> (b: bool)
        ensures
            b == (fd < FD_SETSIZE && self.fds_bits@[(fd / FD_WORD_BITS) as int] >> (fd % FD_WORD_BITS)
                != 0),
    {
        if fd >= 1024 {
            return false;
        }
        let i = (fd / FD_WORD_BITS) as usize;
        self.fds_bits[i] >> (fd % FD_WORD_BITS) != 0
    }

    /// Sets or clears the bit for file descriptor `fd`.
    pub fn set(&mut self, fd: u32, val: bool)
        requires
            fd < FD_SETSIZE,
        ensures
            ({
                let i = fd / FD_WORD_BITS;
                let bit = 1u64 << (fd % FD_WORD_BITS);
                &&& final(self).fds_bits@[i as int] == if val {
                    old(self).fds_bits@[i as int] | bit
                } else {
                    old(self).fds_bits@[i as int] & !bit
                }
                &&& forall|j: int|
                    0 <= j < 16 && j != i ==> final(self).fds_bits@[j] == old(self).fds_bits@[j]
            }),
    {
        let i = (fd / FD_WORD_BITS) as usize;
        let bit = 1u64 << (fd % FD_WORD_BITS);
        let w = self.fds_bits[i];
        let nw = if val {
            w | bit
        } else {
            w & !bit
        };
        self.fds_bits[i] = nw;
    }
}

/// Setting the bit of a file descriptor makes it set; clearing it on a set where no higher bit of
/// its word is set makes it unset.
pub proof fn lemma_set_then_is_set(w: u64, s: u64)
    requires
        s < 64,
    ensures
        (w | (1u64 << s)) >> s != 0,
        w >> s == 0 ==> (w & !(1u64 << s)) >> s == 0,
{
    assert((w | (1u64 << s)) >> s != 0) by (bit_vector)
        requires
            s < 64,
    ;
    assert(w >> s == 0 ==> (w & !(1u64 << s)) >> s == 0) by (bit_vector)
        requires
            s < 64,
    ;
}

/// A file descriptor passed to the `poll` system call.
#[derive(Clone, Copy, Debug)]
pub struct PollFD {
    /// The file descriptor.
    pub fd: i32,
    /// The input mask telling which events to look for.
    pub events: i16,
    /// The output mask telling which events happened.
    pub revents: i16,
}

/// An epoll event, matching the userspace `struct epoll_event`.
#[derive(Clone, Copy, Debug)]
pub struct EpollEvent {
    /// The events bitmask.
    pub events: u32,
    /// Opaque user data associated with the entry.
    pub data: u64,
}

} // verus!
