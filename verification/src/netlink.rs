//! `netlink` is an interface between the kernel and userspace.
use crate::errno::Errno;
use crate::ring_buffer::RingBuffer;
use vstd::prelude::*;

verus! {

/// The size of the read and write buffers of a handle, in bytes.
pub const NETLINK_BUFFER_SIZE: usize = 16384;
/// The size of a netlink message header, in bytes.
pub const NLMSG_HDR_SIZE: usize = 16;

/// The netlink handle for a socket. Each socket must have its own instance.
#[derive(Debug)]
pub struct Handle {
    /// Socket family being used
    pub family: i32,
    /// The buffer for read operations.
    read_buff: RingBuffer,
    /// The buffer for write operations.
    write_buff: RingBuffer,
}

impl Handle {
    /// The bytes waiting to be read.
    pub closed spec fn readable(&self) -> Seq<u8> {
        self.read_buff@
    }

    /// The bytes written, waiting to be handled.
    pub closed spec fn written(&self) -> Seq<u8> {
        self.write_buff@
    }

    /// The socket family being used.
    pub closed spec fn family_spec(&self) -> i32 {
        self.family
    }

    /// The handle is consistent.
    pub closed spec fn wf(&self) -> bool {
        &&& self.read_buff.wf()
        &&& self.write_buff.wf()
        &&& self.read_buff.capacity_spec() == NETLINK_BUFFER_SIZE
        &&& self.write_buff.capacity_spec() == NETLINK_BUFFER_SIZE
    }

    /// Creates a new handle, with empty buffers.
    pub fn new() -> (r: Result<Self, Errno>)
        ensures
            r matches Ok(h) && h.wf() && h.family_spec() == 0 && h.readable().len() == 0 && h.written().len() == 0,
    {
        Ok(
            Handle {
                family: 0,
                read_buff: RingBuffer::new(NETLINK_BUFFER_SIZE),
                write_buff: RingBuffer::new(NETLINK_BUFFER_SIZE),
            },
        )
    }

    /// Reads data from the handle into `buff`: the oldest readable bytes, as many as fit.
    ///
    /// The function returns the number of bytes read.
    pub fn read(&mut self, buff: &mut [u8]) -> (r: Result<(usize, bool), Errno>)
        requires
            old(self).wf(),
        ensures
            final(self).wf(),
            final(self).written() == old(self).written(),
            final(self).family_spec() == old(self).family_spec(),
            ({
                let n = if old(buff)@.len() < old(self).readable().len() {
                    old(buff)@.len()
                } else {
                    old(self).readable().len()
                };
                &&& r == Ok::<(usize, bool), Errno>((n as usize, false))
                &&& final(self).readable() == old(self).readable().subrange(
                    n as int,
                    old(self).readable().len() as int,
                )
                &&& final(buff)@ == old(self).readable().subrange(0, n as int) + old(buff)@.subrange(
                    n as int,
                    old(buff)@.len() as int,
                )
            }),
    {
        let len = self.read_buff.read(buff);
        Ok((len, false))
    }

    /// Writes the data of `buff` to the handle, as much as there is room for.
    ///
    /// The function returns the number of bytes written. The written bytes must not complete a
    /// message header: messages are not handled.
    pub fn write(&mut self, buff: &[u8]) -> (r: Result<usize, Errno>)
        requires
            old(self).wf(),
            old(self).written().len() + buff@.len() < NLMSG_HDR_SIZE,
        ensures
            final(self).wf(),
            final(self).readable() == old(self).readable(),
            final(self).family_spec() == old(self).family_spec(),
            r == Ok::<usize, Errno>(buff@.len() as usize),
            final(self).written() == old(self).written() + buff@,
    {
        let len = self.write_buff.write(buff);
        assert(buff@.subrange(0, buff@.len() as int) =~= buff@);
        Ok(len)
    }
}

} // verus!
