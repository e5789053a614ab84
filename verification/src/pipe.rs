//! A pipe is an object that links two file descriptors together. One reading and another
//! writing, with a buffer in between.
//!
//! Reading from an empty pipe, or writing to a full one, waits for the other side. The functions
//! here make each attempt and say whether it completes or has to wait; waiting and waking the
//! other side are the caller's part.
use crate::errno::Errno;
use crate::file::{FileType, Stat};
use crate::ring_buffer::RingBuffer;
use vstd::prelude::*;

verus! {

/// The size of the buffer of a pipe, in bytes.
pub const PIPE_BUF: usize = 4096;
/// `ioctl` request: get the number of bytes available to read.
pub const FIONREAD: u32 = 0x541b;

/// A FIFO buffer with its counts of readers and writers.
#[derive(Debug)]
pub struct PipeBuffer {
    /// The pipe's buffer.
    buffer: RingBuffer,
    /// The number of readers on the pipe.
    readers: usize,
    /// The number of writers on the pipe.
    writers: usize,
}

/// The outcome of an attempt to read from a pipe.
#[derive(Clone, Copy, Debug, PartialEq, Eq, Structural)]
pub enum ReadStep {
    /// The read is done, with the given number of bytes; when it is not zero, the next waiting
    /// writer is to be woken up.
    Done(usize),
    /// The pipe is empty and has writers: the reader has to wait.
    Wait,
}

/// The outcome of an attempt to write to a pipe.
#[derive(Clone, Copy, Debug, PartialEq, Eq, Structural)]
pub enum WriteStep {
    /// The write is done, with the given number of bytes; when it is not zero, the next waiting
    /// reader is to be woken up.
    Done(usize),
    /// The pipe has no reader: the writer is to receive `SIGPIPE`, and the write fails with
    /// [`Errno::EPIPE`].
    Broken,
    /// The pipe is full: the writer has to wait.
    Wait,
}

impl PipeBuffer {
    /// The bytes in the pipe, oldest first.
    pub closed spec fn view(&self) -> Seq<u8> {
        self.buffer@
    }

    /// The number of readers.
    pub closed spec fn readers_spec(&self) -> nat {
        self.readers as nat
    }

    /// The number of writers.
    pub closed spec fn writers_spec(&self) -> nat {
        self.writers as nat
    }

    /// The size of the buffer.
    pub closed spec fn capacity_spec(&self) -> nat {
        self.buffer.capacity_spec()
    }

    /// The pipe is consistent.
    pub closed spec fn wf(&self) -> bool {
        self.buffer.wf() && self.buffer.capacity_spec() == PIPE_BUF
    }

    /// Creates an empty pipe, with no reader and no writer.
    pub fn new() -> (p: Self)
        ensures
            p.wf(),
            p@ == Seq::<u8>::empty(),
            p.readers_spec() == 0,
            p.writers_spec() == 0,
            p.capacity_spec() == PIPE_BUF,
    {
        PipeBuffer { buffer: RingBuffer::new(PIPE_BUF), readers: 0, writers: 0 }
    }

    /// Returns the capacity of the pipe in bytes.
    pub fn get_capacity(&self) -> (n: usize)
        requires
            self.wf(),
        ensures
            n == PIPE_BUF,
    {
        self.buffer.capacity()
    }

    /// Returns the status of the pipe: a FIFO that everyone can read and write.
    pub fn get_stat(&self) -> (st: Stat)
        ensures
            st.mode == FileType::Fifo.mode_bits() | 0o666,
            st.nlink == 1,
            st.uid == 0,
            st.gid == 0,
            st.size == 0,
            st.blocks == 0,
            st.dev_major == 0,
            st.dev_minor == 0,
            st.ctime == 0,
            st.mtime == 0,
            st.atime == 0,
    {
        let mut st = Stat::default();
        st.mode = FileType::Fifo.to_mode() | 0o666;
        st
    }

    /// Registers an open file on the pipe: a reader if `can_read`, a writer if `can_write`.
    pub fn acquire(&mut self, can_read: bool, can_write: bool)
        requires
            old(self).wf(),
            can_read ==> old(self).readers_spec() < usize::MAX,
            can_write ==> old(self).writers_spec() < usize::MAX,
        ensures
            final(self).wf(),
            final(self)@ == old(self)@,
            final(self).readers_spec() == old(self).readers_spec() + if can_read { 1nat } else { 0nat },
            final(self).writers_spec() == old(self).writers_spec() + if can_write { 1nat } else { 0nat },
    {
        if can_read {
            self.readers = self.readers + 1;
        }
        if can_write {
            self.writers = self.writers + 1;
        }
    }

    /// Unregisters an open file from the pipe: a reader if `can_read`, a writer if `can_write`.
    ///
    /// The function returns whether the waiting readers and writers are to be woken up: when
    /// one side is left with no file while the other still has some.
    pub fn release(&mut self, can_read: bool, can_write: bool) -> (wake: bool)
        requires
            old(self).wf(),
            can_read ==> old(self).readers_spec() > 0,
            can_write ==> old(self).writers_spec() > 0,
        ensures
            final(self).wf(),
            final(self)@ == old(self)@,
            final(self).readers_spec() == old(self).readers_spec() - if can_read { 1int } else { 0int },
            final(self).writers_spec() == old(self).writers_spec() - if can_write { 1int } else { 0int },
            wake == ((final(self).readers_spec() == 0) != (final(self).writers_spec() == 0)),
    {
        if can_read {
            self.readers = self.readers - 1;
        }
        if can_write {
            self.writers = self.writers - 1;
        }
        (self.readers == 0) != (self.writers == 0)
    }

    /// Performs the control operation `request`: [`FIONREAD`] returns the number of bytes to
    /// read, to be copied to the caller. Other requests fail with [`Errno::ENOTTY`].
    pub fn ioctl(&self, request: u32) -> (r: Result<i32, Errno>)
        requires
            self.wf(),
        ensures
            request == FIONREAD ==> r == Ok::<i32, Errno>(self@.len() as i32),
            request != FIONREAD ==> r == Err::<i32, Errno>(Errno::ENOTTY),
    {
        if request == FIONREAD {
            let len = self.buffer.get_data_len();
            Ok(len as i32)
        } else {
            Err(Errno::ENOTTY)
        }
    }

    /// Attempts to read from the pipe into `buf`: the oldest bytes are moved into it, as many
    /// as fit. A read into an empty buffer is done at once, as is one from an empty pipe that
    /// has no writer left (end of file).
    pub fn read(&mut self, buf: &mut [u8]) -> (r: ReadStep)
        requires
            old(self).wf(),
        ensures
            final(self).wf(),
            final(self).readers_spec() == old(self).readers_spec(),
            final(self).writers_spec() == old(self).writers_spec(),
            ({
                let n = if old(buf)@.len() < old(self)@.len() {
                    old(buf)@.len()
                } else {
                    old(self)@.len()
                };
                &&& final(self)@ == old(self)@.subrange(n as int, old(self)@.len() as int)
                &&& final(buf)@ == old(self)@.subrange(0, n as int) + old(buf)@.subrange(
                    n as int,
                    old(buf)@.len() as int,
                )
                &&& r == if n > 0 || old(buf)@.len() == 0 || old(self).writers_spec() == 0 {
                    ReadStep::Done(n as usize)
                } else {
                    ReadStep::Wait
                }
            }),
    {
        if buf.len() == 0 {
            proof {
                assert(self@.subrange(0, self@.len() as int) =~= self@);
                assert(buf@.subrange(0, 0) + buf@.subrange(0, buf@.len() as int) =~= buf@);
            }
            return ReadStep::Done(0);
        }
        let len = self.buffer.read(buf);
        if len > 0 {
            ReadStep::Done(len)
        } else if self.writers == 0 {
            ReadStep::Done(0)
        } else {
            ReadStep::Wait
        }
    }

    /// Attempts to write `buf` to the pipe: as many of its bytes as there is room for are
    /// appended. A write of nothing is done at once. If the pipe has no reader, nothing is
    /// written and the write is broken.
    pub fn write(&mut self, buf: &[u8]) -> (r: WriteStep)
        requires
            old(self).wf(),
        ensures
            final(self).wf(),
            final(self).readers_spec() == old(self).readers_spec(),
            final(self).writers_spec() == old(self).writers_spec(),
            buf@.len() == 0 ==> r == WriteStep::Done(0) && final(self)@ == old(self)@,
            buf@.len() > 0 && old(self).readers_spec() == 0 ==> r == WriteStep::Broken && final(self)@
                == old(self)@,
            buf@.len() > 0 && old(self).readers_spec() > 0 ==> {
                let room = PIPE_BUF - 1 - old(self)@.len();
                let n = if buf@.len() < room {
                    buf@.len() as int
                } else {
                    room
                };
                &&& final(self)@ == old(self)@ + buf@.subrange(0, n)
                &&& r == if n > 0 {
                    WriteStep::Done(n as usize)
                } else {
                    WriteStep::Wait
                }
            },
    {
        if buf.len() == 0 {
            return WriteStep::Done(0);
        }
        if self.readers == 0 {
            return WriteStep::Broken;
        }
        let len = self.buffer.write(buf);
        if len > 0 {
            WriteStep::Done(len)
        } else {
            WriteStep::Wait
        }
    }
}

} // verus!
