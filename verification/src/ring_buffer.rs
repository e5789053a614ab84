//! Ring buffer of bytes.
//!
//! The buffer holds at most `capacity - 1` bytes: one slot always stays free so that an empty
//! buffer (equal cursors) can be told apart from a full one.
use vstd::prelude::*;

verus! {

/// The position in a linear storage of `cap` bytes that lies `k` bytes after `cursor`, wrapping
/// around the end of the storage.
pub open spec fn wrap(cursor: int, k: int, cap: int) -> int {
    if cursor + k < cap {
        cursor + k
    } else {
        cursor + k - cap
    }
}

/// The number of bytes between the read cursor `r` and the write cursor `w` of a ring of `cap`
/// bytes.
pub open spec fn span(r: int, w: int, cap: int) -> int {
    if r <= w {
        w - r
    } else {
        cap - (r - w)
    }
}

/// Ring buffer of `u8`.
#[derive(Debug)]
pub struct RingBuffer {
    /// The linear, allocated buffer
    buf: Vec<u8>,
    /// The offset of the read cursor in the buffer
    read_cursor: usize,
    /// The offset of the write cursor in the buffer
    write_cursor: usize,
}

impl View for RingBuffer {
    type V = Seq<u8>;

    /// The bytes held by the ring, oldest first.
    closed spec fn view(&self) -> Seq<u8> {
        Seq::new(
            self.len_spec(),
            |k: int|
                self.buf@[wrap(self.read_cursor as int, k, self.buf@.len() as int)],
        )
    }
}

impl RingBuffer {
    /// The ring's storage is not empty and both cursors lie within it.
    pub closed spec fn wf(&self) -> bool {
        &&& self.buf@.len() > 0
        &&& self.read_cursor < self.buf@.len()
        &&& self.write_cursor < self.buf@.len()
    }

    /// The size of the buffer in bytes.
    pub closed spec fn capacity_spec(&self) -> nat {
        self.buf@.len()
    }

    /// The number of bytes held by the ring.
    pub closed spec fn len_spec(&self) -> nat {
        span(self.read_cursor as int, self.write_cursor as int, self.buf@.len() as int) as nat
    }

    /// Creates a new instance.
    ///
    /// `capacity` is the size of the buffer in bytes.
    pub fn new(capacity: usize) -> (r: Self)
        requires
            capacity > 0,
        ensures
            r.wf(),
            r.capacity_spec() == capacity,
            r@ == Seq::<u8>::empty(),
    {
        let buf = vec![0u8; capacity];
        let r = RingBuffer { buf, read_cursor: 0, write_cursor: 0 };
        assert(r@ =~= Seq::<u8>::empty());
        r
    }

    /// Returns the size of the buffer in bytes.
    pub fn capacity(&self) -> (n: usize)
        requires
            self.wf(),
        ensures
            n == self.capacity_spec(),
            n > 0,
            self@.len() < n,
    {
        self.buf.len()
    }

    /// Tells whether the ring is empty.
    pub fn is_empty(&self) -> (b: bool)
        requires
            self.wf(),
        ensures
            b == (self@.len() == 0),
    {
        self.read_cursor == self.write_cursor
    }

    /// Tells whether the ring is full.
    pub fn is_full(&self) -> (b: bool)
        requires
            self.wf(),
        ensures
            b == (self@.len() == self.capacity_spec() - 1),
    {
        self.get_available_len() == 0
    }

    /// Returns the length of the data in the buffer.
    ///
    /// If the buffer is empty, the function returns zero.
    pub fn get_data_len(&self) -> (n: usize)
        requires
            self.wf(),
        ensures
            n == self@.len(),
            n < self.capacity_spec(),
    {
        if self.read_cursor <= self.write_cursor {
            self.write_cursor - self.read_cursor
        } else {
            self.buf.len() - (self.read_cursor - self.write_cursor)
        }
    }

    /// Returns the length of the available space in the buffer.
    pub fn get_available_len(&self) -> (n: usize)
        requires
            self.wf(),
        ensures
            n == self.capacity_spec() - self@.len() - 1,
    {
        self.capacity() - self.get_data_len() - 1
    }

    /// Peeks data from the buffer and writes it in `buf`.
    ///
    /// Contrary to `read`, this function does not consume the data.
    ///
    /// The function returns the number of bytes read.
    pub fn peek(&self, buf: &mut [u8]) -> (n: usize)
        requires
            self.wf(),
        ensures
            n == if old(buf)@.len() < self@.len() {
                old(buf)@.len()
            } else {
                self@.len()
            },
            final(buf)@ == self@.subrange(0, n as int).add(
                old(buf)@.subrange(n as int, old(buf)@.len() as int),
            ),
    {
        let data_len = self.get_data_len();
        let len = if buf.len() < data_len {
            buf.len()
        } else {
            data_len
        };
        let cap = self.buf.len();
        let ghost b0 = buf@;
        let mut pos = self.read_cursor;
        let mut k: usize = 0;
        while k < len
            invariant
                cap == self.buf@.len(),
                cap > 0,
                self.read_cursor < cap,
                len <= self@.len(),
                len <= b0.len(),
                buf@.len() == b0.len(),
                k <= len,
                pos == wrap(self.read_cursor as int, k as int, cap as int),
                pos < cap,
                self@.len() < cap,
                forall|j: int| 0 <= j < k ==> buf@[j] == self@[j],
                forall|j: int| k <= j < b0.len() ==> buf@[j] == b0[j],
            decreases len - k,
        {
            buf[k] = self.buf[pos];
            pos = if pos + 1 == cap {
                0
            } else {
                pos + 1
            };
            k += 1;
        }
        assert(buf@ =~= self@.subrange(0, len as int).add(
            b0.subrange(len as int, b0.len() as int),
        ));
        len
    }

    /// Reads data from the buffer and writes it in `buf`, consuming it.
    ///
    /// The function returns the number of bytes read.
    pub fn read(&mut self, buf: &mut [u8]) -> (n: usize)
        requires
            old(self).wf(),
        ensures
            final(self).wf(),
            n == if old(buf)@.len() < old(self)@.len() {
                old(buf)@.len()
            } else {
                old(self)@.len()
            },
            final(buf)@ == old(self)@.subrange(0, n as int).add(
                old(buf)@.subrange(n as int, old(buf)@.len() as int),
            ),
            final(self)@ == old(self)@.subrange(n as int, old(self)@.len() as int),
            final(self).capacity_spec() == old(self).capacity_spec(),
    {
        let len = self.peek(buf);
        let cap = self.buf.len();
        let ghost v0 = self@;
        let ghost r0 = self.read_cursor as int;
        self.read_cursor = if len >= cap - self.read_cursor {
            len - (cap - self.read_cursor)
        } else {
            self.read_cursor + len
        };
        assert(self@ =~= v0.subrange(len as int, v0.len() as int)) by {
            assert forall|k: int| 0 <= k < self@.len() implies self@[k] == v0[len + k] by {
                assert(wrap(self.read_cursor as int, k, cap as int) == wrap(
                    r0,
                    len + k,
                    cap as int,
                ));
            }
        }
        len
    }

    /// Writes data in `buf` to the buffer, as much as the available space allows.
    ///
    /// The function returns the number of bytes written.
    pub fn write(&mut self, buf: &[u8]) -> (n: usize)
        requires
            old(self).wf(),
        ensures
            final(self).wf(),
            n == if buf@.len() < old(self).capacity_spec() - old(self)@.len() - 1 {
                buf@.len() as int
            } else {
                old(self).capacity_spec() - old(self)@.len() - 1
            },
            final(self)@ == old(self)@.add(buf@.subrange(0, n as int)),
            final(self).capacity_spec() == old(self).capacity_spec(),
    {
        let avail = self.get_available_len();
        let len = if buf.len() < avail {
            buf.len()
        } else {
            avail
        };
        let cap = self.buf.len();
        let ghost v0 = self@;
        let ghost s0 = self.buf@;
        let ghost r = self.read_cursor as int;
        let ghost w0 = self.write_cursor as int;
        let ghost l0 = v0.len() as int;
        assert(w0 == wrap(r, l0, cap as int));
        let mut pos = self.write_cursor;
        let mut k: usize = 0;
        while k < len
            invariant
                cap == self.buf@.len(),
                cap == s0.len(),
                self.read_cursor == r,
                0 <= r < cap,
                0 <= l0,
                l0 + len < cap,
                len <= buf@.len(),
                k <= len,
                pos == wrap(r, l0 + k, cap as int),
                pos < cap,
                forall|j: int|
                    0 <= j < k ==> self.buf@[wrap(r, l0 + j, cap as int)] == buf@[j],
                forall|i: int|
                    0 <= i < l0 ==> self.buf@[wrap(r, i, cap as int)] == s0[wrap(
                        r,
                        i,
                        cap as int,
                    )],
            decreases len - k,
        {
            self.buf.set(pos, buf[k]);
            proof {
                assert forall|i: int|
                    0 <= i < l0 implies self.buf@[wrap(r, i, cap as int)] == s0[wrap(
                    r,
                    i,
                    cap as int,
                )] by {
                    assert(wrap(r, i, cap as int) != wrap(r, l0 + k, cap as int));
                }
            }
            pos = if pos + 1 == cap {
                0
            } else {
                pos + 1
            };
            k += 1;
        }
        self.write_cursor = pos;
        assert(self@ =~= v0.add(buf@.subrange(0, len as int))) by {
            assert(self.len_spec() == l0 + len);
            assert forall|i: int| 0 <= i < self@.len() implies self@[i] == v0.add(
                buf@.subrange(0, len as int),
            )[i] by {
                if i < l0 {
                    assert(self.buf@[wrap(r, i, cap as int)] == s0[wrap(r, i, cap as int)]);
                } else {
                    assert(self.buf@[wrap(r, l0 + (i - l0), cap as int)] == buf@[i - l0]);
                }
            }
        }
        len
    }

    /// Clears the buffer.
    pub fn clear(&mut self)
        requires
            old(self).wf(),
        ensures
            final(self).wf(),
            final(self)@ == Seq::<u8>::empty(),
            final(self).capacity_spec() == old(self).capacity_spec(),
    {
        self.read_cursor = 0;
        self.write_cursor = 0;
        assert(self@ =~= Seq::<u8>::empty());
    }
}

/// Bytes come out of a ring buffer in the order they went in: reading `m` bytes from a ring that
/// held `v` and then received `d` gives back the first `m` bytes of `v` followed by `d`.
pub proof fn lemma_fifo(v: Seq<u8>, d: Seq<u8>, m: int)
    requires
        0 <= m <= v.len() + d.len(),
    ensures
        v.add(d).subrange(0, m) == if m <= v.len() {
            v.subrange(0, m)
        } else {
            v.add(d.subrange(0, m - v.len()))
        },
        v.add(d).subrange(m, (v.len() + d.len()) as int) == if m <= v.len() {
            v.subrange(m, v.len() as int).add(d)
        } else {
            d.subrange(m - v.len(), d.len() as int)
        },
{
    if m <= v.len() {
        assert(v.add(d).subrange(0, m) =~= v.subrange(0, m));
        assert(v.add(d).subrange(m, (v.len() + d.len()) as int) =~= v.subrange(m, v.len() as int).add(d));
    } else {
        assert(v.add(d).subrange(0, m) =~= v.add(d.subrange(0, m - v.len())));
        assert(v.add(d).subrange(m, (v.len() + d.len()) as int) =~= d.subrange(
            m - v.len(),
            d.len() as int,
        ));
    }
}

} // verus!
