//! Userspace memory access utilities.
//!
//! The memory of the running process is a [`UserMemory`]: bytes at addresses from zero on, by
//! pages that are mapped or not. Copying from or to an address that is not mapped faults, which
//! the copy reports as [`Errno::EFAULT`]. Before copying, accessors check that the range lies in
//! the userspace, below [`PROCESS_END`].
use crate::errno::Errno;
use crate::memory::{PAGE_SIZE, PROCESS_END};
use crate::path::PathBuf;
use core::marker::PhantomData;
use vstd::prelude::*;

verus! {

/// The range of `n` bytes at `addr` lies in the userspace.
pub open spec fn in_userspace(addr: int, n: int) -> bool {
    addr + n <= PROCESS_END
}

/// Tells whether the range of `n` bytes at `addr` lies in the userspace.
pub fn bound_check(addr: u64, n: u64) -> (b: bool)
    ensures
        b == in_userspace(addr as int, n as int),
{
    match addr.checked_add(n) {
        Some(end) => end <= PROCESS_END,
        None => false,
    }
}

/// The memory of the running process.
#[derive(Debug)]
pub struct UserMemory {
    /// The bytes at addresses from zero on.
    bytes: Vec<u8>,
    /// Whether each page of `bytes` is mapped.
    mapped: Vec<bool>,
}

impl UserMemory {
    /// The memory covers whole pages of the userspace.
    pub closed spec fn wf(&self) -> bool {
        &&& self.bytes@.len() == self.mapped@.len() * PAGE_SIZE
        &&& self.bytes@.len() <= PROCESS_END
    }

    /// The byte at `addr` can be accessed: its page is mapped.
    pub closed spec fn accessible(&self, addr: int) -> bool {
        0 <= addr < self.bytes@.len() && self.mapped@[addr / (PAGE_SIZE as int)]
    }

    /// The number of bytes the memory covers, from address zero on.
    pub closed spec fn size(&self) -> nat {
        self.bytes@.len()
    }

    /// The byte at `addr`, or zero if the memory does not cover it.
    pub closed spec fn byte(&self, addr: int) -> u8 {
        if 0 <= addr < self.bytes@.len() {
            self.bytes@[addr]
        } else {
            0
        }
    }

    /// The bytes `[addr, addr + k)` can all be accessed.
    pub open spec fn all_accessible(&self, addr: int, k: int) -> bool {
        forall|j: int| 0 <= j < k ==> #[trigger] self.accessible(addr + j)
    }

    /// The `n` bytes at `addr`.
    pub open spec fn range(&self, addr: int, n: int) -> Seq<u8> {
        Seq::new(n as nat, |j: int| self.byte(addr + j))
    }

    /// Creates a memory of `pages` pages, none mapped, filled with zeros.
    pub fn new(pages: usize) -> (m: Self)
        requires
            pages * PAGE_SIZE <= PROCESS_END,
            pages * PAGE_SIZE <= usize::MAX,
        ensures
            m.wf(),
            m.size() == pages * PAGE_SIZE,
            forall|a: int| !#[trigger] m.accessible(a),
            forall|a: int| 0 <= a < pages * PAGE_SIZE ==> #[trigger] m.byte(a) == 0,
    {
        let mut mapped: Vec<bool> = Vec::new();
        let mut i: usize = 0;
        while i < pages
            invariant
                i <= pages,
                mapped@.len() == i,
                forall|j: int| 0 <= j < i ==> !#[trigger] mapped@[j],
            decreases pages - i,
        {
            mapped.push(false);
            i += 1;
        }
        let bytes: Vec<u8> = vec![0u8; pages * PAGE_SIZE];
        let m = UserMemory { bytes, mapped };
        assert forall|a: int| !#[trigger] m.accessible(a) by {
            if 0 <= a < m.bytes@.len() {
                assert(0 <= a / (PAGE_SIZE as int)) by (nonlinear_arith)
                    requires
                        0 <= a,
                ;
                assert(a / (PAGE_SIZE as int) < pages) by (nonlinear_arith)
                    requires
                        a < pages * PAGE_SIZE,
                ;
            }
        }
        m
    }

    /// Maps the page of index `page`, if the memory covers it.
    pub fn map_page(&mut self, page: usize)
        requires
            old(self).wf(),
        ensures
            final(self).wf(),
            forall|a: int| #[trigger] final(self).byte(a) == old(self).byte(a),
            forall|a: int|
                #[trigger] final(self).accessible(a) == (old(self).accessible(a) || (0 <= a
                    < old(self).size() && a / (PAGE_SIZE as int) == page)),
            final(self).size() == old(self).size(),
    {
        if page < self.mapped.len() {
            self.mapped.set(page, true);
        }
    }

    /// Returns the index in the memory of the byte at `addr`, if it can be accessed.
    fn index_of(&self, addr: u64) -> (r: Option<usize>)
        requires
            self.wf(),
        ensures
            r is Some == self.accessible(addr as int),
            r matches Some(i) ==> i == addr && i < self.bytes@.len(),
    {
        if addr >= self.bytes.len() as u64 {
            return None;
        }
        let a = addr as usize;
        assert(a / PAGE_SIZE < self.mapped@.len()) by (nonlinear_arith)
            requires
                a < self.bytes@.len(),
                self.bytes@.len() == self.mapped@.len() * PAGE_SIZE,
        ;
        if self.mapped[a / PAGE_SIZE] {
            Some(a)
        } else {
            None
        }
    }

    /// Copies the `n` bytes at `addr` into the first `n` bytes of `dst`, one after the other.
    ///
    /// If a byte cannot be accessed, the copy stops there and the function returns
    /// [`Errno::EFAULT`]: the bytes before it have been copied.
    pub fn read(&self, addr: u64, dst: &mut [u8], n: usize) -> (r: Result<(), Errno>)
        requires
            self.wf(),
            n <= old(dst)@.len(),
        ensures
            final(dst)@.len() == old(dst)@.len(),
            r is Ok <==> self.all_accessible(addr as int, n as int),
            r is Err ==> r == Err::<(), Errno>(Errno::EFAULT),
            forall|k: int|
                0 <= k < n && self.all_accessible(addr as int, k + 1) ==> #[trigger] final(dst)@[k]
                    == self.byte(addr + k),
            forall|k: int|
                0 <= k < old(dst)@.len() && !(k < n && self.all_accessible(addr as int, k + 1))
                    ==> #[trigger] final(dst)@[k] == old(dst)@[k],
    {
        let mut k: usize = 0;
        while k < n
            invariant
                self.wf(),
                k <= n,
                n <= dst@.len(),
                dst@.len() == old(dst)@.len(),
                self.all_accessible(addr as int, k as int),
                forall|j: int| 0 <= j < k ==> #[trigger] dst@[j] == self.byte(addr + j),
                forall|j: int| k <= j < dst@.len() ==> #[trigger] dst@[j] == old(dst)@[j],
            decreases n - k,
        {
            let a = match addr.checked_add(k as u64) {
                Some(a) => a,
                None => {
                    assert(!self.accessible(addr + k));
                    proof {
                        lemma_stop_at(self, addr as int, k as int, n as int);
                    }
                    return Err(Errno::EFAULT);
                },
            };
            let ai = match self.index_of(a) {
                Some(i) => i,
                None => {
                    proof {
                        lemma_stop_at(self, addr as int, k as int, n as int);
                    }
                    return Err(Errno::EFAULT);
                },
            };
            dst[k] = self.bytes[ai];
            k += 1;
        }
        Ok(())
    }

    /// Copies the `n` first bytes of `src` to the memory at `addr`, one after the other.
    ///
    /// If a byte cannot be accessed, the copy stops there and the function returns
    /// [`Errno::EFAULT`]: the bytes before it have been copied.
    pub fn write(&mut self, addr: u64, src: &[u8], n: usize) -> (r: Result<(), Errno>)
        requires
            old(self).wf(),
            n <= src@.len(),
        ensures
            final(self).wf(),
            final(self).size() == old(self).size(),
            forall|a: int| #[trigger] final(self).accessible(a) == old(self).accessible(a),
            r is Ok <==> old(self).all_accessible(addr as int, n as int),
            r is Err ==> r == Err::<(), Errno>(Errno::EFAULT),
            forall|a: int|
                #[trigger] final(self).byte(a) == if addr <= a < addr + n
                    && old(self).all_accessible(addr as int, a - addr + 1) {
                    src@[a - addr]
                } else {
                    old(self).byte(a)
                },
    {
        let mut k: usize = 0;
        while k < n
            invariant
                self.wf(),
                k <= n,
                n <= src@.len(),
                self.mapped@ == old(self).mapped@,
                self.bytes@.len() == old(self).bytes@.len(),
                old(self).all_accessible(addr as int, k as int),
                forall|a: int|
                    #[trigger] self.byte(a) == if addr <= a < addr + k {
                        src@[a - addr]
                    } else {
                        old(self).byte(a)
                    },
            decreases n - k,
        {
            let a = match addr.checked_add(k as u64) {
                Some(a) => a,
                None => {
                    assert(!old(self).accessible(addr + k));
                    proof {
                        lemma_stop_at(old(self), addr as int, k as int, n as int);
                    }
                    return Err(Errno::EFAULT);
                },
            };
            let ai = match self.index_of(a) {
                Some(i) => i,
                None => {
                    proof {
                        lemma_stop_at(old(self), addr as int, k as int, n as int);
                    }
                    return Err(Errno::EFAULT);
                },
            };
            let ghost s0 = *self;
            self.bytes.set(ai, src[k]);
            assert forall|x: int| #[trigger] self.byte(x) == (if addr <= x < addr + k + 1 {
                src@[x - addr]
            } else {
                old(self).byte(x)
            }) by {
                assert(s0.byte(x) == (if addr <= x < addr + k {
                    src@[x - addr]
                } else {
                    old(self).byte(x)
                }));
                if x != ai as int && 0 <= x < s0.bytes@.len() {
                    assert(self.bytes@[x] == s0.bytes@[x]);
                }
            }
            k += 1;
        }
        assert forall|a: int| #[trigger] self.byte(a) == (if addr <= a < addr + n
            && old(self).all_accessible(addr as int, a - addr + 1) {
            src@[a - addr]
        } else {
            old(self).byte(a)
        }) by {
            if addr <= a < addr + n {
                assert(old(self).all_accessible(addr as int, a - addr + 1));
            }
        }
        Ok(())
    }
}

/// When the byte `k` of a copy from `addr` cannot be accessed, no prefix reaching past it can.
proof fn lemma_stop_at(m: &UserMemory, addr: int, k: int, n: int)
    requires
        0 <= k,
        !m.accessible(addr + k),
    ensures
        !m.all_accessible(addr, n) || n <= k,
        forall|j: int| k <= j ==> !#[trigger] m.all_accessible(addr, j + 1),
{
    assert forall|j: int| k <= j implies !#[trigger] m.all_accessible(addr, j + 1) by {
        if m.all_accessible(addr, j + 1) {
            assert(m.accessible(addr + k));
        }
    }
    if n > k && m.all_accessible(addr, n) {
        assert(m.accessible(addr + k));
    }
}

} // verus!
