//! x86 virtual memory works with a tree structure. Each element is an array of sub-elements. The
//! position of the elements in the arrays allows to tell the virtual address for the mapping.
//!
//! This module is the 32 bits (x86) paging: its addresses are 32 bits wide and its userspace ends
//! at [`PROCESS_END`] (`0xc0000000`), as the kernel lays out memory on x86. The layout of
//! [`crate::memory`] is that of x86_64.
//!
//! Under 32 bits, elements are arrays of 32 bits long words that can contain 1024 entries:
//! - Page directory: the main element, contains page tables
//! - Page table: represents a block of 4MB, each entry is a page
//!
//! Pages are 4096 bytes large. Each entry of an element contains the physical address of the
//! element or page it points to and some flags. The Page Size Extension (PSE) allows to map 4MB
//! large blocks without using a page table.
//!
//! The page tables of a context are kept in a table store: the table in slot `s` of the store
//! lies at the physical address `s * 4096`.
use crate::errno::AllocError;
use vstd::prelude::*;

verus! {

/// Paging entry.
pub type Entry = u32;

/// **x86 paging flag**: If set, prevents the CPU from updating the associated addresses when the
/// TLB is flushed.
pub const FLAG_GLOBAL: Entry = 0b100000000;
/// **x86 paging flag**: If set, pages are 4 MB long.
pub const FLAG_PAGE_SIZE: Entry = 0b010000000;
/// **x86 paging flag**: Indicates that the page has been written.
pub const FLAG_DIRTY: Entry = 0b001000000;
/// **x86 paging flag**: Set if the page has been read or written.
pub const FLAG_ACCESSED: Entry = 0b000100000;
/// **x86 paging flag**: If set, page will not be cached.
pub const FLAG_CACHE_DISABLE: Entry = 0b000010000;
/// **x86 paging flag**: If set, write-through caching is enabled.
pub const FLAG_WRITE_THROUGH: Entry = 0b000001000;
/// **x86 paging flag**: If set, the page can be accessed by userspace operations.
pub const FLAG_USER: Entry = 0b000000100;
/// **x86 paging flag**: If set, the page can be written.
pub const FLAG_WRITE: Entry = 0b000000010;
/// **x86 paging flag**: If set, the page is present.
pub const FLAG_PRESENT: Entry = 0b000000001;
/// Flags mask in a page directory entry.
pub const FLAGS_MASK: Entry = 0xfff;
/// Address mask in a page directory entry.
pub const ADDR_MASK: Entry = 0xfffff000;
/// The number of entries in a table.
pub const ENTRIES_PER_TABLE: usize = 1024;
/// The number of tables reserved for the userspace, at the beginning of the page directory.
pub const USERSPACE_TABLES: usize = 768;
/// The size of a page in bytes.
pub const PAGE_SIZE: u32 = 4096;
/// The number of slots of the table store: as many as there are pages in physical memory.
pub const MAX_TABLES: usize = 0x100000;
/// The end of the userspace in virtual memory.
pub const PROCESS_END: u32 = 0xc0000000;
/// Kernel space entries flags.
pub const KERNEL_FLAGS: Entry = 0b100000111;

/// The entry is present.
pub open spec fn present(e: Entry) -> bool {
    e & FLAG_PRESENT != 0
}

/// The entry maps a 4MB block.
pub open spec fn is_pse(e: Entry) -> bool {
    e & FLAG_PAGE_SIZE != 0
}

/// The slot of the table store that the entry points to.
pub open spec fn slot_of(e: Entry) -> int {
    (e >> 12u32) as int
}

/// The index of the entry for `v` in the page directory.
pub open spec fn dir_index(v: u32) -> int {
    ((v >> 22u32) & 0x3ff) as int
}

/// The index of the entry for `v` in its page table.
pub open spec fn table_index(v: u32) -> int {
    ((v >> 12u32) & 0x3ff) as int
}

/// The entry pointing to the object at the page-aligned address `addr` with the flags `flags`,
/// sanitized, and present.
pub open spec fn entry_of(addr: u32, flags: Entry) -> Entry {
    addr | (flags & FLAGS_MASK | FLAG_PRESENT)
}

/// The view of a virtual memory context: the page directory, and the table store.
pub struct PagingView {
    /// The entries of the page directory.
    pub dir: Seq<Entry>,
    /// The slots of the table store, empty or holding a table's entries.
    pub tables: Seq<Option<Seq<Entry>>>,
}

/// The physical address that the virtual address `v` translates to, if it is mapped.
pub open spec fn translate_view(m: PagingView, v: u32) -> Option<u32> {
    let e = m.dir[dir_index(v)];
    if !present(e) {
        None
    } else if is_pse(e) {
        Some((e & ADDR_MASK) | (v & 0x3fffff))
    } else {
        let te = m.tables[slot_of(e)]->0[table_index(v)];
        if !present(te) {
            None
        } else {
            Some((te & ADDR_MASK) | (v & 0xfff))
        }
    }
}

/// The context is consistent: a full page directory whose present table entries point to tables
/// of the store, and full tables.
pub open spec fn paging_wf(m: PagingView) -> bool {
    &&& m.dir.len() == ENTRIES_PER_TABLE
    &&& m.tables.len() <= MAX_TABLES
    &&& forall|s: int| 0 <= s < m.tables.len() ==> (#[trigger] m.tables[s] matches Some(t) ==> t.len()
        == ENTRIES_PER_TABLE)
    &&& forall|i: int|
        0 <= i < ENTRIES_PER_TABLE ==> (present(#[trigger] m.dir[i]) && !is_pse(m.dir[i])
            ==> slot_of(m.dir[i]) < m.tables.len() && m.tables[slot_of(m.dir[i])] is Some)
    &&& m.tables.len() > 0 ==> m.tables.last() is Some
    &&& forall|i: int, j: int|
        0 <= i < ENTRIES_PER_TABLE && 0 <= j < ENTRIES_PER_TABLE && i != j && points_to_table(
            #[trigger] m.dir[i],
        ) && points_to_table(#[trigger] m.dir[j]) ==> slot_of(m.dir[i]) != slot_of(m.dir[j])
}

/// The entry of the page directory points to a page table.
pub open spec fn points_to_table(e: Entry) -> bool {
    present(e) && !is_pse(e)
}

/// Facts on entries and address indices.
proof fn lemma_bits(addr: u32, flags: u32, v: u32, e: u32, s: u32)
    ensures
        addr & 0xfff == 0 ==> (entry_of(addr, flags) & ADDR_MASK) == addr,
        present(entry_of(addr, flags)),
        addr & 0xfff == 0 ==> is_pse(entry_of(addr, flags)) == (flags & FLAG_PAGE_SIZE != 0),
        s < 0x100000 ==> slot_of(entry_of(s << 12u32, flags)) == s,
        s < 0x100000 ==> slot_of(s << 12u32) == s,
        (s << 12u32) & 0xfff == 0,
        dir_index(v & ADDR_MASK) == dir_index(v),
        table_index(v & ADDR_MASK) == table_index(v),
        (v & ADDR_MASK) & 0xfff == 0,
        flags & 0xfff == flags ==> slot_of(e | flags) == slot_of(e),
        flags & FLAG_PAGE_SIZE == 0 ==> is_pse(e | flags) == is_pse(e),
        present(e) ==> present(e | flags),
        slot_of(e) < 0x100000,
        0 <= dir_index(v) < 1024,
        0 <= table_index(v) < 1024,
        (flags & FLAGS_MASK | FLAG_PRESENT) & 0xfff == (flags & FLAGS_MASK | FLAG_PRESENT),
        v >= PROCESS_END ==> dir_index(v) >= USERSPACE_TABLES,
{
    lemma_raw_bits(addr, flags, v, e, s);
}

/// The bit-level facts behind [`lemma_bits`].
proof fn lemma_raw_bits(addr: u32, flags: u32, v: u32, e: u32, s: u32)
    by (bit_vector)
    ensures
        addr & 0xfff == 0 ==> ((addr | (flags & 0xfff | 1)) & 0xfffff000) == addr,
        (addr | (flags & 0xfff | 1)) & 1 != 0,
        addr & 0xfff == 0 ==> (((addr | (flags & 0xfff | 1)) & 0x80 != 0) == (flags & 0x80 != 0)),
        s < 0x100000 ==> ((s << 12u32) | (flags & 0xfff | 1)) >> 12u32 == s,
        (s << 12u32) & 0xfff == 0,
        s < 0x100000 ==> (s << 12u32) >> 12u32 == s,
        ((v & 0xfffff000) >> 22u32) & 0x3ff == (v >> 22u32) & 0x3ff,
        ((v & 0xfffff000) >> 12u32) & 0x3ff == (v >> 12u32) & 0x3ff,
        (v & 0xfffff000) & 0xfff == 0,
        flags & 0xfff == flags ==> (e | flags) >> 12u32 == e >> 12u32,
        flags & 0x80 == 0 ==> (((e | flags) & 0x80 != 0) == (e & 0x80 != 0)),
        e & 1 != 0 ==> (e | flags) & 1 != 0,
        e >> 12u32 < 0x100000,
        (v >> 22u32) & 0x3ff < 1024,
        (v >> 12u32) & 0x3ff < 1024,
        (flags & 0xfff | 1) & 0xfff == (flags & 0xfff | 1),
        ((flags & 0xfff) | 1) & 0x80 == flags & 0x80,
        0u32 & 1 == 0,
        0u32 & 0x80 == 0,
        v >= 0xc0000000u32 ==> (v >> 22u32) & 0x3ff >= 768,
{
}

/// Turns the given object/flags pair into an entry for another object.
///
/// Invalid flags are ignored and the [`FLAG_PRESENT`] flag is inserted automatically.
pub fn to_entry(addr: u32, flags: Entry) -> (e: Entry)
    ensures
        e == entry_of(addr, flags),
{
    addr | (flags & FLAGS_MASK | FLAG_PRESENT)
}

/// Returns the index of the element corresponding to the given virtual address `addr` for element
/// at level `level` in the tree.
///
/// The level represents the depth in the tree. `0` is the deepest.
pub fn get_addr_element_index(addr: u32, level: usize) -> (i: usize)
    requires
        level <= 1,
    ensures
        level == 0 ==> i == table_index(addr),
        level == 1 ==> i == dir_index(addr),
        i < 1024,
{
    proof {
        lemma_bits(0, 0, addr, 0, 0);
    }
    if level == 0 {
        ((addr >> 12u32) & 0x3ff) as usize
    } else {
        ((addr >> 22u32) & 0x3ff) as usize
    }
}

/// Tells whether the given table maps nothing: none of its entries is present.
pub fn is_empty(table: &Vec<Entry>) -> (b: bool)
    ensures
        b == forall|i: int| 0 <= i < table@.len() ==> !present(#[trigger] table@[i]),
{
    let mut i: usize = 0;
    while i < table.len()
        invariant
            i <= table@.len(),
            forall|j: int| 0 <= j < i ==> !present(#[trigger] table@[j]),
        decreases table@.len() - i,
    {
        if table[i] & FLAG_PRESENT != 0 {
            return false;
        }
        i += 1;
    }
    true
}

/// Handle allowing to roll back a change made to a virtual memory context.
#[derive(Debug)]
pub struct Rollback {
    /// The virtual address of the affected page.
    pub virtaddr: u32,
    /// The entry of the page directory before the change.
    pub previous_dir: Entry,
    /// The entry of the page table before the change, if the change wrote to a table that was
    /// there before.
    pub previous_entry: Option<Entry>,
    /// A table detached from the page directory by the change, freed when the change is committed.
    pub table: Option<usize>,
    /// A table allocated by the change, freed when the change is rolled back.
    pub new_table: Option<usize>,
}

/// A virtual memory context.
#[derive(Debug)]
pub struct VMem {
    /// The page directory.
    dir: Vec<Entry>,
    /// The table store.
    tables: Vec<Option<Vec<Entry>>>,
    /// Whether transactions on the context may modify kernelspace.
    kernel: bool,
}

/// A table whose entries are all zero.
pub open spec fn zero_table() -> Seq<Entry> {
    Seq::new(1024, |i: int| 0u32)
}

/// The context of a new virtual memory context: userspace is unmapped, and each kernelspace entry
/// of the page directory points to a kernel table, empty at first. The kernel tables take the
/// first slots of the table store, in order.
pub open spec fn new_view() -> PagingView {
    PagingView {
        dir: Seq::new(
            1024,
            |i: int|
                if i < USERSPACE_TABLES {
                    0u32
                } else {
                    entry_of(((i - USERSPACE_TABLES) as u32) << 12u32, KERNEL_FLAGS)
                },
        ),
        tables: Seq::new((ENTRIES_PER_TABLE - USERSPACE_TABLES) as nat, |s: int| Some(zero_table())),
    }
}

/// Returns a table whose entries are all zero.
fn new_zero_table() -> (t: Vec<Entry>)
    ensures
        t@ == zero_table(),
{
    let mut t: Vec<Entry> = Vec::new();
    let mut k: usize = 0;
    while k < ENTRIES_PER_TABLE
        invariant
            k <= ENTRIES_PER_TABLE,
            t@.len() == k,
            forall|j: int| 0 <= j < k ==> t@[j] == 0u32,
        decreases ENTRIES_PER_TABLE - k,
    {
        t.push(0);
        k += 1;
    }
    assert(t@ =~= zero_table());
    t
}

/// The view of a slot of the table store.
pub open spec fn table_slot_view(t: Option<Vec<Entry>>) -> Option<Seq<Entry>> {
    match t {
        Some(v) => Some(v@),
        None => None,
    }
}

impl VMem {
    /// The context's page directory and table store.
    pub closed spec fn view(&self) -> PagingView {
        PagingView {
            dir: self.dir@,
            tables: self.tables@.map_values(|t: Option<Vec<Entry>>| table_slot_view(t)),
        }
    }

    /// Whether transactions on the context may modify kernelspace.
    pub closed spec fn allows_kernel(&self) -> bool {
        self.kernel
    }

    /// Creates a context with the kernel tables: see [`new_view`].
    fn with_kernel_tables(kernel: bool) -> (r: VMem)
        ensures
            r@ == new_view(),
            r.wf(),
            r.allows_kernel() == kernel,
    {
        let mut dir: Vec<Entry> = Vec::new();
        let mut i: usize = 0;
        while i < ENTRIES_PER_TABLE
            invariant
                i <= ENTRIES_PER_TABLE,
                dir@.len() == i,
                forall|j: int| 0 <= j < i ==> dir@[j] == new_view().dir[j],
            decreases ENTRIES_PER_TABLE - i,
        {
            if i < USERSPACE_TABLES {
                dir.push(0);
            } else {
                dir.push(to_entry(((i - USERSPACE_TABLES) as u32) << 12u32, KERNEL_FLAGS));
            }
            i += 1;
        }
        let mut tables: Vec<Option<Vec<Entry>>> = Vec::new();
        let mut k: usize = 0;
        while k < ENTRIES_PER_TABLE - USERSPACE_TABLES
            invariant
                k <= ENTRIES_PER_TABLE - USERSPACE_TABLES,
                tables@.len() == k,
                forall|j: int| 0 <= j < k ==> #[trigger] table_slot_view(tables@[j]) == Some(zero_table()),
            decreases ENTRIES_PER_TABLE - USERSPACE_TABLES - k,
        {
            tables.push(Some(new_zero_table()));
            k += 1;
        }
        let r = VMem { dir, tables, kernel };
        proof {
            assert(r@.dir =~= new_view().dir);
            assert(r@.tables =~= new_view().tables);
            lemma_new_view_wf();
        }
        r
    }

    /// Creates a new virtual memory context, on which transactions may not modify kernelspace.
    pub fn new() -> (r: Result<VMem, AllocError>)
        ensures
            r matches Ok(v) && v@ == new_view() && v.wf() && !v.allows_kernel(),
    {
        Ok(VMem::with_kernel_tables(false))
    }

    /// Creates a new virtual memory context on which transactions may modify kernelspace.
    pub fn new_kernel() -> (r: Result<VMem, AllocError>)
        ensures
            r matches Ok(v) && v@ == new_view() && v.wf() && v.allows_kernel(),
    {
        Ok(VMem::with_kernel_tables(true))
    }

    /// The context is consistent.
    pub open spec fn wf(&self) -> bool {
        paging_wf(self@)
    }

    /// Translates the given virtual address `addr` to the corresponding physical address.
    ///
    /// If the address is not mapped, the function returns `None`.
    pub fn translate(&self, addr: u32) -> (r: Option<u32>)
        requires
            self.wf(),
        ensures
            r == translate_view(self@, addr),
    {
        proof {
            lemma_bits(0, 0, addr, 0, 0);
        }
        let e = self.dir[get_addr_element_index(addr, 1)];
        if e & FLAG_PRESENT == 0 {
            return None;
        }
        if e & FLAG_PAGE_SIZE != 0 {
            return Some((e & ADDR_MASK) | (addr & 0x3fffff));
        }
        proof {
            lemma_bits(0, 0, addr, e, 0);
            assert(present(self@.dir[dir_index(addr)]));
        }
        let s = (e >> 12u32) as usize;
        let te = match &self.tables[s] {
            Some(t) => t[get_addr_element_index(addr, 0)],
            None => {
                return None;
            },
        };
        if te & FLAG_PRESENT == 0 {
            return None;
        }
        Some((te & ADDR_MASK) | (addr & 0xfff))
    }

    /// Allocates a zeroed table in the first free slot of the store, or in a new slot.
    ///
    /// If the store is full, the function returns an error.
    fn alloc_table(&mut self) -> (r: Result<usize, AllocError>)
        requires
            old(self).wf(),
        ensures
            final(self)@.dir == old(self)@.dir,
            match r {
                Ok(s) => {
                    &&& s < MAX_TABLES
                    &&& (s < old(self)@.tables.len() ==> old(self)@.tables[s as int] is None)
                    &&& (s >= old(self)@.tables.len() ==> s == old(self)@.tables.len())
                    &&& final(self)@.tables == if s < old(self)@.tables.len() {
                        old(self)@.tables.update(s as int, Some(Seq::new(1024, |i: int| 0u32)))
                    } else {
                        old(self)@.tables.push(Some(Seq::new(1024, |i: int| 0u32)))
                    }
                },
                Err(_) => final(self)@ == old(self)@,
            },
            r is Err <==> store_full(old(self)@.tables),
            final(self).wf(),
    {
        let t = new_zero_table();
        assert(t@ =~= Seq::new(1024, |i: int| 0u32));
        let mut s: usize = 0;
        while s < self.tables.len()
            invariant
                s <= self.tables@.len(),
                *self == *old(self),
                forall|j: int| 0 <= j < s ==> (#[trigger] self.tables@[j]) is Some,
            ensures
                s <= self.tables@.len(),
                *self == *old(self),
                s < self.tables@.len() ==> self.tables@[s as int] is None,
                forall|j: int| 0 <= j < s ==> (#[trigger] self.tables@[j]) is Some,
            decreases self.tables@.len() - s,
        {
            if self.tables[s].is_none() {
                break ;
            }
            s += 1;
        }
        let ghost v0 = self@;
        if s < self.tables.len() {
            self.tables.set(s, Some(t));
            assert(self@.tables =~= v0.tables.update(s as int, Some(Seq::new(1024, |i: int| 0u32))));
        } else {
            if self.tables.len() >= MAX_TABLES {
                assert forall|j: int| 0 <= j < v0.tables.len() implies #[trigger] v0.tables[j] is Some by {
                    assert(self.tables@[j] is Some);
                }
                return Err(AllocError);
            }
            self.tables.push(Some(t));
            assert(self@.tables =~= v0.tables.push(Some(Seq::new(1024, |i: int| 0u32))));
        }
        assert(forall|i: int| 0 <= i < ENTRIES_PER_TABLE ==> #[trigger] self@.dir[i] == v0.dir[i]);
        Ok(s)
    }

    /// Sets entry `i` of the page directory.
    fn set_dir(&mut self, i: usize, e: Entry)
        requires
            i < old(self)@.dir.len(),
        ensures
            final(self)@.dir == old(self)@.dir.update(i as int, e),
            final(self)@.tables == old(self)@.tables,
    {
        self.dir.set(i, e);
    }

    /// Sets entry `i` of the table in slot `s`, if the slot holds a table.
    fn set_table_entry(&mut self, s: usize, i: usize, e: Entry)
        requires
            s < old(self)@.tables.len(),
            old(self)@.tables[s as int] matches Some(t) && i < t.len(),
        ensures
            final(self)@.dir == old(self)@.dir,
            final(self)@.tables == old(self)@.tables.update(
                s as int,
                Some(old(self)@.tables[s as int]->0.update(i as int, e)),
            ),
    {
        let ghost v0 = self@;
        match &mut self.tables[s] {
            Some(t) => {
                t.set(i, e);
            },
            None => {},
        }
        assert(self@.tables =~= v0.tables.update(s as int, Some(v0.tables[s as int]->0.update(i as int, e))));
    }

    /// Returns entry `i` of the table in slot `s`.
    fn table_entry(&self, s: usize, i: usize) -> (e: Entry)
        requires
            s < self@.tables.len(),
            self@.tables[s as int] matches Some(t) && i < t.len(),
        ensures
            e == self@.tables[s as int]->0[i as int],
    {
        match &self.tables[s] {
            Some(t) => t[i],
            None => 0,
        }
    }

    /// Frees the table in slot `s`.
    fn free_table(&mut self, s: usize)
        requires
            s < old(self)@.tables.len(),
        ensures
            final(self)@.dir == old(self)@.dir,
            final(self)@.tables == old(self)@.tables.update(s as int, None),
    {
        self.tables.set(s, None);
        assert(self@.tables =~= old(self)@.tables.update(s as int, None));
    }

    /// Replaces the 4MB block mapped by entry `index` of the page directory with a new page table
    /// mapping the same pages, with the same flags.
    ///
    /// The function returns the slot of the new table. If no table can be allocated, it returns
    /// an error.
    fn expand(&mut self, index: usize) -> (r: Result<usize, AllocError>)
        requires
            old(self).wf(),
            index < ENTRIES_PER_TABLE,
            present(old(self)@.dir[index as int]),
            is_pse(old(self)@.dir[index as int]),
        ensures
            final(self).wf(),
            match r {
                Ok(s) => {
                    let e = old(self)@.dir[index as int];
                    let fl = (e & FLAGS_MASK) & !FLAG_PAGE_SIZE;
                    &&& is_free_slot(old(self)@.tables, s as int)
                    &&& final(self)@.dir == old(self)@.dir.update(index as int, entry_of((s as u32) << 12u32, fl))
                    &&& final(self)@.tables == place_table(old(self)@.tables, s as int, expanded_table(e))
                },
                Err(_) => final(self)@ == old(self)@,
            },
            r is Err <==> store_full(old(self)@.tables),
    {
        let entry = self.dir[index];
        let flags = (entry & FLAGS_MASK) & !FLAG_PAGE_SIZE;
        let base = entry & 0xffc00000;
        let s = self.alloc_table()?;
        let ghost v1 = self@;
        let mut i: usize = 0;
        while i < ENTRIES_PER_TABLE
            invariant
                self@.dir == v1.dir,
                self@.tables.len() == v1.tables.len(),
                s < self@.tables.len(),
                forall|j: int| 0 <= j < self@.tables.len() && j != s ==> #[trigger] self@.tables[j] == v1.tables[j],
                self@.tables[s as int] matches Some(t) && t.len() == ENTRIES_PER_TABLE && forall|j: int|
                    0 <= j < i ==> #[trigger] t[j] == expanded_table(entry)[j],
                i <= ENTRIES_PER_TABLE,
                base == entry & 0xffc00000,
                flags == (entry & FLAGS_MASK) & !FLAG_PAGE_SIZE,
            decreases ENTRIES_PER_TABLE - i,
        {
            let addr = base | ((i as u32) << 12u32);
            let e = to_entry(addr, flags);
            self.set_table_entry(s, i, e);
            i += 1;
        }
        proof {
            assert(self@.tables[s as int]->0 =~= expanded_table(entry));
            assert(self@.tables =~= place_table(old(self)@.tables, s as int, expanded_table(entry)));
            lemma_bits(0, flags, 0, 0, s as u32);
        }
        self.set_dir(index, to_entry((s as u32) << 12u32, flags));
        proof {
            lemma_wf_update(old(self)@, self@, index as int, s as int);
        }
        Ok(s)
    }
}

impl VMem {
    /// Maps the page of virtual memory at `virtaddr` to the page of physical memory at
    /// `physaddr`, both rounded down to a page boundary, with the flags `flags`, sanitized and
    /// present. With [`FLAG_PAGE_SIZE`], the whole 4MB block is mapped by the page directory.
    ///
    /// A page table is allocated if none covers the page, and a 4MB block covering it is first
    /// expanded into a page table. If no table can be allocated, the function returns an error
    /// and the context is unchanged.
    ///
    /// The function returns the handle to roll the change back.
    pub fn map(&mut self, physaddr: u32, virtaddr: u32, flags: Entry) -> (r: Result<Rollback, AllocError>)
        requires
            old(self).wf(),
        ensures
            final(self).wf(),
            match r {
                Ok(rb) => map_outcome(old(self)@, physaddr, virtaddr, flags, final(self)@, rb),
                Err(_) => final(self)@ == old(self)@,
            },
            r is Err <==> map_needs_table(old(self)@, virtaddr, flags) && store_full(old(self)@.tables),
    {
        proof {
            lemma_bits(0, flags, physaddr, 0, 0);
            lemma_bits(0, flags, virtaddr, 0, 0);
            assert(((flags & 0xfff) | 1) & 0x80 == flags & 0x80) by (bit_vector);
        }
        let ghost flags0 = flags;
        let physaddr = physaddr & ADDR_MASK;
        let virtaddr = virtaddr & ADDR_MASK;
        let flags = (flags & FLAGS_MASK) | FLAG_PRESENT;
        assert(flags & 0xfff == flags) by (bit_vector)
            requires
                flags == (flags0 & 0xfff) | 1,
        ;
        proof {
            lemma_bits(physaddr, flags, virtaddr, 0, 0);
        }
        let pd_index = get_addr_element_index(virtaddr, 1);
        let previous_dir = self.dir[pd_index];
        if flags & FLAG_PAGE_SIZE != 0 {
            self.set_dir(pd_index, to_entry(physaddr, flags));
            proof {
                lemma_bits(physaddr, flags, virtaddr, previous_dir, 0);
                lemma_wf_update(old(self)@, self@, pd_index as int, MAX_TABLES as int);
            }
            let table = if previous_dir & (FLAG_PRESENT | FLAG_PAGE_SIZE) == FLAG_PRESENT {
                proof {
                    lemma_present_table(previous_dir);
                }
                Some((previous_dir >> 12u32) as usize)
            } else {
                proof {
                    lemma_present_table(previous_dir);
                }
                None
            };
            return Ok(Rollback { virtaddr, previous_dir, previous_entry: None, table, new_table: None });
        }
        let mut new_table: Option<usize> = None;
        if previous_dir & FLAG_PRESENT == 0 {
            let s = self.alloc_table()?;
            proof {
                lemma_bits(0, flags, 0, 0, s as u32);
            }
            self.set_dir(pd_index, to_entry((s as u32) << 12u32, flags));
            proof {
                lemma_wf_update(old(self)@, self@, pd_index as int, s as int);
            }
            new_table = Some(s);
        } else if previous_dir & FLAG_PAGE_SIZE != 0 {
            let s = self.expand(pd_index)?;
            proof {
                lemma_bits(0, flags, 0, 0, s as u32);
                lemma_no_pse((s as u32) << 12u32, previous_dir);
            }
            new_table = Some(s);
        }
        let ghost m1 = self@;
        let d = self.dir[pd_index];
        proof {
            lemma_bits(physaddr, flags, virtaddr, d, 0);
        }
        self.set_dir(pd_index, d | flags);
        proof {
            lemma_wf_update(m1, self@, pd_index as int, MAX_TABLES as int);
        }
        let s = ((d | flags) >> 12u32) as usize;
        let ti = get_addr_element_index(virtaddr, 0);
        let previous_entry = if new_table.is_none() {
            Some(self.table_entry(s, ti))
        } else {
            None
        };
        let ghost m2 = self@;
        self.set_table_entry(s, ti, to_entry(physaddr, flags));
        proof {
            assert(paging_wf(self@)) by {
                assert forall|i: int|
                    0 <= i < ENTRIES_PER_TABLE implies (present(#[trigger] self@.dir[i]) && !is_pse(self@.dir[i])
                        ==> slot_of(self@.dir[i]) < self@.tables.len() && self@.tables[slot_of(self@.dir[i])] is Some) by {
                    assert(self@.dir[i] == m2.dir[i]);
                }
                assert forall|j: int| 0 <= j < self@.tables.len() implies (#[trigger] self@.tables[j] matches Some(t)
                    ==> t.len() == ENTRIES_PER_TABLE) by {
                    if j != s {
                        assert(self@.tables[j] == m2.tables[j]);
                    }
                }
            }
        }
        proof {
            let m0 = old(self)@;
            if !present(previous_dir) || is_pse(previous_dir) {
                let sl = new_table->0;
                let (dd, t) = if !present(previous_dir) {
                    (entry_of((sl as u32) << 12u32, flags), Seq::new(1024, |i: int| 0u32))
                } else {
                    (entry_of((sl as u32) << 12u32, (previous_dir & FLAGS_MASK) & !FLAG_PAGE_SIZE), expanded_table(previous_dir))
                };
                assert(d == dd);
                assert(self@.dir =~= m0.dir.update(pd_index as int, dd | flags));
                assert(s == sl);
                assert(self@.tables =~= place_table(m0.tables, sl as int, t.update(ti as int, entry_of(physaddr, flags))));
            } else {
                assert(self@.dir =~= m0.dir.update(pd_index as int, previous_dir | flags));
            }
        }
        Ok(Rollback { virtaddr, previous_dir, previous_entry, table: None, new_table })
    }
}

proof fn lemma_no_pse(a: u32, x: Entry)
    requires
        a & 0xfff == 0,
    ensures
        present(entry_of(a, (x & FLAGS_MASK) & !FLAG_PAGE_SIZE)),
        !is_pse(entry_of(a, (x & FLAGS_MASK) & !FLAG_PAGE_SIZE)),
        slot_of(entry_of(a, (x & FLAGS_MASK) & !FLAG_PAGE_SIZE)) == slot_of(a),
{
    assert((a | ((x & 0xfff) & !0x80u32 & 0xfff | 1)) & 1 != 0 && (a & 0xfff == 0 ==> (a | ((x
        & 0xfff) & !0x80u32 & 0xfff | 1)) & 0x80 == 0)) by (bit_vector);
    assert((a | ((x & 0xfff) & !0x80u32 & 0xfff | 1)) >> 12u32 == a >> 12u32) by (bit_vector);
}

impl VMem {
    /// Frees the table in slot `s`, then drops the free slots at the end of the store.
    fn release_table(&mut self, s: usize)
        requires
            s < old(self)@.tables.len(),
        ensures
            final(self)@.dir == old(self)@.dir,
            final(self)@.tables == trim(old(self)@.tables.update(s as int, None)),
    {
        self.free_table(s);
        while self.tables.len() > 0 && self.tables[self.tables.len() - 1].is_none()
            invariant
                self@.dir == old(self)@.dir,
                trim(self@.tables) == trim(old(self)@.tables.update(s as int, None)),
            decreases self@.tables.len(),
        {
            let ghost before = self@.tables;
            self.tables.pop();
            assert(self@.tables =~= before.drop_last());
        }
    }

    /// Unmaps the page of virtual memory at `virtaddr`, rounded down to a page boundary. A 4MB
    /// block covering the page is unmapped whole. A userspace page table left empty is detached
    /// from the page directory, to be freed when the change is committed.
    ///
    /// The function returns the handle to roll the change back.
    pub fn unmap(&mut self, virtaddr: u32) -> (r: Result<Rollback, AllocError>)
        requires
            old(self).wf(),
        ensures
            final(self).wf(),
            r matches Ok(rb) && unmap_outcome(old(self)@, virtaddr, final(self)@, rb),
    {
        proof {
            lemma_bits(0, 0, virtaddr, 0, 0);
        }
        let virtaddr = virtaddr & ADDR_MASK;
        let pd_index = get_addr_element_index(virtaddr, 1);
        let previous_dir = self.dir[pd_index];
        if previous_dir & FLAG_PRESENT == 0 {
            return Ok(Rollback { virtaddr, previous_dir, previous_entry: None, table: None, new_table: None });
        }
        if previous_dir & FLAG_PAGE_SIZE != 0 {
            self.set_dir(pd_index, 0);
            proof {
                assert(!present(0u32)) by (bit_vector);
                lemma_wf_update(old(self)@, self@, pd_index as int, MAX_TABLES as int);
            }
            return Ok(Rollback { virtaddr, previous_dir, previous_entry: None, table: None, new_table: None });
        }
        proof {
            lemma_bits(0, 0, virtaddr, previous_dir, 0);
        }
        let s = (previous_dir >> 12u32) as usize;
        let table_index = get_addr_element_index(virtaddr, 0);
        let previous_entry = self.table_entry(s, table_index);
        self.set_table_entry(s, table_index, 0);
        let ghost m1 = self@;
        proof {
            assert forall|j: int| 0 <= j < self@.tables.len() implies (#[trigger] self@.tables[j] matches Some(t)
                ==> t.len() == ENTRIES_PER_TABLE) by {
                if j != s {
                    assert(self@.tables[j] == old(self)@.tables[j]);
                }
            }
            assert(paging_wf(self@));
        }
        let empty = match &self.tables[s] {
            Some(t) => is_empty(t),
            None => false,
        };
        let table = if pd_index < USERSPACE_TABLES && previous_entry & FLAG_PRESENT != 0 && empty {
            self.set_dir(pd_index, 0);
            proof {
                assert(!present(0u32)) by (bit_vector);
                lemma_wf_update(m1, self@, pd_index as int, MAX_TABLES as int);
            }
            Some(s)
        } else {
            None
        };
        Ok(Rollback { virtaddr, previous_dir, previous_entry: Some(previous_entry), table, new_table: None })
    }
}

impl Rollback {
    /// Rolls the change back on `vmem`: the entries it changed get their previous values, and the
    /// table it allocated is freed.
    pub fn rollback(self, vmem: &mut VMem)
        requires
            rollback_ok(old(vmem)@, self),
        ensures
            final(vmem)@ == rollback_view(old(vmem)@, self),
    {
        proof {
            lemma_bits(0, 0, self.virtaddr, self.previous_dir, 0);
        }
        let index = get_addr_element_index(self.virtaddr, 1);
        if let Some(e) = self.previous_entry {
            let s = (self.previous_dir >> 12u32) as usize;
            let ti = get_addr_element_index(self.virtaddr, 0);
            vmem.set_table_entry(s, ti, e);
        }
        vmem.set_dir(index, self.previous_dir);
        if let Some(s) = self.new_table {
            vmem.release_table(s);
        }
    }

    /// Commits the change on `vmem`: the table it detached, if any, is freed.
    pub fn release(self, vmem: &mut VMem)
        requires
            self.table matches Some(s) ==> s < old(vmem)@.tables.len(),
        ensures
            final(vmem)@.dir == old(vmem)@.dir,
            final(vmem)@.tables == match self.table {
                Some(s) => trim(old(vmem)@.tables.update(s as int, None)),
                None => old(vmem)@.tables,
            },
    {
        if let Some(s) = self.table {
            vmem.release_table(s);
        }
    }
}

/// The table store without its free slots at the end.
pub open spec fn trim(t: Seq<Option<Seq<Entry>>>) -> Seq<Option<Seq<Entry>>>
    decreases t.len(),
{
    if t.len() > 0 && t.last() is None {
        trim(t.drop_last())
    } else {
        t
    }
}

/// The rollback `rb` can be applied to the context `m`: the entries and the table it restores
/// or frees exist.
pub open spec fn rollback_ok(m: PagingView, rb: Rollback) -> bool {
    &&& m.dir.len() == ENTRIES_PER_TABLE
    &&& rb.previous_entry is Some ==> slot_of(rb.previous_dir) < m.tables.len()
        && (m.tables[slot_of(rb.previous_dir)] matches Some(t) && t.len() == ENTRIES_PER_TABLE)
    &&& rb.new_table matches Some(s) ==> s < m.tables.len()
}

/// The context `m` after rolling back the change `rb`.
pub open spec fn rollback_view(m: PagingView, rb: Rollback) -> PagingView {
    let pdi = dir_index(rb.virtaddr);
    let ti = table_index(rb.virtaddr);
    let t1 = match rb.previous_entry {
        Some(e) => m.tables.update(
            slot_of(rb.previous_dir),
            Some(m.tables[slot_of(rb.previous_dir)]->0.update(ti, e)),
        ),
        None => m.tables,
    };
    PagingView {
        dir: m.dir.update(pdi, rb.previous_dir),
        tables: match rb.new_table {
            Some(s) => trim(t1.update(s as int, None)),
            None => t1,
        },
    }
}

/// The outcome of the unmapping of the page at `virtaddr`: the context `m1` after the change,
/// from `m0`, and the handle `rb` to roll it back.
pub open spec fn unmap_outcome(m0: PagingView, virtaddr: u32, m1: PagingView, rb: Rollback) -> bool {
    let v = virtaddr & ADDR_MASK;
    let pdi = dir_index(virtaddr);
    let ti = table_index(virtaddr);
    let prev = m0.dir[pdi];
    &&& rb.virtaddr == v
    &&& rb.previous_dir == prev
    &&& rb.new_table is None
    &&& if !present(prev) {
        &&& m1 == m0
        &&& rb.previous_entry is None
        &&& rb.table is None
    } else if is_pse(prev) {
        &&& m1.dir == m0.dir.update(pdi, 0)
        &&& m1.tables == m0.tables
        &&& rb.previous_entry is None
        &&& rb.table is None
    } else {
        let s = slot_of(prev);
        let pe = m0.tables[s]->0[ti];
        let t = m0.tables[s]->0.update(ti, 0);
        let detach = pdi < USERSPACE_TABLES && present(pe) && forall|i: int|
            0 <= i < t.len() ==> !present(#[trigger] t[i]);
        &&& rb.previous_entry == Some(pe)
        &&& m1.tables == m0.tables.update(s, Some(t))
        &&& m1.dir == if detach {
            m0.dir.update(pdi, 0)
        } else {
            m0.dir
        }
        &&& rb.table == if detach {
            Some(s as usize)
        } else {
            None::<usize>
        }
    }
}

/// A present entry of the page directory points to a table exactly when it does not map a 4MB
/// block.
proof fn lemma_present_table(e: Entry)
    ensures
        (e & (FLAG_PRESENT | FLAG_PAGE_SIZE) == FLAG_PRESENT) == (present(e) && !is_pse(e)),
        (e >> 12u32) < 0x100000,
{
    assert((e & (1u32 | 0x80u32) == 1u32) == (e & 1u32 != 0 && !(e & 0x80u32 != 0))) by (bit_vector);
    assert((e >> 12u32) < 0x100000) by (bit_vector);
}

/// A non-4MB mapping of `virtaddr` needs a new page table: the page directory entry is not
/// present, or maps a 4MB block.
pub open spec fn map_needs_table(m: PagingView, virtaddr: u32, flags: Entry) -> bool {
    let e = m.dir[dir_index(virtaddr)];
    (flags & FLAG_PAGE_SIZE) == 0 && (!present(e) || is_pse(e))
}

/// The outcome of the mapping of the page at `virtaddr` to the page at `physaddr` with the flags
/// `flags`: the context `m1` after the change, from `m0`, and the handle `rb` to roll it back.
pub open spec fn map_outcome(
    m0: PagingView,
    physaddr: u32,
    virtaddr: u32,
    flags: Entry,
    m1: PagingView,
    rb: Rollback,
) -> bool {
    let p = physaddr & ADDR_MASK;
    let v = virtaddr & ADDR_MASK;
    let f = (flags & FLAGS_MASK) | FLAG_PRESENT;
    let pdi = dir_index(virtaddr);
    let ti = table_index(virtaddr);
    let prev = m0.dir[pdi];
    &&& rb.virtaddr == v
    &&& rb.previous_dir == prev
    &&& if f & FLAG_PAGE_SIZE != 0 {
        &&& m1.dir == m0.dir.update(pdi, entry_of(p, f))
        &&& m1.tables == m0.tables
        &&& rb.previous_entry is None
        &&& rb.new_table is None
        &&& rb.table == if present(prev) && !is_pse(prev) {
            Some(slot_of(prev) as usize)
        } else {
            None::<usize>
        }
    } else if !present(prev) || is_pse(prev) {
        &&& rb.table is None
        &&& rb.previous_entry is None
        &&& rb.new_table matches Some(s) && is_free_slot(m0.tables, s as int)
        &&& {
            let s = rb.new_table->0;
            let (d, t) = if !present(prev) {
                (entry_of((s as u32) << 12u32, f), Seq::new(1024, |i: int| 0u32))
            } else {
                (entry_of((s as u32) << 12u32, (prev & FLAGS_MASK) & !FLAG_PAGE_SIZE), expanded_table(prev))
            };
            &&& m1.dir == m0.dir.update(pdi, d | f)
            &&& m1.tables == place_table(m0.tables, s as int, t.update(ti, entry_of(p, f)))
        }
    } else {
        &&& rb.table is None
        &&& rb.new_table is None
        &&& rb.previous_entry == Some(m0.tables[slot_of(prev)]->0[ti])
        &&& m1.dir == m0.dir.update(pdi, prev | f)
        &&& m1.tables == m0.tables.update(
            slot_of(prev),
            Some(m0.tables[slot_of(prev)]->0.update(ti, entry_of(p, f))),
        )
    }
}

/// Every slot of the table store holds a table, and the store has no room for another slot: no
/// table can be allocated.
pub open spec fn store_full(tables: Seq<Option<Seq<Entry>>>) -> bool {
    &&& tables.len() >= MAX_TABLES
    &&& forall|j: int| 0 <= j < tables.len() ==> #[trigger] tables[j] is Some
}

/// Slot `s` is the first free slot of the table store, or the one after it if none is free.
pub open spec fn is_free_slot(tables: Seq<Option<Seq<Entry>>>, s: int) -> bool {
    &&& 0 <= s <= tables.len()
    &&& s < MAX_TABLES
    &&& s < tables.len() ==> tables[s] is None
}

/// The table store after placing table `t` in slot `s`, free or just after the store.
pub open spec fn place_table(tables: Seq<Option<Seq<Entry>>>, s: int, t: Seq<Entry>) -> Seq<
    Option<Seq<Entry>>,
> {
    if s < tables.len() {
        tables.update(s, Some(t))
    } else {
        tables.push(Some(t))
    }
}

/// The table that replaces the 4MB block mapped by the entry `e`: the pages of the block, in
/// order, with the flags of `e` but the page size flag.
pub open spec fn expanded_table(e: Entry) -> Seq<Entry> {
    Seq::new(
        1024,
        |i: int| entry_of((e & 0xffc00000) | ((i as u32) << 12u32), (e & FLAGS_MASK) & !FLAG_PAGE_SIZE),
    )
}

proof fn lemma_new_view_wf()
    ensures
        paging_wf(new_view()),
{
    let m = new_view();
    assert forall|i: int| USERSPACE_TABLES <= i < ENTRIES_PER_TABLE implies points_to_table(
        #[trigger] m.dir[i],
    ) && slot_of(m.dir[i]) == i - USERSPACE_TABLES by {
        let s = (i - USERSPACE_TABLES) as u32;
        lemma_bits(s << 12u32, KERNEL_FLAGS, 0, 0, s);
        assert(KERNEL_FLAGS & FLAG_PAGE_SIZE == 0) by (bit_vector);
    }
    assert(!present(0u32)) by (bit_vector);
    assert forall|i: int| 0 <= i < USERSPACE_TABLES implies !present(#[trigger] m.dir[i]) by {}
}

proof fn lemma_wf_update(m0: PagingView, m1: PagingView, index: int, s: int)
    requires
        paging_wf(m0),
        m1.dir == m0.dir.update(index, m1.dir[index]),
        0 <= index < ENTRIES_PER_TABLE,
        m1.tables.len() <= MAX_TABLES,
        m1.tables.len() >= m0.tables.len(),
        forall|j: int| 0 <= j < m0.tables.len() && j != s ==> #[trigger] m1.tables[j] == m0.tables[j],
        forall|j: int| 0 <= j < m1.tables.len() ==> (#[trigger] m1.tables[j] matches Some(t) ==> t.len() == ENTRIES_PER_TABLE),
        forall|i: int| 0 <= i < ENTRIES_PER_TABLE && i != index && present(m0.dir[i]) && !is_pse(m0.dir[i]) ==> slot_of(#[trigger] m0.dir[i]) != s,
        present(m1.dir[index]) && !is_pse(m1.dir[index]) ==> slot_of(m1.dir[index]) < m1.tables.len() && m1.tables[slot_of(m1.dir[index])] is Some,
        m1.tables.len() > 0 ==> m1.tables.last() is Some,
        points_to_table(m1.dir[index]) ==> forall|i: int|
            0 <= i < ENTRIES_PER_TABLE && i != index && points_to_table(#[trigger] m0.dir[i])
                ==> slot_of(m0.dir[i]) != slot_of(m1.dir[index]),
    ensures
        paging_wf(m1),
{
    assert forall|i: int, j: int|
        0 <= i < ENTRIES_PER_TABLE && 0 <= j < ENTRIES_PER_TABLE && i != j && points_to_table(
            #[trigger] m1.dir[i],
        ) && points_to_table(#[trigger] m1.dir[j]) implies slot_of(m1.dir[i]) != slot_of(m1.dir[j]) by {
        if i != index && j != index {
            assert(m1.dir[i] == m0.dir[i] && m1.dir[j] == m0.dir[j]);
        } else if i == index {
            assert(m1.dir[j] == m0.dir[j]);
        } else {
            assert(m1.dir[i] == m0.dir[i]);
        }
    }
    assert forall|i: int|
        0 <= i < ENTRIES_PER_TABLE implies (present(#[trigger] m1.dir[i]) && !is_pse(m1.dir[i])
            ==> slot_of(m1.dir[i]) < m1.tables.len() && m1.tables[slot_of(m1.dir[i])] is Some) by {
        if i != index && present(m1.dir[i]) && !is_pse(m1.dir[i]) {
            assert(m1.dir[i] == m0.dir[i]);
        }
    }
}

proof fn lemma_trim_canonical(t: Seq<Option<Seq<Entry>>>)
    requires
        t.len() > 0 ==> t.last() is Some,
    ensures
        trim(t) == t,
{
}

proof fn lemma_trim_push_none(t: Seq<Option<Seq<Entry>>>)
    requires
        t.len() > 0 ==> t.last() is Some,
    ensures
        trim(t.push(None)) == t,
{
    assert(t.push(None).drop_last() =~= t);
    lemma_trim_canonical(t);
}

/// The page directory entry written by a mapping that is not a 4MB block, and the table that the
/// mapping writes to, as the outcome of the mapping describes them.
proof fn lemma_map_entries(
    m0: PagingView,
    physaddr: u32,
    virtaddr: u32,
    flags: Entry,
    m1: PagingView,
    rb: Rollback,
)
    requires
        paging_wf(m0),
        map_outcome(m0, physaddr, virtaddr, flags, m1, rb),
        flags & FLAG_PAGE_SIZE == 0,
    ensures
        ({
            let d = m1.dir[dir_index(virtaddr)];
            let f = (flags & FLAGS_MASK) | FLAG_PRESENT;
            &&& points_to_table(d)
            &&& slot_of(d) < m1.tables.len()
            &&& m1.tables[slot_of(d)] matches Some(t) && t[table_index(virtaddr)] == entry_of(
                physaddr & ADDR_MASK,
                f,
            ) && t.len() == ENTRIES_PER_TABLE
            &&& present(m0.dir[dir_index(virtaddr)]) && !is_pse(m0.dir[dir_index(virtaddr)])
                ==> slot_of(d) == slot_of(m0.dir[dir_index(virtaddr)])
            &&& !(present(m0.dir[dir_index(virtaddr)]) && !is_pse(m0.dir[dir_index(virtaddr)]))
                ==> slot_of(d) == rb.new_table->0
            &&& !present(m0.dir[dir_index(virtaddr)]) ==> forall|i: int|
                0 <= i < ENTRIES_PER_TABLE && i != table_index(virtaddr) ==> m1.tables[slot_of(d)]->0[i] == 0u32
        }),
{
    lemma_bits(0, flags, virtaddr, 0, 0);
    let f = (flags & FLAGS_MASK) | FLAG_PRESENT;
    assert(((flags & 0xfff) | 1) & 0x80 == flags & 0x80) by (bit_vector);
    assert(f & 0xfff == f) by (bit_vector)
        requires
            f == (flags & 0xfff) | 1,
    ;
    let pdi = dir_index(virtaddr);
    let ti = table_index(virtaddr);
    let prev = m0.dir[pdi];
    let d = m1.dir[pdi];
    if !present(prev) || is_pse(prev) {
        let sl = rb.new_table->0;
        let base = if !present(prev) {
            entry_of((sl as u32) << 12u32, f)
        } else {
            entry_of((sl as u32) << 12u32, (prev & FLAGS_MASK) & !FLAG_PAGE_SIZE)
        };
        lemma_bits(0, f, virtaddr, base, sl as u32);
        lemma_bits((sl as u32) << 12u32, f, virtaddr, base, sl as u32);
        lemma_no_pse((sl as u32) << 12u32, prev);
        assert(d == base | f);
        assert(slot_of(d) == sl);
    } else {
        lemma_bits(0, f, virtaddr, prev, 0);
    }
}

/// Rolling back a mapping gives back the context as it was before the mapping.
pub proof fn lemma_map_rollback(
    m0: PagingView,
    physaddr: u32,
    virtaddr: u32,
    flags: Entry,
    m1: PagingView,
    rb: Rollback,
)
    requires
        paging_wf(m0),
        map_outcome(m0, physaddr, virtaddr, flags, m1, rb),
    ensures
        rollback_ok(m1, rb),
        rollback_view(m1, rb) == m0,
{
    lemma_bits(0, flags, virtaddr, 0, 0);
    let f = (flags & FLAGS_MASK) | FLAG_PRESENT;
    let pdi = dir_index(virtaddr);
    let ti = table_index(virtaddr);
    let prev = m0.dir[pdi];
    let e = entry_of(physaddr & ADDR_MASK, f);
    if f & FLAG_PAGE_SIZE != 0 {
        assert(rollback_view(m1, rb).dir =~= m0.dir);
    } else if !present(prev) || is_pse(prev) {
        let sl = rb.new_table->0;
        assert(rollback_view(m1, rb).dir =~= m0.dir);
        let t = if !present(prev) {
            Seq::new(1024, |i: int| 0u32)
        } else {
            expanded_table(prev)
        };
        if sl < m0.tables.len() {
            assert(m0.tables.update(sl as int, Some(t.update(ti, e))).update(sl as int, None) =~= m0.tables);
            lemma_trim_canonical(m0.tables);
        } else {
            assert(m0.tables.push(Some(t.update(ti, e))).update(sl as int, None) =~= m0.tables.push(None));
            lemma_trim_push_none(m0.tables);
        }
        assert(rollback_view(m1, rb).tables == m0.tables);
    } else {
        lemma_bits(0, f, virtaddr, prev, 0);
        assert(f & 0xfff == f) by (bit_vector)
            requires
                f == (flags & 0xfff) | 1,
        ;
        let s = slot_of(prev);
        assert(m0.tables[s]->0.update(ti, e).update(ti, m0.tables[s]->0[ti]) =~= m0.tables[s]->0);
        assert(rollback_view(m1, rb).tables =~= m0.tables);
        assert(rollback_view(m1, rb).dir =~= m0.dir);
    }
}

/// Rolling back an unmapping gives back the context as it was before the unmapping.
pub proof fn lemma_unmap_rollback(m0: PagingView, virtaddr: u32, m1: PagingView, rb: Rollback)
    requires
        paging_wf(m0),
        unmap_outcome(m0, virtaddr, m1, rb),
    ensures
        rollback_ok(m1, rb),
        rollback_view(m1, rb) == m0,
{
    lemma_bits(0, 0, virtaddr, 0, 0);
    let pdi = dir_index(virtaddr);
    let ti = table_index(virtaddr);
    let prev = m0.dir[pdi];
    assert(rollback_view(m1, rb).dir =~= m0.dir);
    if present(prev) && !is_pse(prev) {
        let s = slot_of(prev);
        assert(m0.tables[s]->0.update(ti, 0u32).update(ti, m0.tables[s]->0[ti]) =~= m0.tables[s]->0);
        assert(rollback_view(m1, rb).tables =~= m0.tables);
    }
}

/// After a mapping of a page, the addresses of the page translate to the mapped physical page,
/// at the same offset; with [`FLAG_PAGE_SIZE`], the addresses of the whole 4MB block translate
/// to the block.
pub proof fn lemma_map_translate(
    m0: PagingView,
    physaddr: u32,
    virtaddr: u32,
    flags: Entry,
    m1: PagingView,
    rb: Rollback,
    w: u32,
)
    requires
        paging_wf(m0),
        map_outcome(m0, physaddr, virtaddr, flags, m1, rb),
        dir_index(w) == dir_index(virtaddr),
    ensures
        flags & FLAG_PAGE_SIZE == 0 && table_index(w) == table_index(virtaddr) ==> translate_view(
            m1,
            w,
        ) == Some((physaddr & ADDR_MASK) | (w & 0xfff)),
        flags & FLAG_PAGE_SIZE != 0 ==> translate_view(m1, w) == Some(
            (entry_of(physaddr & ADDR_MASK, flags) & ADDR_MASK) | (w & 0x3fffff),
        ),
{
    lemma_bits(0, flags, virtaddr, 0, 0);
    lemma_bits(0, flags, physaddr, 0, 0);
    let f = (flags & FLAGS_MASK) | FLAG_PRESENT;
    let p = physaddr & ADDR_MASK;
    assert(((flags & 0xfff) | 1) & 0x80 == flags & 0x80) by (bit_vector);
    assert(entry_of(p, f) == entry_of(p, flags)) by (bit_vector)
        requires
            f == (flags & 0xfff) | 1,
    ;
    lemma_bits(p, f, w, 0, 0);
    if flags & FLAG_PAGE_SIZE == 0 {
        lemma_map_entries(m0, physaddr, virtaddr, flags, m1, rb);
    }
}

/// After an unmapping of a page, the addresses of the page are not mapped.
pub proof fn lemma_unmap_translate(
    m0: PagingView,
    virtaddr: u32,
    m1: PagingView,
    rb: Rollback,
    w: u32,
)
    requires
        paging_wf(m0),
        unmap_outcome(m0, virtaddr, m1, rb),
        dir_index(w) == dir_index(virtaddr),
        table_index(w) == table_index(virtaddr),
    ensures
        translate_view(m1, w) is None,
{
    assert(!present(0u32)) by (bit_vector);
    lemma_bits(0, 0, virtaddr, 0, 0);
    let pdi = dir_index(virtaddr);
    let prev = m0.dir[pdi];
    if present(prev) && !is_pse(prev) {
        let s = slot_of(prev);
        let d = m1.dir[pdi];
        if present(d) {
            assert(d == prev);
            assert(m1.tables[s]->0[table_index(w)] == 0u32);
        }
    }
}

/// A mapping of a page that is not covered by a 4MB block leaves the translation of the other
/// pages unchanged.
pub proof fn lemma_map_frame(
    m0: PagingView,
    physaddr: u32,
    virtaddr: u32,
    flags: Entry,
    m1: PagingView,
    rb: Rollback,
    w: u32,
)
    requires
        paging_wf(m0),
        map_outcome(m0, physaddr, virtaddr, flags, m1, rb),
        flags & FLAG_PAGE_SIZE == 0,
        !is_pse(m0.dir[dir_index(virtaddr)]),
        dir_index(w) != dir_index(virtaddr) || table_index(w) != table_index(virtaddr),
    ensures
        translate_view(m1, w) == translate_view(m0, w),
{
    lemma_bits(0, flags, virtaddr, 0, 0);
    lemma_bits(0, flags, w, 0, 0);
    lemma_map_entries(m0, physaddr, virtaddr, flags, m1, rb);
    let pdi = dir_index(virtaddr);
    let prev = m0.dir[pdi];
    let dw = m0.dir[dir_index(w)];
    if dir_index(w) == pdi {
        if !present(prev) {
            assert(!present(0u32)) by (bit_vector);
        }
    } else {
        assert(m1.dir[dir_index(w)] == dw);
        if points_to_table(dw) {
            if !present(prev) {
                let sl = rb.new_table->0;
                assert(((flags & 0xfff) | 1) & 0x80 == flags & 0x80) by (bit_vector);
                assert(is_free_slot(m0.tables, sl as int));
                assert(slot_of(dw) < m0.tables.len() && m0.tables[slot_of(dw)] is Some);
                assert(slot_of(dw) != sl);
            } else {
                assert(slot_of(dw) != slot_of(prev));
            }
        }
    }
}


/// Slot `s` of the table store holds a table that no entry of the page directory points to: a
/// table detached by a change, to be freed when the change is committed.
pub open spec fn detached(m: PagingView, s: int) -> bool {
    &&& 0 <= s < m.tables.len()
    &&& m.tables[s] is Some
    &&& forall|i: int|
        0 <= i < ENTRIES_PER_TABLE && points_to_table(#[trigger] m.dir[i]) ==> slot_of(m.dir[i]) != s
}

/// Slot `s` of the table store is free, or past its end.
pub open spec fn freed(m: PagingView, s: int) -> bool {
    !(0 <= s < m.tables.len() && m.tables[s] is Some)
}

/// Trimming keeps the slots up to the last table, and only drops free slots.
proof fn lemma_trim(t: Seq<Option<Seq<Entry>>>)
    ensures
        trim(t).len() <= t.len(),
        forall|j: int| 0 <= j < trim(t).len() ==> #[trigger] trim(t)[j] == t[j],
        forall|j: int| trim(t).len() <= j < t.len() ==> #[trigger] t[j] is None,
        trim(t).len() > 0 ==> trim(t).last() is Some,
    decreases t.len(),
{
    if t.len() > 0 && t.last() is None {
        lemma_trim(t.drop_last());
        assert forall|j: int| trim(t).len() <= j < t.len() implies #[trigger] t[j] is None by {
            if j < t.len() - 1 {
                assert(t.drop_last()[j] == t[j]);
            }
        }
    }
}

/// A mapping keeps detached tables detached, and the table it detaches, if any, is another one,
/// detached after the mapping.
proof fn lemma_map_detached(
    m0: PagingView,
    physaddr: u32,
    virtaddr: u32,
    flags: Entry,
    m1: PagingView,
    rb: Rollback,
    s: int,
)
    requires
        paging_wf(m0),
        map_outcome(m0, physaddr, virtaddr, flags, m1, rb),
    ensures
        detached(m0, s) ==> detached(m1, s),
        detached(m0, s) ==> (rb.table matches Some(t) ==> t != s),
        rb.table matches Some(t) ==> detached(m1, t as int),
{
    lemma_bits(0, flags, virtaddr, 0, 0);
    lemma_bits(physaddr & ADDR_MASK, flags, physaddr, 0, 0);
    let f = (flags & FLAGS_MASK) | FLAG_PRESENT;
    assert(((flags & 0xfff) | 1) & 0x80 == flags & 0x80) by (bit_vector);
    let pdi = dir_index(virtaddr);
    let prev = m0.dir[pdi];
    if f & FLAG_PAGE_SIZE != 0 {
        lemma_bits(physaddr & ADDR_MASK, f, physaddr, 0, 0);
        assert(!points_to_table(m1.dir[pdi]));
        if detached(m0, s) {
            assert forall|i: int|
                0 <= i < ENTRIES_PER_TABLE && points_to_table(#[trigger] m1.dir[i]) implies slot_of(
                m1.dir[i],
            ) != s by {
                assert(m1.dir[i] == m0.dir[i]);
            }
        }
        if rb.table is Some {
            let t = slot_of(prev);
            assert forall|i: int|
                0 <= i < ENTRIES_PER_TABLE && points_to_table(#[trigger] m1.dir[i]) implies slot_of(
                m1.dir[i],
            ) != t by {
                assert(m1.dir[i] == m0.dir[i]);
            }
        }
    } else {
        lemma_map_entries(m0, physaddr, virtaddr, flags, m1, rb);
        if detached(m0, s) {
            if !present(prev) || is_pse(prev) {
                let sl = rb.new_table->0;
                assert(is_free_slot(m0.tables, sl as int));
                assert(m1.tables[s] == m0.tables[s]);
            } else {
                assert(slot_of(prev) != s);
                assert(m1.tables[s] == m0.tables[s]);
            }
            assert forall|i: int|
                0 <= i < ENTRIES_PER_TABLE && points_to_table(#[trigger] m1.dir[i]) implies slot_of(
                m1.dir[i],
            ) != s by {
                if i != pdi {
                    assert(m1.dir[i] == m0.dir[i]);
                }
            }
        }
    }
}

/// An unmapping keeps detached tables detached, and the table it detaches, if any, is another
/// one, detached after the unmapping.
proof fn lemma_unmap_detached(m0: PagingView, virtaddr: u32, m1: PagingView, rb: Rollback, s: int)
    requires
        paging_wf(m0),
        unmap_outcome(m0, virtaddr, m1, rb),
    ensures
        detached(m0, s) ==> detached(m1, s),
        detached(m0, s) ==> (rb.table matches Some(t) ==> t != s),
        rb.table matches Some(t) ==> detached(m1, t as int),
{
    lemma_bits(0, 0, virtaddr, 0, 0);
    assert(!present(0u32)) by (bit_vector);
    let pdi = dir_index(virtaddr);
    let prev = m0.dir[pdi];
    if present(prev) && !is_pse(prev) {
        let s0 = slot_of(prev);
        if detached(m0, s) {
            assert(s0 != s);
            assert(m1.tables[s] == m0.tables[s]);
            assert forall|i: int|
                0 <= i < ENTRIES_PER_TABLE && points_to_table(#[trigger] m1.dir[i]) implies slot_of(
                m1.dir[i],
            ) != s by {
                if i != pdi {
                    assert(m1.dir[i] == m0.dir[i]);
                }
            }
        }
        if rb.table is Some {
            assert forall|i: int|
                0 <= i < ENTRIES_PER_TABLE && points_to_table(#[trigger] m1.dir[i]) implies slot_of(
                m1.dir[i],
            ) != s0 by {
                assert(m1.dir[i] == m0.dir[i]);
            }
        }
    } else if present(prev) {
        if detached(m0, s) {
            assert forall|i: int|
                0 <= i < ENTRIES_PER_TABLE && points_to_table(#[trigger] m1.dir[i]) implies slot_of(
                m1.dir[i],
            ) != s by {
                if i != pdi {
                    assert(m1.dir[i] == m0.dir[i]);
                }
            }
        }
    }
}

/// Freeing a detached table keeps the context consistent, the tables that the page directory
/// points to, the other detached tables, and the free slots.
proof fn lemma_release_detached(m: PagingView, s: int, m1: PagingView)
    requires
        paging_wf(m),
        detached(m, s),
        m1.dir == m.dir,
        m1.tables == trim(m.tables.update(s, None)),
    ensures
        paging_wf(m1),
        forall|i: int|
            0 <= i < ENTRIES_PER_TABLE && points_to_table(#[trigger] m.dir[i]) ==> m1.tables[slot_of(
                m.dir[i],
            )] == m.tables[slot_of(m.dir[i])],
        forall|q: int| q != s && detached(m, q) ==> #[trigger] detached(m1, q),
        forall|q: int| #[trigger] freed(m, q) ==> freed(m1, q),
        freed(m1, s),
{
    let t = m.tables.update(s, None);
    lemma_trim(t);
    assert forall|i: int|
        0 <= i < ENTRIES_PER_TABLE && points_to_table(#[trigger] m.dir[i]) implies slot_of(m.dir[i])
        < m1.tables.len() && m1.tables[slot_of(m.dir[i])] == m.tables[slot_of(m.dir[i])] by {
        let q = slot_of(m.dir[i]);
        assert(t[q] is Some);
    }
    assert forall|q: int| q != s && detached(m, q) implies #[trigger] detached(m1, q) by {
        assert(t[q] is Some);
    }
    assert forall|q: int| #[trigger] freed(m, q) implies freed(m1, q) by {
        if 0 <= q < m1.tables.len() {
            assert(m1.tables[q] == t[q]);
        }
    }
    if s < m1.tables.len() {
        assert(m1.tables[s] == t[s]);
    }
    assert forall|j: int| 0 <= j < m1.tables.len() implies (#[trigger] m1.tables[j] matches Some(x)
        ==> x.len() == ENTRIES_PER_TABLE) by {
        assert(m1.tables[j] == t[j]);
    }
}


/// The range of `pages` pages starting at `virtaddr` overlaps with kernelspace: it ends past the
/// end of the userspace.
pub open spec fn kernelspace(virtaddr: u32, pages: int) -> bool {
    virtaddr + pages * PAGE_SIZE > PROCESS_END
}

/// Tells whether the given range of memory overlaps with the kernelspace.
///
/// Arguments:
/// - `virtaddr` is the start of the range.
/// - `pages` is the size of the range in pages.
pub fn is_kernelspace(virtaddr: u32, pages: usize) -> (b: bool)
    requires
        pages * PAGE_SIZE <= usize::MAX,
    ensures
        b == kernelspace(virtaddr, pages as int),
{
    let len: usize = pages * (PAGE_SIZE as usize);
    match (virtaddr as usize).checked_add(len) {
        Some(end) => end > PROCESS_END as usize,
        None => true,
    }
}

/// The context after operation `k` of a transaction, whose contexts before each operation are
/// `states` and whose current context is `cur`.
pub open spec fn state_after(states: Seq<PagingView>, cur: PagingView, k: int) -> PagingView {
    if k + 1 < states.len() {
        states[k + 1]
    } else {
        cur
    }
}

/// The context at the start of a transaction, whose contexts before each operation are `states`
/// and whose current context is `cur`.
pub open spec fn state_start(states: Seq<PagingView>, cur: PagingView) -> PagingView {
    if states.len() == 0 {
        cur
    } else {
        states[0]
    }
}

/// Each handle of `handles` rolls the current context back to the context before its operation,
/// and the tables that the operations detached are distinct, and detached from `cur`.
spec fn chain_ok(states: Seq<PagingView>, handles: Seq<Rollback>, cur: PagingView) -> bool {
    &&& states.len() == handles.len()
    &&& forall|k: int|
        0 <= k < handles.len() ==> {
            &&& paging_wf(#[trigger] states[k])
            &&& rollback_ok(state_after(states, cur, k), handles[k])
            &&& rollback_view(state_after(states, cur, k), handles[k]) == states[k]
        }
    &&& forall|k: int|
        0 <= k < handles.len() ==> ((#[trigger] handles[k]).table matches Some(s) ==> detached(
            cur,
            s as int,
        ))
    &&& forall|k1: int, k2: int|
        0 <= k1 < k2 < handles.len() && (#[trigger] handles[k1]).table is Some && (
        #[trigger] handles[k2]).table is Some ==> handles[k1].table != handles[k2].table
}

/// Appending the handle `rb` of an operation from `m0` to `m1` keeps the chain of handles.
proof fn lemma_chain_push(
    states: Seq<PagingView>,
    handles: Seq<Rollback>,
    m0: PagingView,
    m1: PagingView,
    rb: Rollback,
)
    requires
        chain_ok(states, handles, m0),
        paging_wf(m0),
        rollback_ok(m1, rb),
        rollback_view(m1, rb) == m0,
        forall|s: int| #[trigger] detached(m0, s) ==> detached(m1, s) && (rb.table matches Some(t) ==> t != s),
        rb.table matches Some(t) ==> detached(m1, t as int),
    ensures
        chain_ok(states.push(m0), handles.push(rb), m1),
        state_start(states.push(m0), m1) == state_start(states, m0),
{
    let st = states.push(m0);
    let hs = handles.push(rb);
    assert forall|k: int| 0 <= k < hs.len() implies {
        &&& paging_wf(#[trigger] st[k])
        &&& rollback_ok(state_after(st, m1, k), hs[k])
        &&& rollback_view(state_after(st, m1, k), hs[k]) == st[k]
    } by {
        if k < handles.len() {
            assert(st[k] == states[k] && hs[k] == handles[k]);
            assert(state_after(st, m1, k) == state_after(states, m0, k));
        }
    }
    assert forall|k: int| 0 <= k < hs.len() implies ((#[trigger] hs[k]).table matches Some(s) ==> detached(
        m1,
        s as int,
    )) by {
        if k < handles.len() {
            assert(hs[k] == handles[k]);
            if let Some(s) = hs[k].table {
                assert(detached(m0, s as int));
            }
        }
    }
    assert forall|k1: int, k2: int|
        0 <= k1 < k2 < hs.len() && (#[trigger] hs[k1]).table is Some && (#[trigger] hs[k2]).table
            is Some implies hs[k1].table != hs[k2].table by {
        assert(hs[k1] == handles[k1]);
        if k2 < handles.len() {
            assert(hs[k2] == handles[k2]);
        } else {
            assert(detached(m0, hs[k1].table->0 as int));
        }
    }
}

/// A transaction on a virtual memory context: the operations it makes can be rolled back as a
/// whole.
///
/// Aborting the transaction rolls back all its modifications; committing it validates them.
pub struct VMemTransaction {
    /// The virtual memory context on which the transaction applies.
    vmem: VMem,
    /// Whether the transaction may modify kernelspace.
    kernel: bool,
    /// The handles to roll back the operations of the transaction, in order.
    rollback: Vec<Rollback>,
    /// The contexts before each operation.
    states: Ghost<Seq<PagingView>>,
}

impl VMem {
    /// Begins a transaction on the context.
    pub fn transaction(self) -> (t: VMemTransaction)
        requires
            self.wf(),
        ensures
            t.wf(),
            t@ == self@,
            t.start() == self@,
            t.handles().len() == 0,
            t.allows_kernel() == self.allows_kernel(),
    {
        let kernel = self.kernel;
        let t = VMemTransaction { vmem: self, kernel, rollback: Vec::new(), states: Ghost(Seq::empty()) };
        assert(t.rollback@ =~= Seq::<Rollback>::empty());
        t
    }
}

impl VMemTransaction {
    /// The current context.
    pub closed spec fn view(&self) -> PagingView {
        self.vmem@
    }

    /// The handles of the operations of the transaction, in order.
    pub closed spec fn handles(&self) -> Seq<Rollback> {
        self.rollback@
    }

    /// The contexts before each operation of the transaction.
    pub closed spec fn states(&self) -> Seq<PagingView> {
        self.states@
    }

    /// Whether the transaction may modify kernelspace.
    pub closed spec fn allows_kernel(&self) -> bool {
        self.kernel
    }

    /// The context at the start of the transaction.
    pub open spec fn start(&self) -> PagingView {
        state_start(self.states(), self@)
    }

    /// The transaction is consistent.
    pub closed spec fn wf(&self) -> bool {
        &&& self.vmem.wf()
        &&& chain_ok(self.states@, self.rollback@, self.vmem@)
    }

    /// Returns the current context.
    pub fn vmem(&self) -> (v: &VMem)
        ensures
            v@ == self@,
    {
        &self.vmem
    }

    /// Records the handle `rb` of an operation that went from `m0` to the current context.
    fn record(&mut self, rb: Rollback, Ghost(m0): Ghost<PagingView>)
        requires
            old(self).vmem.wf(),
            chain_ok(old(self).states@, old(self).rollback@, m0),
            paging_wf(m0),
            rollback_ok(old(self)@, rb),
            rollback_view(old(self)@, rb) == m0,
            forall|s: int| #[trigger] detached(m0, s) ==> detached(old(self)@, s) && (rb.table matches Some(t)
                ==> t != s),
            rb.table matches Some(t) ==> detached(old(self)@, t as int),
        ensures
            final(self).wf(),
            final(self)@ == old(self)@,
            final(self).kernel == old(self).kernel,
            final(self).rollback@ == old(self).rollback@.push(rb),
            final(self).states@ == old(self).states@.push(m0),
            state_start(final(self).states@, final(self)@) == state_start(old(self).states@, m0),
    {
        proof {
            lemma_chain_push(self.states@, self.rollback@, m0, self.vmem@, rb);
        }
        self.rollback.push(rb);
        proof {
            self.states@ = self.states@.push(m0);
        }
    }

    /// Maps a page as [`VMem::map`] does, and records the handle of the change.
    fn map_page(&mut self, physaddr: u32, virtaddr: u32, flags: Entry) -> (r: Result<(), AllocError>)
        requires
            old(self).wf(),
        ensures
            final(self).wf(),
            final(self).kernel == old(self).kernel,
            final(self).start() == old(self).start(),
            r is Err <==> map_needs_table(old(self)@, virtaddr, flags) && store_full(old(self)@.tables),
            match r {
                Ok(_) => {
                    &&& final(self).handles() == old(self).handles().push(final(self).handles().last())
                    &&& final(self).states() == old(self).states().push(old(self)@)
                    &&& map_outcome(old(self)@, physaddr, virtaddr, flags, final(self)@, final(self).handles().last())
                },
                Err(_) => {
                    &&& final(self)@ == old(self)@
                    &&& final(self).handles() == old(self).handles()
                    &&& final(self).states() == old(self).states()
                },
            },
    {
        let ghost m0 = self.vmem@;
        let rb = self.vmem.map(physaddr, virtaddr, flags)?;
        proof {
            lemma_map_rollback(m0, physaddr, virtaddr, flags, self.vmem@, rb);
            assert forall|s: int| #[trigger] detached(m0, s) implies detached(self.vmem@, s) && (rb.table matches Some(
                t,
            ) ==> t != s) by {
                lemma_map_detached(m0, physaddr, virtaddr, flags, self.vmem@, rb, s);
            }
            lemma_map_detached(m0, physaddr, virtaddr, flags, self.vmem@, rb, 0);
        }
        self.record(rb, Ghost(m0));
        Ok(())
    }

    /// Unmaps a page as [`VMem::unmap`] does, and records the handle of the change.
    fn unmap_page(&mut self, virtaddr: u32)
        requires
            old(self).wf(),
        ensures
            final(self).wf(),
            final(self).kernel == old(self).kernel,
            final(self).start() == old(self).start(),
            final(self).handles() == old(self).handles().push(final(self).handles().last()),
            final(self).states() == old(self).states().push(old(self)@),
            unmap_outcome(old(self)@, virtaddr, final(self)@, final(self).handles().last()),
    {
        let ghost m0 = self.vmem@;
        let rb = match self.vmem.unmap(virtaddr) {
            Ok(rb) => rb,
            Err(_) => {
                return ;
            },
        };
        proof {
            lemma_unmap_rollback(m0, virtaddr, self.vmem@, rb);
            assert forall|s: int| #[trigger] detached(m0, s) implies detached(self.vmem@, s) && (rb.table matches Some(
                t,
            ) ==> t != s) by {
                lemma_unmap_detached(m0, virtaddr, self.vmem@, rb, s);
            }
            lemma_unmap_detached(m0, virtaddr, self.vmem@, rb, 0);
        }
        self.record(rb, Ghost(m0));
    }

    /// Maps a single page of virtual memory at `virtaddr` to a single page of physical memory at
    /// `physaddr`, with the flags `flags`: see [`VMem::map`].
    ///
    /// If the transaction may not modify kernelspace and the page is in kernelspace, or if no
    /// page table can be allocated, the function returns an error and nothing changes.
    pub fn map(&mut self, physaddr: u32, virtaddr: u32, flags: Entry) -> (r: Result<(), AllocError>)
        requires
            old(self).wf(),
        ensures
            final(self).wf(),
            final(self).allows_kernel() == old(self).allows_kernel(),
            final(self).start() == old(self).start(),
            r is Err <==> (!old(self).allows_kernel() && kernelspace(virtaddr, 1)) || (map_needs_table(
                old(self)@,
                virtaddr,
                flags,
            ) && store_full(old(self)@.tables)),
            match r {
                Ok(_) => {
                    &&& final(self).handles() == old(self).handles().push(final(self).handles().last())
                    &&& final(self).states() == old(self).states().push(old(self)@)
                    &&& map_outcome(old(self)@, physaddr, virtaddr, flags, final(self)@, final(self).handles().last())
                },
                Err(_) => {
                    &&& final(self)@ == old(self)@
                    &&& final(self).handles() == old(self).handles()
                    &&& final(self).states() == old(self).states()
                },
            },
    {
        if !self.kernel && is_kernelspace(virtaddr, 1) {
            return Err(AllocError);
        }
        self.map_page(physaddr, virtaddr, flags)
    }

    /// Like [`Self::map`] but on a range of `pages` pages, mapped in order.
    ///
    /// If the transaction may not modify kernelspace and the range overlaps with kernelspace, the
    /// function returns an error and nothing changes. If no page table can be allocated for a
    /// page, the function returns an error: the pages before it stay mapped, within the
    /// transaction.
    pub fn map_range(&mut self, physaddr: u32, virtaddr: u32, pages: usize, flags: Entry) -> (r: Result<
        (),
        AllocError,
    >)
        requires
            old(self).wf(),
            pages * PAGE_SIZE <= usize::MAX,
            pages > 0 ==> physaddr + (pages - 1) * PAGE_SIZE <= u32::MAX,
            pages > 0 ==> virtaddr + (pages - 1) * PAGE_SIZE <= u32::MAX,
        ensures
            final(self).wf(),
            final(self).allows_kernel() == old(self).allows_kernel(),
            final(self).start() == old(self).start(),
            ({
                let n0 = old(self).handles().len() as int;
                let k = final(self).handles().len() - n0;
                let refused = pages > 0 && !old(self).allows_kernel() && kernelspace(virtaddr, pages as int);
                &&& 0 <= k <= pages
                &&& final(self).handles().take(n0) == old(self).handles()
                &&& final(self).states().take(n0) == old(self).states()
                &&& final(self).states().len() == final(self).handles().len()
                &&& k == 0 ==> final(self)@ == old(self)@
                &&& k > 0 ==> final(self).states()[n0] == old(self)@
                &&& range_mapped(final(self).states(), final(self).handles(), final(self)@, n0, k, physaddr, virtaddr, flags)
                &&& match r {
                    Ok(_) => !refused && k == pages,
                    Err(_) => (refused && k == 0) || (!refused && k < pages && map_needs_table(
                        final(self)@,
                        (virtaddr + k * PAGE_SIZE) as u32,
                        flags,
                    ) && store_full(final(self)@.tables)),
                }
            }),
    {
        let ghost n0 = self.rollback@.len() as int;
        let ghost m0 = self.vmem@;
        proof {
            assert(self.rollback@.take(n0) =~= self.rollback@);
            assert(self.states@.take(n0) =~= self.states@);
        }
        if pages == 0 {
            return Ok(());
        }
        if !self.kernel && is_kernelspace(virtaddr, pages) {
            return Err(AllocError);
        }
        let mut i: usize = 0;
        while i < pages
            invariant
                old(self).wf(),
                self.wf(),
                self.kernel == old(self).kernel,
                self.start() == old(self).start(),
                n0 == old(self).rollback@.len(),
                m0 == old(self).vmem@,
                0 < pages,
                pages > 0 ==> physaddr + (pages - 1) * PAGE_SIZE <= u32::MAX,
                pages > 0 ==> virtaddr + (pages - 1) * PAGE_SIZE <= u32::MAX,
                !(!self.kernel && kernelspace(virtaddr, pages as int)),
                i <= pages,
                self.rollback@.len() == n0 + i,
                self.rollback@.take(n0) == old(self).rollback@,
                self.states@.take(n0) == old(self).states@,
                self.states@.len() == self.rollback@.len(),
                i == 0 ==> self.vmem@ == m0,
                i > 0 ==> self.states@[n0] == m0,
                range_mapped(self.states@, self.rollback@, self.vmem@, n0, i as int, physaddr, virtaddr, flags),
            decreases pages - i,
        {
            let p = physaddr + (i as u32) * 4096;
            let v = virtaddr + (i as u32) * 4096;
            let ghost st0 = self.states@;
            let ghost hs0 = self.rollback@;
            let ghost c0 = self.vmem@;
            match self.map_page(p, v, flags) {
                Ok(_) => {},
                Err(e) => {
                    return Err(e);
                },
            }
            proof {
                lemma_range_mapped_push(st0, hs0, c0, self.states@, self.rollback@, self.vmem@, n0, i as int, physaddr, virtaddr, flags);
                assert(self.rollback@.take(n0) =~= hs0.take(n0));
                assert(self.states@.take(n0) =~= st0.take(n0));
                if i > 0 {
                    assert(self.states@[n0] == st0[n0]);
                }
            }
            i += 1;
        }
        Ok(())
    }

    /// Unmaps a single page of virtual memory at `virtaddr`: see [`VMem::unmap`].
    ///
    /// If the transaction may not modify kernelspace and the page is in kernelspace, the function
    /// returns an error and nothing changes.
    pub fn unmap(&mut self, virtaddr: u32) -> (r: Result<(), AllocError>)
        requires
            old(self).wf(),
        ensures
            final(self).wf(),
            final(self).allows_kernel() == old(self).allows_kernel(),
            final(self).start() == old(self).start(),
            r is Err <==> !old(self).allows_kernel() && kernelspace(virtaddr, 1),
            match r {
                Ok(_) => {
                    &&& final(self).handles() == old(self).handles().push(final(self).handles().last())
                    &&& final(self).states() == old(self).states().push(old(self)@)
                    &&& unmap_outcome(old(self)@, virtaddr, final(self)@, final(self).handles().last())
                },
                Err(_) => {
                    &&& final(self)@ == old(self)@
                    &&& final(self).handles() == old(self).handles()
                    &&& final(self).states() == old(self).states()
                },
            },
    {
        if !self.kernel && is_kernelspace(virtaddr, 1) {
            return Err(AllocError);
        }
        self.unmap_page(virtaddr);
        Ok(())
    }

    /// Like [`Self::unmap`] but on a range of `pages` pages, unmapped in order.
    ///
    /// If the transaction may not modify kernelspace and the range overlaps with kernelspace, the
    /// function returns an error and nothing changes.
    pub fn unmap_range(&mut self, virtaddr: u32, pages: usize) -> (r: Result<(), AllocError>)
        requires
            old(self).wf(),
            pages * PAGE_SIZE <= usize::MAX,
            pages > 0 ==> virtaddr + (pages - 1) * PAGE_SIZE <= u32::MAX,
        ensures
            final(self).wf(),
            final(self).allows_kernel() == old(self).allows_kernel(),
            final(self).start() == old(self).start(),
            ({
                let n0 = old(self).handles().len() as int;
                let k = final(self).handles().len() - n0;
                let refused = pages > 0 && !old(self).allows_kernel() && kernelspace(virtaddr, pages as int);
                &&& final(self).handles().take(n0) == old(self).handles()
                &&& final(self).states().take(n0) == old(self).states()
                &&& final(self).states().len() == final(self).handles().len()
                &&& k == if refused { 0 } else { pages as int }
                &&& k == 0 ==> final(self)@ == old(self)@
                &&& k > 0 ==> final(self).states()[n0] == old(self)@
                &&& range_unmapped(final(self).states(), final(self).handles(), final(self)@, n0, k, virtaddr)
                &&& (r is Err <==> refused)
            }),
    {
        let ghost n0 = self.rollback@.len() as int;
        let ghost m0 = self.vmem@;
        proof {
            assert(self.rollback@.take(n0) =~= self.rollback@);
            assert(self.states@.take(n0) =~= self.states@);
        }
        if pages == 0 {
            return Ok(());
        }
        if !self.kernel && is_kernelspace(virtaddr, pages) {
            return Err(AllocError);
        }
        let mut i: usize = 0;
        while i < pages
            invariant
                self.wf(),
                self.kernel == old(self).kernel,
                self.start() == old(self).start(),
                n0 == old(self).rollback@.len(),
                m0 == old(self).vmem@,
                pages > 0 ==> virtaddr + (pages - 1) * PAGE_SIZE <= u32::MAX,
                i <= pages,
                self.rollback@.len() == n0 + i,
                self.rollback@.take(n0) == old(self).rollback@,
                self.states@.take(n0) == old(self).states@,
                self.states@.len() == self.rollback@.len(),
                i == 0 ==> self.vmem@ == m0,
                i > 0 ==> self.states@[n0] == m0,
                range_unmapped(self.states@, self.rollback@, self.vmem@, n0, i as int, virtaddr),
            decreases pages - i,
        {
            let v = virtaddr + (i as u32) * 4096;
            let ghost st0 = self.states@;
            let ghost hs0 = self.rollback@;
            let ghost c0 = self.vmem@;
            self.unmap_page(v);
            proof {
                lemma_range_unmapped_push(st0, hs0, c0, self.states@, self.rollback@, self.vmem@, n0, i as int, virtaddr);
                assert(self.rollback@.take(n0) =~= hs0.take(n0));
                assert(self.states@.take(n0) =~= st0.take(n0));
                if i > 0 {
                    assert(self.states@[n0] == st0[n0]);
                }
            }
            i += 1;
        }
        Ok(())
    }

    /// Validates the transaction and returns the context: the tables detached by its operations
    /// are freed, and the mappings stay as they are.
    pub fn commit(self) -> (r: VMem)
        requires
            self.wf(),
        ensures
            r.wf(),
            r.allows_kernel() == self.allows_kernel(),
            r@.dir == self@.dir,
            forall|i: int|
                0 <= i < ENTRIES_PER_TABLE && points_to_table(#[trigger] self@.dir[i]) ==> r@.tables[slot_of(
                    self@.dir[i],
                )] == self@.tables[slot_of(self@.dir[i])],
            forall|w: u32| #[trigger] translate_view(r@, w) == translate_view(self@, w),
            forall|k: int|
                0 <= k < self.handles().len() ==> ((#[trigger] self.handles()[k]).table matches Some(s)
                    ==> freed(r@, s as int)),
    {
        let VMemTransaction { vmem, kernel, rollback, states } = self;
        let mut vmem = vmem;
        let mut rollback = rollback;
        let ghost m = vmem@;
        let ghost hs = rollback@;
        assert(hs.take(hs.len() as int) =~= hs);
        while rollback.len() > 0
            invariant
                rollback@.len() <= hs.len(),
                rollback@ == hs.take(rollback@.len() as int),
                commit_inv(m, vmem@, hs, rollback@.len() as int),
            decreases rollback@.len(),
        {
            let ghost n = rollback@.len() as int;
            let ghost v0 = vmem@;
            let rb = rollback.pop().unwrap();
            proof {
                assert(rb == hs[n - 1]);
                assert(rollback@ =~= hs.take(n - 1));
            }
            match rb.table {
                Some(s) => {
                    proof {
                        assert(detached(v0, s as int));
                    }
                    vmem.release_table(s);
                    proof {
                        lemma_commit_step(m, v0, vmem@, hs, n, s);
                    }
                },
                None => {},
            }
        }
        proof {
            lemma_commit_translate(m, vmem@);
        }
        vmem.kernel = kernel;
        vmem
    }

    /// Rolls back all the modifications of the transaction, in reverse order, and returns the
    /// context as it was at the start of the transaction.
    pub fn abort(self) -> (r: VMem)
        requires
            self.wf(),
        ensures
            r.wf(),
            r@ == self.start(),
            r.allows_kernel() == self.allows_kernel(),
    {
        let VMemTransaction { vmem, kernel, rollback, states } = self;
        let mut vmem = vmem;
        let mut rollback = rollback;
        let ghost st = states@;
        let ghost hs = rollback@;
        let ghost start = state_start(st, vmem@);
        proof {
            lemma_abort_begin(st, hs, vmem@);
        }
        while rollback.len() > 0
            invariant
                rollback@.len() <= hs.len(),
                rollback@ == hs.take(rollback@.len() as int),
                abort_inv(st, hs, vmem@, rollback@.len() as int, start),
            decreases rollback@.len(),
        {
            let ghost n = rollback@.len() as int;
            let ghost v0 = vmem@;
            let rb = rollback.pop().unwrap();
            proof {
                assert(rb == hs[n - 1]);
                assert(rollback@ =~= hs.take(n - 1));
                assert(state_after(st.take(n), v0, n - 1) == v0);
            }
            rb.rollback(&mut vmem);
            proof {
                lemma_abort_step(st, hs, v0, vmem@, n, start);
            }
        }
        vmem.kernel = kernel;
        vmem
    }
}


/// What holds while the handles `hs` of a transaction from the context `m` are committed, the
/// last ones first, at the context `v`, with `len` handles left.
spec fn commit_inv(m: PagingView, v: PagingView, hs: Seq<Rollback>, len: int) -> bool {
    &&& paging_wf(v)
    &&& v.dir == m.dir
    &&& forall|i: int|
        0 <= i < ENTRIES_PER_TABLE && points_to_table(#[trigger] m.dir[i]) ==> v.tables[slot_of(m.dir[i])]
            == m.tables[slot_of(m.dir[i])]
    &&& forall|k: int|
        0 <= k < len ==> ((#[trigger] hs[k]).table matches Some(s) ==> detached(v, s as int))
    &&& forall|k1: int, k2: int|
        0 <= k1 < k2 < hs.len() && (#[trigger] hs[k1]).table is Some && (#[trigger] hs[k2]).table is Some
            ==> hs[k1].table != hs[k2].table
    &&& forall|k: int|
        len <= k < hs.len() ==> ((#[trigger] hs[k]).table matches Some(s) ==> freed(v, s as int))
}

/// Freeing the table detached by handle `n - 1` keeps what holds during a commit.
proof fn lemma_commit_step(m: PagingView, v0: PagingView, v1: PagingView, hs: Seq<Rollback>, n: int, s: usize)
    requires
        0 < n <= hs.len(),
        commit_inv(m, v0, hs, n),
        hs[n - 1].table == Some(s),
        v1.dir == v0.dir,
        v1.tables == trim(v0.tables.update(s as int, None)),
    ensures
        commit_inv(m, v1, hs, n - 1),
{
    assert(detached(v0, s as int)) by {
        assert(hs[n - 1].table == Some(s));
    }
    lemma_release_detached(v0, s as int, v1);
    assert forall|i: int|
        0 <= i < ENTRIES_PER_TABLE && points_to_table(#[trigger] m.dir[i]) implies v1.tables[slot_of(
        m.dir[i],
    )] == m.tables[slot_of(m.dir[i])] by {
        assert(v0.dir[i] == m.dir[i]);
    }
    assert forall|k: int| 0 <= k < n - 1 implies ((#[trigger] hs[k]).table matches Some(q) ==> detached(
        v1,
        q as int,
    )) by {
        if let Some(q) = hs[k].table {
            assert(detached(v0, q as int));
            assert(hs[k].table != hs[n - 1].table);
        }
    }
    assert forall|k: int| n - 1 <= k < hs.len() implies ((#[trigger] hs[k]).table matches Some(q) ==> freed(
        v1,
        q as int,
    )) by {
        if let Some(q) = hs[k].table {
            if k >= n {
                assert(freed(v0, q as int));
            }
        }
    }
}

/// Two contexts with the same page directory, and the same tables where it points, translate
/// every address the same way.
proof fn lemma_commit_translate(m: PagingView, v: PagingView)
    requires
        paging_wf(m),
        v.dir == m.dir,
        forall|i: int|
            0 <= i < ENTRIES_PER_TABLE && points_to_table(#[trigger] m.dir[i]) ==> v.tables[slot_of(m.dir[i])]
                == m.tables[slot_of(m.dir[i])],
    ensures
        forall|w: u32| #[trigger] translate_view(v, w) == translate_view(m, w),
{
    assert forall|w: u32| #[trigger] translate_view(v, w) == translate_view(m, w) by {
        lemma_bits(0, 0, w, 0, 0);
        assert(v.dir[dir_index(w)] == m.dir[dir_index(w)]);
    }
}


/// What holds while the handles `hs` of a transaction, with the contexts `st` before each
/// operation, are rolled back, the last ones first, at the context `v`, with `len` handles left.
spec fn abort_inv(st: Seq<PagingView>, hs: Seq<Rollback>, v: PagingView, len: int, start: PagingView) -> bool {
    &&& st.len() == hs.len()
    &&& 0 <= len <= hs.len()
    &&& paging_wf(v)
    &&& forall|k: int| 0 <= k < hs.len() ==> paging_wf(#[trigger] st[k])
    &&& forall|k: int|
        0 <= k < len ==> {
            &&& rollback_ok(state_after(st.take(len), v, k), #[trigger] hs[k])
            &&& rollback_view(state_after(st.take(len), v, k), hs[k]) == st[k]
        }
    &&& state_start(st.take(len), v) == start
}

proof fn lemma_abort_begin(st: Seq<PagingView>, hs: Seq<Rollback>, v: PagingView)
    requires
        chain_ok(st, hs, v),
        paging_wf(v),
    ensures
        abort_inv(st, hs, v, hs.len() as int, state_start(st, v)),
{
    let n = hs.len() as int;
    assert(st.take(n) =~= st);
    assert forall|k: int| 0 <= k < n implies {
        &&& rollback_ok(state_after(st.take(n), v, k), #[trigger] hs[k])
        &&& rollback_view(state_after(st.take(n), v, k), hs[k]) == st[k]
    } by {
        assert(paging_wf(st[k]));
    }
}

/// Rolling back handle `n - 1` keeps what holds during an abort.
proof fn lemma_abort_step(
    st: Seq<PagingView>,
    hs: Seq<Rollback>,
    v0: PagingView,
    v1: PagingView,
    n: int,
    start: PagingView,
)
    requires
        0 < n,
        abort_inv(st, hs, v0, n, start),
        v1 == rollback_view(v0, hs[n - 1]),
    ensures
        abort_inv(st, hs, v1, n - 1, start),
{
    assert(state_after(st.take(n), v0, n - 1) == v0);
    assert(v1 == st[n - 1]);
    assert forall|k: int| 0 <= k < n - 1 implies state_after(st.take(n - 1), v1, k) == state_after(
        st.take(n),
        v0,
        k,
    ) by {}
}


/// The operations `n0` to `n0 + count` of a transaction, with the contexts `states` before each
/// operation, the handles `handles` and the current context `cur`, map the pages of a range in
/// order: the pages at `virtaddr` and `physaddr`, then the following ones.
pub open spec fn range_mapped(
    states: Seq<PagingView>,
    handles: Seq<Rollback>,
    cur: PagingView,
    n0: int,
    count: int,
    physaddr: u32,
    virtaddr: u32,
    flags: Entry,
) -> bool {
    forall|k: int|
        n0 <= k < n0 + count ==> map_outcome(
            states[k],
            (physaddr + (k - n0) * PAGE_SIZE) as u32,
            (virtaddr + (k - n0) * PAGE_SIZE) as u32,
            flags,
            state_after(states, cur, k),
            #[trigger] handles[k],
        )
}

/// The operations `n0` to `n0 + count` of a transaction, with the contexts `states` before each
/// operation, the handles `handles` and the current context `cur`, unmap the pages of a range in
/// order: the page at `virtaddr`, then the following ones.
pub open spec fn range_unmapped(
    states: Seq<PagingView>,
    handles: Seq<Rollback>,
    cur: PagingView,
    n0: int,
    count: int,
    virtaddr: u32,
) -> bool {
    forall|k: int|
        n0 <= k < n0 + count ==> unmap_outcome(
            states[k],
            (virtaddr + (k - n0) * PAGE_SIZE) as u32,
            state_after(states, cur, k),
            #[trigger] handles[k],
        )
}

proof fn lemma_range_mapped_push(
    st0: Seq<PagingView>,
    hs0: Seq<Rollback>,
    c0: PagingView,
    st1: Seq<PagingView>,
    hs1: Seq<Rollback>,
    c1: PagingView,
    n0: int,
    i: int,
    physaddr: u32,
    virtaddr: u32,
    flags: Entry,
)
    requires
        0 <= n0,
        0 <= i,
        st0.len() == hs0.len(),
        hs0.len() == n0 + i,
        range_mapped(st0, hs0, c0, n0, i, physaddr, virtaddr, flags),
        st1 == st0.push(c0),
        hs1 == hs0.push(hs1.last()),
        map_outcome(c0, (physaddr + i * PAGE_SIZE) as u32, (virtaddr + i * PAGE_SIZE) as u32, flags, c1, hs1.last()),
    ensures
        range_mapped(st1, hs1, c1, n0, i + 1, physaddr, virtaddr, flags),
{
    assert forall|k: int| n0 <= k < n0 + i + 1 implies map_outcome(
        st1[k],
        (physaddr + (k - n0) * PAGE_SIZE) as u32,
        (virtaddr + (k - n0) * PAGE_SIZE) as u32,
        flags,
        state_after(st1, c1, k),
        #[trigger] hs1[k],
    ) by {
        if k < n0 + i {
            assert(hs1[k] == hs0[k]);
            assert(st1[k] == st0[k]);
            assert(state_after(st1, c1, k) == state_after(st0, c0, k));
        }
    }
}

proof fn lemma_range_unmapped_push(
    st0: Seq<PagingView>,
    hs0: Seq<Rollback>,
    c0: PagingView,
    st1: Seq<PagingView>,
    hs1: Seq<Rollback>,
    c1: PagingView,
    n0: int,
    i: int,
    virtaddr: u32,
)
    requires
        0 <= n0,
        0 <= i,
        st0.len() == hs0.len(),
        hs0.len() == n0 + i,
        range_unmapped(st0, hs0, c0, n0, i, virtaddr),
        st1 == st0.push(c0),
        hs1 == hs0.push(hs1.last()),
        unmap_outcome(c0, (virtaddr + i * PAGE_SIZE) as u32, c1, hs1.last()),
    ensures
        range_unmapped(st1, hs1, c1, n0, i + 1, virtaddr),
{
    assert forall|k: int| n0 <= k < n0 + i + 1 implies unmap_outcome(
        st1[k],
        (virtaddr + (k - n0) * PAGE_SIZE) as u32,
        state_after(st1, c1, k),
        #[trigger] hs1[k],
    ) by {
        if k < n0 + i {
            assert(hs1[k] == hs0[k]);
            assert(st1[k] == st0[k]);
            assert(state_after(st1, c1, k) == state_after(st0, c0, k));
        }
    }
}


/// The present page table entry that maps the page of the virtual address `v`, if any. Pages
/// covered by a 4MB block have none.
pub open spec fn page_map(m: PagingView, v: u32) -> Option<Entry> {
    let d = m.dir[dir_index(v)];
    if points_to_table(d) {
        let te = m.tables[slot_of(d)]->0[table_index(v)];
        if present(te) {
            Some(te)
        } else {
            None
        }
    } else {
        None
    }
}

/// No entry of the page directory maps a 4MB block.
pub open spec fn no_block(m: PagingView) -> bool {
    forall|i: int| 0 <= i < ENTRIES_PER_TABLE ==> !is_pse(#[trigger] m.dir[i])
}

/// Every entry of the kernelspace part of the page directory is present: a page of kernelspace
/// can be mapped without a new page table.
pub open spec fn kernel_dirs_present(m: PagingView) -> bool {
    forall|i: int| USERSPACE_TABLES <= i < ENTRIES_PER_TABLE ==> present(#[trigger] m.dir[i])
}

/// Every entry of the page directory that is present in `m0` is present in `m1`.
pub open spec fn dirs_kept(m0: PagingView, m1: PagingView) -> bool {
    forall|i: int| 0 <= i < ENTRIES_PER_TABLE && present(m0.dir[i]) ==> present(#[trigger] m1.dir[i])
}

/// The virtual addresses `w` and `v` lie in the same page.
pub open spec fn same_page(w: u32, v: u32) -> bool {
    dir_index(w) == dir_index(v) && table_index(w) == table_index(v)
}

/// A mapping of a page, not as a 4MB block, in a context without 4MB blocks: the page is mapped
/// by the entry made of the physical page and the flags, every other page keeps its entry, and
/// the context still has no 4MB block, and no entry of the page directory stops being present.
pub proof fn lemma_map_page_entries(
    m0: PagingView,
    physaddr: u32,
    virtaddr: u32,
    flags: Entry,
    m1: PagingView,
    rb: Rollback,
)
    requires
        paging_wf(m0),
        no_block(m0),
        map_outcome(m0, physaddr, virtaddr, flags, m1, rb),
        flags & FLAG_PAGE_SIZE == 0,
    ensures
        no_block(m1),
        dirs_kept(m0, m1),
        page_map(m1, virtaddr) == Some(entry_of(physaddr & ADDR_MASK, flags)),
        forall|w: u32| !same_page(w, virtaddr) ==> #[trigger] page_map(m1, w) == page_map(m0, w),
{
    lemma_bits(0, flags, virtaddr, 0, 0);
    lemma_map_entries(m0, physaddr, virtaddr, flags, m1, rb);
    let f = (flags & FLAGS_MASK) | FLAG_PRESENT;
    let p = physaddr & ADDR_MASK;
    assert(((flags & 0xfff) | 1) & 0x80 == flags & 0x80) by (bit_vector);
    assert(entry_of(p, f) == entry_of(p, flags)) by (bit_vector)
        requires
            f == (flags & 0xfff) | 1,
    ;
    lemma_bits(p, f, virtaddr, 0, 0);
    let pdi = dir_index(virtaddr);
    let prev = m0.dir[pdi];
    assert(!is_pse(prev));
    assert(m1.dir =~= m0.dir.update(pdi, m1.dir[pdi]));
    assert forall|i: int| 0 <= i < ENTRIES_PER_TABLE implies !is_pse(#[trigger] m1.dir[i]) by {
        if i != pdi {
            assert(m1.dir[i] == m0.dir[i]);
        }
    }
    assert forall|i: int| 0 <= i < ENTRIES_PER_TABLE && present(m0.dir[i]) implies present(
        #[trigger] m1.dir[i],
    ) by {
        if i != pdi {
            assert(m1.dir[i] == m0.dir[i]);
        }
    }
    assert forall|w: u32| !same_page(w, virtaddr) implies #[trigger] page_map(m1, w) == page_map(
        m0,
        w,
    ) by {
        lemma_bits(0, flags, w, 0, 0);
        let dw = m0.dir[dir_index(w)];
        if dir_index(w) == pdi {
            if !present(prev) {
                assert(!present(0u32)) by (bit_vector);
            }
        } else {
            assert(m1.dir[dir_index(w)] == dw);
            if points_to_table(dw) {
                if !present(prev) {
                    let sl = rb.new_table->0;
                    assert(is_free_slot(m0.tables, sl as int));
                    assert(slot_of(dw) < m0.tables.len() && m0.tables[slot_of(dw)] is Some);
                    assert(slot_of(dw) != sl);
                } else {
                    assert(slot_of(dw) != slot_of(prev));
                }
            }
        }
    }
}


/// The physical address of the VGA text buffer.
pub const VGA_BUFFER_PHYS: u32 = 0xb8000;
/// The virtual address of the VGA text buffer: its physical address in the kernel's linear
/// mapping.
pub const VGA_BUFFER_VIRT: u32 = 0xc00b8000;
/// The flags of the mapping of the VGA text buffer.
pub const VGA_FLAGS: Entry = 0b100011010;
/// The flags of the linear mapping of the kernelspace.
pub const KERNELSPACE_FLAGS: Entry = 0b100000010;
/// The number of pages of the kernelspace.
pub const KERNELSPACE_PAGES: usize = 0x40000;

/// A section of the kernel's image.
#[derive(Clone, Copy, Debug)]
pub struct KernelSection {
    /// The virtual address of the section, in kernelspace.
    pub addr: u32,
    /// The size of the section in bytes.
    pub size: u32,
    /// The alignment of the section.
    pub align: u32,
    /// Whether the section is writable.
    pub write: bool,
    /// Whether the section is the one accessible to userspace (`.user`).
    pub user: bool,
}

/// The number of pages covering the section `s`.
pub open spec fn section_pages(s: KernelSection) -> int {
    (s.size + PAGE_SIZE - 1) / (PAGE_SIZE as int)
}

/// The page of the virtual address `w` is a page of the section `s`, and `s` is aligned on pages:
/// its pages are remapped.
pub open spec fn section_covers(s: KernelSection, w: u32) -> bool {
    &&& s.align == PAGE_SIZE
    &&& (s.addr >> 12u32) <= (w >> 12u32) < (s.addr >> 12u32) + section_pages(s)
}

/// The flags with which the pages of the section `s` are remapped: global, writable if the
/// section is, accessible to userspace if it is the user section.
pub open spec fn section_flags(s: KernelSection) -> Entry {
    FLAG_GLOBAL | (if s.write {
        FLAG_WRITE
    } else {
        0u32
    }) | (if s.user {
        FLAG_USER
    } else {
        0u32
    })
}

/// The flags of the page of the kernelspace address `w` after the linear mapping and the
/// remapping of the first `n` sections of `secs`: those of the last section covering it, if any.
pub open spec fn sections_flags(secs: Seq<KernelSection>, n: int, w: u32) -> Entry
    decreases n,
{
    if n <= 0 {
        KERNELSPACE_FLAGS
    } else if section_covers(secs[n - 1], w) {
        section_flags(secs[n - 1])
    } else {
        sections_flags(secs, n - 1, w)
    }
}

/// The flags of the page of the kernelspace address `w` once the kernel is mapped.
pub open spec fn kernel_flags(secs: Seq<KernelSection>, w: u32) -> Entry {
    if (w >> 12u32) == (VGA_BUFFER_VIRT >> 12u32) {
        VGA_FLAGS
    } else {
        sections_flags(secs, secs.len() as int, w)
    }
}

/// The physical page of the kernelspace address `w`, in the linear mapping: its page address
/// less [`PROCESS_END`], that is, without its two highest bits.
pub open spec fn kernel_phys(w: u32) -> u32 {
    w & 0x3ffff000
}

/// The pages of the aligned sections lie in kernelspace, at page-aligned addresses.
pub open spec fn sections_ok(secs: Seq<KernelSection>) -> bool {
    forall|j: int|
        0 <= j < secs.len() && (#[trigger] secs[j]).align == PAGE_SIZE ==> {
            &&& secs[j].addr >= PROCESS_END
            &&& secs[j].addr & 0xfff == 0
            &&& (secs[j].addr >> 12u32) + section_pages(secs[j]) <= 0x100000
        }
}

proof fn lemma_same_page(w: u32, v: u32)
    ensures
        same_page(w, v) == ((w >> 12u32) == (v >> 12u32)),
        (w >> 12u32) == (v >> 12u32) ==> kernel_phys(w) == kernel_phys(v),
{
    assert((((w >> 22u32) & 0x3ff) == ((v >> 22u32) & 0x3ff) && ((w >> 12u32) & 0x3ff) == ((v
        >> 12u32) & 0x3ff)) == ((w >> 12u32) == (v >> 12u32)) && ((w >> 12u32) == (v >> 12u32) ==> (
    w & 0x3ffff000) == (v & 0x3ffff000))) by (bit_vector);
}

/// After a mapping of the page of `v` by the entry `e` that changed nothing else, every address
/// of that page is mapped by `e`, and every other address as before.
proof fn lemma_remap(before: PagingView, after: PagingView, v: u32, e: Entry)
    requires
        page_map(after, v) == Some(e),
        forall|w: u32| !same_page(w, v) ==> #[trigger] page_map(after, w) == page_map(before, w),
    ensures
        forall|w: u32|
            #[trigger] page_map(after, w) == if (w >> 12u32) == (v >> 12u32) {
                Some(e)
            } else {
                page_map(before, w)
            },
        forall|w: u32| (w >> 12u32) == (v >> 12u32) ==> #[trigger] kernel_phys(w) == kernel_phys(v),
{
    assert forall|w: u32|
        #[trigger] page_map(after, w) == if (w >> 12u32) == (v >> 12u32) {
            Some(e)
        } else {
            page_map(before, w)
        } by {
        lemma_same_page(w, v);
        if (w >> 12u32) == (v >> 12u32) {
            lemma_same_page_map(after, w, v);
        }
    }
    assert forall|w: u32| (w >> 12u32) == (v >> 12u32) implies #[trigger] kernel_phys(w)
        == kernel_phys(v) by {
        lemma_same_page(w, v);
    }
}

/// Pages of the same virtual page are mapped by the same entry.
proof fn lemma_same_page_map(m: PagingView, w: u32, v: u32)
    requires
        same_page(w, v),
    ensures
        page_map(m, w) == page_map(m, v),
{
}

impl VMemTransaction {
    /// Maps the page at the page-aligned address `virtaddr` to the page-aligned physical address
    /// `physaddr` with the flags `flags`, in a context without 4MB blocks, and tells what the
    /// mapping changed: the entry of that page, and only it.
    fn map_page_entry(&mut self, physaddr: u32, virtaddr: u32, flags: Entry) -> (r: Result<(), AllocError>)
        requires
            old(self).wf(),
            no_block(old(self)@),
            flags & FLAG_PAGE_SIZE == 0,
            physaddr & 0xfff == 0,
        ensures
            final(self).wf(),
            final(self).allows_kernel() == old(self).allows_kernel(),
            final(self).start() == old(self).start(),
            no_block(final(self)@),
            dirs_kept(old(self)@, final(self)@),
            old(self).allows_kernel() && present(old(self)@.dir[dir_index(virtaddr)]) ==> r is Ok,
            r is Err ==> final(self)@ == old(self)@,
            r is Ok ==> page_map(final(self)@, virtaddr) == Some(entry_of(physaddr, flags)),
            r is Ok ==> forall|w: u32| !same_page(w, virtaddr) ==> #[trigger] page_map(final(self)@, w)
                == page_map(old(self)@, w),
    {
        let ghost m0 = self@;
        proof {
            lemma_bits(0, flags, virtaddr, 0, 0);
        }
        let r = self.map(physaddr, virtaddr, flags);
        proof {
            if r is Ok {
                lemma_map_page_entries(m0, physaddr, virtaddr, flags, self@, self.handles().last());
                assert(physaddr & 0xfff == 0 ==> physaddr & 0xfffff000 == physaddr) by (bit_vector);
            }
        }
        r
    }
}

/// Remaps the pages of the section `sections[j]`, aligned on pages, with its flags, once the
/// kernelspace is mapped and the sections before it remapped.
fn map_section(tr: &mut VMemTransaction, sections: &[KernelSection], j: usize) -> (r: Result<
    (),
    AllocError,
>)
    requires
        old(tr).wf(),
        old(tr).allows_kernel(),
        no_block(old(tr)@),
        sections_ok(sections@),
        j < sections@.len(),
        sections@[j as int].align == PAGE_SIZE,
        forall|w: u32|
            0xc0000 <= (w >> 12u32) ==> #[trigger] page_map(old(tr)@, w) == Some(
                entry_of(kernel_phys(w), sections_flags(sections@, j as int, w)),
            ),
    ensures
        final(tr).wf(),
        final(tr).allows_kernel(),
        final(tr).start() == old(tr).start(),
        no_block(final(tr)@),
        dirs_kept(old(tr)@, final(tr)@),
        kernel_dirs_present(old(tr)@) ==> r is Ok,
        r is Ok ==> forall|w: u32|
            0xc0000 <= (w >> 12u32) ==> #[trigger] page_map(final(tr)@, w) == Some(
                entry_of(kernel_phys(w), sections_flags(sections@, j + 1, w)),
            ),
        r is Ok ==> forall|w: u32| (w >> 12u32) < 0xc0000 ==> #[trigger] page_map(final(tr)@, w)
            == page_map(old(tr)@, w),
{
    let s = sections[j];
    let ghost secs = sections@;
    assert(secs[j as int] == s);
    let wbit: u32 = if s.write {
        FLAG_WRITE
    } else {
        0u32
    };
    let ubit: u32 = if s.user {
        FLAG_USER
    } else {
        0u32
    };
    let flags = FLAG_GLOBAL | wbit | ubit;
    assert(flags == section_flags(s));
    assert(flags & FLAG_PAGE_SIZE == 0) by (bit_vector)
        requires
            wbit <= 2,
            ubit <= 4,
            flags == 0x100u32 | wbit | ubit,
    ;
    let pages: u32 = ((s.size as u64 + 4095) / 4096) as u32;
    assert(pages == section_pages(s));
    let addr = s.addr;
    let base: u32 = addr >> 12u32;
    assert(addr == base * 4096) by (bit_vector)
        requires
            addr & 0xfff == 0,
            base == addr >> 12u32,
    ;
    let ghost m1 = old(tr)@;
    let mut k: u32 = 0;
    while k < pages
        invariant
            tr.wf(),
            tr.allows_kernel(),
            tr.start() == old(tr).start(),
            no_block(tr@),
            m1 == old(tr)@,
            dirs_kept(m1, tr@),
            secs == sections@,
            secs[j as int] == s,
            s.addr >= PROCESS_END,
            s.addr & 0xfff == 0,
            base == s.addr >> 12u32,
            s.addr == base * 4096,
            base + pages <= 0x100000,
            pages == section_pages(s),
            flags == section_flags(s),
            flags & FLAG_PAGE_SIZE == 0,
            s.align == PAGE_SIZE,
            k <= pages,
            forall|w: u32|
                0xc0000 <= (w >> 12u32) ==> #[trigger] page_map(tr@, w) == Some(
                    entry_of(
                        kernel_phys(w),
                        if base <= (w >> 12u32) < base + k {
                            section_flags(s)
                        } else {
                            sections_flags(secs, j as int, w)
                        },
                    ),
                ),
            forall|w: u32| (w >> 12u32) < 0xc0000 ==> #[trigger] page_map(tr@, w) == page_map(m1, w),
        decreases pages - k,
    {
        let v = s.addr + k * PAGE_SIZE;
        let p = v - PROCESS_END;
        proof {
            let a = s.addr;
            assert(a & 0xfff == 0 && a >= 0xc0000000 && (a >> 12u32) + k < 0x100000 ==> {
                &&& ((a + k * 4096) as u32) >> 12u32 == (a >> 12u32) + k
                &&& (((a + k * 4096) as u32) - 0xc0000000) as u32 == ((a + k * 4096) as u32)
                    & 0x3ffff000
                &&& ((((a + k * 4096) as u32) - 0xc0000000) as u32) & 0xfff == 0
            }) by (bit_vector);
        }
        let ghost before = tr@;
        proof {
            lemma_bits(0, 0, v, 0, 0);
            assert(kernel_dirs_present(m1) ==> present(before.dir[dir_index(v)]));
        }
        tr.map_page_entry(p, v, flags)?;
        proof {
            lemma_remap(before, tr@, v, entry_of(p, flags));
            assert forall|w: u32| 0xc0000 <= (w >> 12u32) implies #[trigger] page_map(tr@, w)
                == Some(
                entry_of(
                    kernel_phys(w),
                    if base <= (w >> 12u32) < base + k + 1 {
                        section_flags(s)
                    } else {
                        sections_flags(secs, j as int, w)
                    },
                ),
            ) by {
                assert(page_map(before, w) == Some(
                    entry_of(
                        kernel_phys(w),
                        if base <= (w >> 12u32) < base + k {
                            section_flags(s)
                        } else {
                            sections_flags(secs, j as int, w)
                        },
                    ),
                ));
            }
        }
        k += 1;
    }
    proof {
        assert forall|w: u32| 0xc0000 <= (w >> 12u32) implies #[trigger] page_map(tr@, w) == Some(
            entry_of(kernel_phys(w), sections_flags(secs, j + 1, w)),
        ) by {
            assert(section_covers(s, w) == (base <= (w >> 12u32) < base + pages));
        }
    }
    Ok(())
}

/// Maps the kernel in the transaction `tr`: all the kernelspace, linearly from physical address
/// zero, writable and global; then the pages of the sections of the kernel image `sections` that
/// are aligned on pages, with the flags of each ([`section_flags`]): the kernel's code is
/// read-only; then the VGA text buffer, uncached.
///
/// Where every kernelspace entry of the page directory is present, as in a context made by
/// [`VMem::new`], no page table is needed and the mapping succeeds. Otherwise, if a page table
/// cannot be allocated, the function returns an error: the transaction can then be aborted, which
/// gives back the context at its start.
pub fn map_kernel(tr: &mut VMemTransaction, sections: &[KernelSection]) -> (r: Result<(), AllocError>)
    requires
        old(tr).wf(),
        old(tr).allows_kernel(),
        no_block(old(tr)@),
        sections_ok(sections@),
    ensures
        final(tr).wf(),
        final(tr).allows_kernel(),
        final(tr).start() == old(tr).start(),
        kernel_dirs_present(old(tr)@) ==> r is Ok,
        r is Ok ==> forall|w: u32|
            w >= PROCESS_END ==> #[trigger] page_map(final(tr)@, w) == Some(
                entry_of(kernel_phys(w), kernel_flags(sections@, w)),
            ),
        r is Ok ==> forall|w: u32| w < PROCESS_END ==> #[trigger] page_map(final(tr)@, w) == page_map(
            old(tr)@,
            w,
        ),
{
    let ghost m0 = tr@;
    proof {
        assert(KERNELSPACE_FLAGS & FLAG_PAGE_SIZE == 0) by (bit_vector);
    }
    // Map the kernelspace linearly
    let mut i: u32 = 0;
    while i < 0x40000
        invariant
            tr.wf(),
            tr.allows_kernel(),
            tr.start() == old(tr).start(),
            no_block(tr@),
            m0 == old(tr)@,
            dirs_kept(m0, tr@),
            i <= 0x40000,
            KERNELSPACE_FLAGS & FLAG_PAGE_SIZE == 0,
            forall|w: u32|
                0xc0000 <= (w >> 12u32) < 0xc0000 + i ==> #[trigger] page_map(tr@, w) == Some(
                    entry_of(kernel_phys(w), KERNELSPACE_FLAGS),
                ),
            forall|w: u32| !(0xc0000 <= (w >> 12u32) < 0xc0000 + i) ==> #[trigger] page_map(tr@, w)
                == page_map(m0, w),
        decreases 0x40000 - i,
    {
        let p = i * PAGE_SIZE;
        let v = PROCESS_END + p;
        proof {
            assert(i < 0x40000 ==> {
                &&& ((0xc0000000 + i * 4096) as u32) >> 12u32 == 0xc0000 + i
                &&& ((0xc0000000 + i * 4096) as u32) & 0x3ffff000 == (i * 4096) as u32
                &&& ((i * 4096) as u32) & 0xfff == 0
            }) by (bit_vector);
        }
        let ghost before = tr@;
        proof {
            lemma_bits(0, 0, v, 0, 0);
            assert(kernel_dirs_present(m0) ==> present(before.dir[dir_index(v)]));
        }
        tr.map_page_entry(p, v, KERNELSPACE_FLAGS)?;
        proof {
            lemma_remap(before, tr@, v, entry_of(p, KERNELSPACE_FLAGS));
        }
        i += 1;
    }
    proof {
        assert forall|w: u32| 0xc0000 <= (w >> 12u32) implies #[trigger] page_map(tr@, w) == Some(
            entry_of(kernel_phys(w), sections_flags(sections@, 0, w)),
        ) by {
            assert((w >> 12u32) < 0x100000) by (bit_vector);
        }
    }
    // Make the kernel's code read-only
    let mut j: usize = 0;
    while j < sections.len()
        invariant
            tr.wf(),
            tr.allows_kernel(),
            tr.start() == old(tr).start(),
            no_block(tr@),
            m0 == old(tr)@,
            dirs_kept(m0, tr@),
            sections_ok(sections@),
            j <= sections@.len(),
            forall|w: u32|
                0xc0000 <= (w >> 12u32) ==> #[trigger] page_map(tr@, w) == Some(
                    entry_of(kernel_phys(w), sections_flags(sections@, j as int, w)),
                ),
            forall|w: u32| (w >> 12u32) < 0xc0000 ==> #[trigger] page_map(tr@, w) == page_map(m0, w),
        decreases sections@.len() - j,
    {
        if sections[j].align == PAGE_SIZE {
            proof {
                assert(kernel_dirs_present(m0) ==> kernel_dirs_present(tr@));
            }
            map_section(tr, sections, j)?;
        } else {
            proof {
                assert forall|w: u32| 0xc0000 <= (w >> 12u32) implies #[trigger] page_map(tr@, w)
                    == Some(entry_of(kernel_phys(w), sections_flags(sections@, j + 1, w))) by {
                }
            }
        }
        j += 1;
    }
    // Map the VGA text buffer
    let ghost before = tr@;
    proof {
        assert(VGA_FLAGS & FLAG_PAGE_SIZE == 0 && VGA_BUFFER_PHYS & 0xfff == 0 && VGA_BUFFER_VIRT
            & 0x3ffff000 == VGA_BUFFER_PHYS && (VGA_BUFFER_VIRT >> 12u32) == 0xc00b8) by (bit_vector);
        lemma_bits(0, 0, VGA_BUFFER_VIRT, 0, 0);
        assert(kernel_dirs_present(m0) ==> present(before.dir[dir_index(VGA_BUFFER_VIRT)]));
    }
    tr.map_page_entry(VGA_BUFFER_PHYS, VGA_BUFFER_VIRT, VGA_FLAGS)?;
    proof {
        assert forall|w: u32| w >= PROCESS_END implies #[trigger] page_map(tr@, w) == Some(
            entry_of(kernel_phys(w), kernel_flags(sections@, w)),
        ) by {
            lemma_same_page(w, VGA_BUFFER_VIRT);
            assert(w >= 0xc0000000 ==> (w >> 12u32) >= 0xc0000) by (bit_vector);
            if (w >> 12u32) == (VGA_BUFFER_VIRT >> 12u32) {
                lemma_same_page_map(tr@, w, VGA_BUFFER_VIRT);
            } else {
                assert(page_map(tr@, w) == page_map(before, w));
            }
        }
        assert forall|w: u32| w < PROCESS_END implies #[trigger] page_map(tr@, w) == page_map(
            old(tr)@,
            w,
        ) by {
            lemma_same_page(w, VGA_BUFFER_VIRT);
            assert(w < 0xc0000000 ==> (w >> 12u32) < 0xc0000) by (bit_vector);
            assert(page_map(tr@, w) == page_map(before, w));
        }
    }
    Ok(())
}


/// A new context has no 4MB block, and all its kernelspace entries of the page directory are
/// present: the kernel can be mapped in it with [`map_kernel`], which then succeeds.
pub proof fn lemma_new_view_kernel_ready()
    ensures
        no_block(new_view()),
        kernel_dirs_present(new_view()),
{
    assert forall|i: int| USERSPACE_TABLES <= i < ENTRIES_PER_TABLE implies present(
        #[trigger] new_view().dir[i],
    ) by {
        let sl = (i - USERSPACE_TABLES) as u32;
        lemma_bits(sl << 12u32, KERNEL_FLAGS, 0, 0, sl);
    }
    assert(!is_pse(0u32) && KERNEL_FLAGS & FLAG_PAGE_SIZE == 0) by (bit_vector);
    assert forall|i: int| 0 <= i < ENTRIES_PER_TABLE implies !is_pse(#[trigger] new_view().dir[i]) by {
        if i >= USERSPACE_TABLES {
            let sl = (i - USERSPACE_TABLES) as u32;
            lemma_bits(sl << 12u32, KERNEL_FLAGS, 0, 0, sl);
        }
    }
}

} // verus!
