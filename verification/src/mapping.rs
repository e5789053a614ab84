//! A file mapping is a view of a file in memory, which can be modified, shared between processes,
//! etc...
//!
//! Mapped pages are counted by references: a page stays mapped while it is referenced.
use crate::file::FileLocation;
use vstd::prelude::*;

verus! {

/// A mapped page of a file.
#[derive(Clone, Copy, Debug, PartialEq, Eq, Structural)]
pub struct Page {
    /// The offset of the page in the file, in pages.
    pub off: usize,
    /// The number of references to the page.
    pub ref_count: u32,
}

/// The index of the page at offset `off` in `pages`, if any.
pub open spec fn page_index(pages: Seq<Page>, off: usize) -> Option<int> {
    if exists|i: int| 0 <= i < pages.len() && pages[i].off == off {
        Some(choose|i: int| 0 <= i < pages.len() && pages[i].off == off)
    } else {
        None
    }
}

/// No two pages of `pages` have the same offset.
pub open spec fn distinct_offsets(pages: Seq<Page>) -> bool {
    forall|i: int, j: int|
        0 <= i < pages.len() && 0 <= j < pages.len() && i != j ==> #[trigger] pages[i].off != #[trigger] pages[j].off
}

/// The number of references to the page at offset `off` of `pages`, `0` if it is not mapped.
pub open spec fn ref_count_of(pages: Seq<Page>, off: usize) -> nat {
    match page_index(pages, off) {
        Some(i) => pages[i].ref_count as nat,
        None => 0,
    }
}

/// A file mapped partially or totally into memory.
#[derive(Debug)]
pub struct MappedFile {
    /// The mapped pages.
    pages: Vec<Page>,
}

impl MappedFile {
    /// The mapped pages.
    pub closed spec fn view(&self) -> Seq<Page> {
        self.pages@
    }

    /// No two pages have the same offset.
    pub open spec fn wf(&self) -> bool {
        distinct_offsets(self@)
    }

    /// Creates a mapping with no page.
    pub fn new() -> (f: Self)
        ensures
            f.wf(),
            f@.len() == 0,
    {
        MappedFile { pages: Vec::new() }
    }

    /// Tells whether no page is mapped.
    pub fn is_empty(&self) -> (b: bool)
        ensures
            b == (self@.len() == 0),
    {
        self.pages.len() == 0
    }

    /// Returns the index of the page at offset `off`, if mapped.
    fn find(&self, off: usize) -> (r: Option<usize>)
        requires
            self.wf(),
        ensures
            match r {
                Some(i) => page_index(self@, off) == Some(i as int),
                None => page_index(self@, off) is None,
            },
    {
        let mut i: usize = 0;
        while i < self.pages.len()
            invariant
                self.wf(),
                i <= self@.len(),
                forall|j: int| 0 <= j < i ==> (#[trigger] self@[j]).off != off,
            decreases self@.len() - i,
        {
            if self.pages[i].off == off {
                proof {
                    let k = choose|k: int| 0 <= k < self@.len() && self@[k].off == off;
                    if k != i {
                        assert(self@[k].off != self@[i as int].off);
                    }
                }
                return Some(i);
            }
            i += 1;
        }
        None
    }

    /// Returns the number of references to the page at offset `off`, `0` if it is not mapped.
    pub fn ref_count(&self, off: usize) -> (n: u32)
        requires
            self.wf(),
        ensures
            n == ref_count_of(self@, off),
    {
        match self.find(off) {
            Some(i) => self.pages[i].ref_count,
            None => 0,
        }
    }

    /// Acquires the page at offset `off` (in pages), incrementing the number of references to
    /// it. If the page is not mapped, it is mapped first: this acquisition is then its only
    /// reference.
    ///
    /// The function returns the number of references to the page.
    pub fn acquire_page(&mut self, off: usize) -> (n: u32)
        requires
            old(self).wf(),
            ref_count_of(old(self)@, off) < u32::MAX,
        ensures
            final(self).wf(),
            n == ref_count_of(final(self)@, off),
            n == if page_index(old(self)@, off) is Some {
                ref_count_of(old(self)@, off) + 1
            } else {
                1
            },
            page_index(final(self)@, off) is Some,
            forall|o: usize| o != off ==> #[trigger] ref_count_of(final(self)@, o) == ref_count_of(old(self)@, o),
    {
        let i = match self.find(off) {
            Some(i) => i,
            None => {
                self.pages.push(Page { off, ref_count: 0 });
                proof {
                    assert(self@[self@.len() - 1].off == off);
                    assert forall|o: usize| o != off implies #[trigger] page_index(self@, o) == page_index(
                        old(self)@,
                        o,
                    ) by {
                        if let Some(k) = page_index(self@, o) {
                            assert(old(self)@[k].off == o);
                        }
                        if let Some(k) = page_index(old(self)@, o) {
                            assert(self@[k].off == o);
                        }
                    }
                }
                self.pages.len() - 1
            },
        };
        proof {
            assert(page_index(self@, off) == Some(i as int)) by {
                let k = choose|k: int| 0 <= k < self@.len() && self@[k].off == off;
                if k != i {
                    assert(self@[k].off != self@[i as int].off);
                }
            }
        }
        let ghost before = self@;
        let p = self.pages[i];
        self.pages.set(i, Page { off, ref_count: p.ref_count + 1 });
        proof {
            assert forall|o: usize| true implies #[trigger] page_index(self@, o) == page_index(before, o) by {
                if let Some(k) = page_index(self@, o) {
                    assert(before[k].off == o);
                }
                if let Some(k) = page_index(before, o) {
                    assert(self@[k].off == o);
                }
            }
        }
        p.ref_count + 1
    }

    /// Releases the page at offset `off` (in pages), decrementing the number of references to
    /// it. If the number of references reaches zero, the page is unmapped.
    ///
    /// If the page is not mapped, the function does nothing.
    pub fn release_page(&mut self, off: usize)
        requires
            old(self).wf(),
            page_index(old(self)@, off) matches Some(i) ==> old(self)@[i].ref_count > 0,
        ensures
            final(self).wf(),
            ref_count_of(final(self)@, off) == if page_index(old(self)@, off) is Some {
                ref_count_of(old(self)@, off) - 1
            } else {
                0
            },
            page_index(final(self)@, off) is Some <==> ref_count_of(final(self)@, off) > 0,
            forall|o: usize| o != off ==> #[trigger] ref_count_of(final(self)@, o) == ref_count_of(old(self)@, o),
    {
        let i = match self.find(off) {
            Some(i) => i,
            None => {
                return ;
            },
        };
        let ghost before = self@;
        let p = self.pages[i];
        if p.ref_count - 1 == 0 {
            self.pages.remove(i);
            proof {
                assert forall|a: int, b: int|
                    0 <= a < self@.len() && 0 <= b < self@.len() && a != b implies #[trigger] self@[a].off
                    != #[trigger] self@[b].off by {
                    let a0 = if a < i { a } else { a + 1 };
                    let b0 = if b < i { b } else { b + 1 };
                    assert(self@[a] == before[a0] && self@[b] == before[b0]);
                }
                assert(page_index(self@, off) is None) by {
                    if exists|k: int| 0 <= k < self@.len() && self@[k].off == off {
                        let k = choose|k: int| 0 <= k < self@.len() && self@[k].off == off;
                        let k0 = if k < i { k } else { k + 1 };
                        assert(before[k0].off == off && k0 != i);
                        assert(before[k0].off != before[i as int].off);
                    }
                }
                assert forall|o: usize| o != off implies #[trigger] ref_count_of(self@, o) == ref_count_of(
                    before,
                    o,
                ) by {
                    if let Some(k) = page_index(self@, o) {
                        let k0 = if k < i { k } else { k + 1 };
                        assert(before[k0].off == o);
                        assert(page_index(before, o) == Some(k0)) by {
                            let c = choose|c: int| 0 <= c < before.len() && before[c].off == o;
                            if c != k0 {
                                assert(before[c].off != before[k0].off);
                            }
                        }
                    } else if let Some(k0) = page_index(before, o) {
                        assert(k0 != i);
                        let k = if k0 < i { k0 } else { k0 - 1 };
                        assert(self@[k].off == o);
                    }
                }
            }
        } else {
            self.pages.set(i, Page { off, ref_count: p.ref_count - 1 });
            proof {
                assert forall|o: usize| true implies #[trigger] page_index(self@, o) == page_index(before, o) by {
                    if let Some(k) = page_index(self@, o) {
                        assert(before[k].off == o);
                    }
                    if let Some(k) = page_index(before, o) {
                        assert(self@[k].off == o);
                    }
                }
            }
        }
    }
}

/// The list of mapped files, by location.
#[derive(Debug)]
pub struct MappedFiles {
    /// The mapped files with their locations.
    files: Vec<(FileLocation, MappedFile)>,
}

impl MappedFiles {
    /// The locations of the mapped files, in order.
    pub closed spec fn locations(&self) -> Seq<FileLocation> {
        self.files@.map_values(|e: (FileLocation, MappedFile)| e.0)
    }

    /// The mapped files: the location and the pages of each.
    pub closed spec fn tables(&self) -> Seq<(FileLocation, Seq<Page>)> {
        self.files@.map_values(|e: (FileLocation, MappedFile)| (e.0, e.1@))
    }

    /// The pages of the mapped file at index `i`.
    pub closed spec fn pages_at(&self, i: int) -> Seq<Page> {
        self.files@[i].1@
    }

    /// No location appears twice, and each mapped file is consistent.
    pub closed spec fn wf(&self) -> bool {
        &&& forall|i: int, j: int|
            0 <= i < self.files@.len() && 0 <= j < self.files@.len() && i != j ==> #[trigger] self.files@[i].0
                != #[trigger] self.files@[j].0
        &&& forall|i: int| 0 <= i < self.files@.len() ==> (#[trigger] self.files@[i]).1.wf()
    }

    /// The file at location `loc` is mapped.
    pub open spec fn is_mapped(&self, loc: FileLocation) -> bool {
        self.locations().contains(loc)
    }

    /// Creates an empty list.
    pub fn new() -> (m: Self)
        ensures
            m.wf(),
            m.locations().len() == 0,
    {
        let m = MappedFiles { files: Vec::new() };
        assert(m.locations() =~= Seq::<FileLocation>::empty());
        m
    }

    /// Returns the index of the file at location `loc`, if mapped.
    fn find(&self, loc: &FileLocation) -> (r: Option<usize>)
        requires
            self.wf(),
        ensures
            match r {
                Some(i) => i < self.files@.len() && self.files@[i as int].0 == *loc,
                None => !self.is_mapped(*loc),
            },
    {
        let mut i: usize = 0;
        while i < self.files.len()
            invariant
                i <= self.files@.len(),
                forall|j: int| 0 <= j < i ==> (#[trigger] self.files@[j]).0 != *loc,
            decreases self.files@.len() - i,
        {
            if self.files[i].0 == *loc {
                return Some(i);
            }
            i += 1;
        }
        proof {
            if self.locations().contains(*loc) {
                let k = choose|k: int| 0 <= k < self.locations().len() && self.locations()[k] == *loc;
                assert(self.files@[k].0 == *loc);
            }
        }
        None
    }

    /// Tells whether the page at offset `off` of the file at location `loc` is mapped.
    pub fn get_page(&self, loc: &FileLocation, off: usize) -> (r: bool)
        requires
            self.wf(),
        ensures
            r == (exists|i: int|
                0 <= i < self.locations().len() && self.locations()[i] == *loc && page_index(
                    self.pages_at(i),
                    off,
                ) is Some),
    {
        match self.find(loc) {
            Some(i) => {
                let r = self.files[i].1.find(off).is_some();
                proof {
                    if !r {
                        assert forall|k: int|
                            0 <= k < self.locations().len() && self.locations()[k] == *loc implies page_index(
                            self.pages_at(k),
                            off,
                        ) is None by {
                            if k != i {
                                assert(self.files@[k].0 != self.files@[i as int].0);
                            }
                        }
                    } else {
                        assert(self.locations()[i as int] == *loc);
                    }
                }
                r
            },
            None => {
                proof {
                    assert forall|k: int|
                        0 <= k < self.locations().len() && self.locations()[k] == *loc implies false by {
                        assert(self.locations().contains(*loc));
                    }
                }
                false
            },
        }
    }

    /// Maps the file at location `loc`: if it is not mapped yet, it is added, with no page.
    pub fn map(&mut self, loc: FileLocation, _off: usize)
        requires
            old(self).wf(),
        ensures
            final(self).wf(),
            final(self).is_mapped(loc),
            old(self).is_mapped(loc) ==> final(self).locations() == old(self).locations(),
            !old(self).is_mapped(loc) ==> final(self).locations() == old(self).locations().push(loc),
    {
        match self.find(&loc) {
            Some(i) => {
                assert(self.locations()[i as int] == loc);
            },
            None => {
                let ghost before = self.files@;
                self.files.push((loc, MappedFile::new()));
                proof {
                    assert(self.locations() =~= old(self).locations().push(loc));
                    assert(self.locations()[self.locations().len() - 1] == loc);
                    assert forall|i: int, j: int|
                        0 <= i < self.files@.len() && 0 <= j < self.files@.len() && i != j implies #[trigger] self.files@[i].0
                        != #[trigger] self.files@[j].0 by {
                        if i < before.len() && j < before.len() {
                            assert(self.files@[i] == before[i] && self.files@[j] == before[j]);
                        } else if i < before.len() {
                            assert(old(self).locations()[i] == before[i].0);
                        } else if j < before.len() {
                            assert(old(self).locations()[j] == before[j].0);
                        }
                    }
                    assert forall|i: int| 0 <= i < self.files@.len() implies (#[trigger] self.files@[i]).1.wf() by {
                        if i < before.len() {
                            assert(self.files@[i] == before[i]);
                        }
                    }
                }
            },
        }
    }

    /// Unmaps the file at location `loc`: if it is mapped and no page of it is left, it is
    /// removed.
    ///
    /// If the file is not mapped, the function does nothing.
    pub fn unmap(&mut self, loc: &FileLocation, _off: usize)
        requires
            old(self).wf(),
        ensures
            final(self).wf(),
            match old(self).locations().index_of_first(*loc) {
                Some(i) => if old(self).pages_at(i).len() == 0 {
                    &&& final(self).locations() == old(self).locations().remove(i)
                    &&& final(self).tables() == old(self).tables().remove(i)
                } else {
                    &&& final(self).locations() == old(self).locations()
                    &&& final(self).tables() == old(self).tables()
                },
                None => final(self).locations() == old(self).locations() && final(self).tables()
                    == old(self).tables(),
            },
    {
        let i = match self.find(loc) {
            Some(i) => i,
            None => {
                proof {
                    old(self).locations().index_of_first_ensures(*loc);
                }
                return ;
            },
        };
        proof {
            self.locations().index_of_first_ensures(*loc);
            assert(self.locations()[i as int] == *loc);
            let f = self.locations().index_of_first(*loc);
            if let Some(k) = f {
                if k != i {
                    assert(self.files@[k].0 != self.files@[i as int].0);
                }
            }
        }
        if self.files[i].1.is_empty() {
            let ghost before = self.files@;
            self.files.remove(i);
            proof {
                assert(self.locations() =~= old(self).locations().remove(i as int));
                assert(self.tables() =~= old(self).tables().remove(i as int));
                assert forall|a: int, b: int|
                    0 <= a < self.files@.len() && 0 <= b < self.files@.len() && a != b implies #[trigger] self.files@[a].0
                    != #[trigger] self.files@[b].0 by {
                    let a0 = if a < i { a } else { a + 1 };
                    let b0 = if b < i { b } else { b + 1 };
                    assert(self.files@[a] == before[a0] && self.files@[b] == before[b0]);
                }
                assert forall|a: int| 0 <= a < self.files@.len() implies (#[trigger] self.files@[a]).1.wf() by {
                    let a0 = if a < i { a } else { a + 1 };
                    assert(self.files@[a] == before[a0]);
                }
            }
        }
    }
}

/// Unmaps the page at offset `off` in the file at location `loc`: see [`MappedFiles::unmap`].
pub fn unmap_file(files: &mut MappedFiles, loc: &FileLocation, off: usize)
    requires
        old(files).wf(),
    ensures
        final(files).wf(),
        match old(files).locations().index_of_first(*loc) {
            Some(i) => if old(files).pages_at(i).len() == 0 {
                &&& final(files).locations() == old(files).locations().remove(i)
                &&& final(files).tables() == old(files).tables().remove(i)
            } else {
                &&& final(files).locations() == old(files).locations()
                &&& final(files).tables() == old(files).tables()
            },
            None => final(files).locations() == old(files).locations() && final(files).tables()
                == old(files).tables(),
        },
{
    files.unmap(loc, off);
}

} // verus!
