//! The LRU of the page cache, and the choice of the page to evict when memory runs short.
//!
//! Pages enter the LRU at the front when they are read into the cache of a node. To shrink the
//! cache, pages are taken from the back, the least recently used first: a page that is still used
//! elsewhere is skipped, and so is a page whose writeback to disk fails. The writeback itself is
//! the caller's: [`Lru::next_victim`] tells which page to write back next, and
//! [`Lru::evict`] removes it once it is written.
use crate::stats::MemInfo;
use vstd::prelude::*;

verus! {

/// A page of the page cache, as the LRU sees it.
#[derive(Clone, Copy, Debug, PartialEq, Eq)]
pub struct CachedPage {
    /// The page's identifier: its physical address.
    pub id: u64,
    /// The number of references to the page: the LRU's own, the handle of the shrinker, the cache
    /// of its node if it belongs to one, and those of the page's users.
    pub refs: usize,
    /// Whether the page belongs to the cache of a node.
    pub in_node: bool,
}

/// The page is used by nobody but the LRU, the shrinker and the cache of its node: it can be
/// evicted.
pub open spec fn is_inactive(p: CachedPage) -> bool {
    p.refs <= 2 + if p.in_node {
        1int
    } else {
        0int
    }
}

/// The LRU of the page cache: the most recently inserted page first.
pub struct Lru {
    pages: Vec<CachedPage>,
}

impl View for Lru {
    type V = Seq<CachedPage>;

    closed spec fn view(&self) -> Seq<CachedPage> {
        self.pages@
    }
}

impl Lru {
    /// Creates an empty LRU.
    pub fn new() -> (l: Self)
        ensures
            l@ == Seq::<CachedPage>::empty(),
    {
        Lru { pages: Vec::new() }
    }

    /// Returns the number of pages in the LRU.
    pub fn len(&self) -> (n: usize)
        ensures
            n == self@.len(),
    {
        self.pages.len()
    }

    /// Returns the page at position `i`, from the front.
    pub fn get(&self, i: usize) -> (p: CachedPage)
        requires
            i < self@.len(),
        ensures
            p == self@[i as int],
    {
        self.pages[i]
    }

    /// Inserts the page `page`, just read into the cache, at the front of the LRU.
    pub fn insert_front(&mut self, page: CachedPage)
        ensures
            final(self)@ == seq![page] + old(self)@,
    {
        self.pages.insert(0, page);
        assert(self.pages@ =~= seq![page] + old(self)@);
    }

    /// Returns the position of the next page to evict among the first `end` pages: the least
    /// recently used inactive one ([`is_inactive`]), that is, the last. If none of them is
    /// inactive, the function returns `None`.
    ///
    /// To shrink the cache, scanning starts with `end` at the length of the LRU; if the
    /// writeback of the page found fails, it goes on with `end` at that page's position.
    pub fn next_victim(&self, end: usize) -> (r: Option<usize>)
        requires
            end <= self@.len(),
        ensures
            match r {
                Some(i) => {
                    &&& i < end
                    &&& is_inactive(self@[i as int])
                    &&& forall|j: int| i < j < end ==> !is_inactive(#[trigger] self@[j])
                },
                None => forall|j: int| 0 <= j < end ==> !is_inactive(#[trigger] self@[j]),
            },
    {
        let mut k = end;
        while k > 0
            invariant
                k <= end <= self@.len(),
                forall|j: int| k <= j < end ==> !is_inactive(#[trigger] self@[j]),
            decreases k,
        {
            let p = self.pages[k - 1];
            let held: usize = if p.in_node {
                3
            } else {
                2
            };
            if p.refs <= held {
                return Some(k - 1);
            }
            k -= 1;
        }
        None
    }

    /// Evicts the page at position `i`, written back to disk: it leaves the LRU, and the memory
    /// counted as inactive shrinks by the page's 4 KiB.
    pub fn evict(&mut self, i: usize, info: &mut MemInfo)
        requires
            i < old(self)@.len(),
            old(info).inactive >= 4,
        ensures
            final(self)@ == old(self)@.remove(i as int),
            *final(info) == (MemInfo { inactive: (old(info).inactive - 4) as usize, ..*old(info) }),
    {
        self.pages.remove(i);
        info.inactive = info.inactive - 4;
    }
}

} // verus!
