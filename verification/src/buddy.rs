//! The buddy allocator allows to allocate blocks of `2^n` pages of memory.
//!
//! This allocator works by dividing frames of memory in two recursively until a frame of the
//! required size is available. A freed frame is merged back with its buddy (the other half of the
//! frame it was split from) as long as the buddy is free.
//!
//! The order of a frame is the `n` in the expression `pow(2, n)` that represents the size of a
//! frame in pages.
use crate::errno::AllocError;
use crate::memory::PhysAddr;
use vstd::arithmetic::power2::{lemma_pow2_unfold, pow2};
use vstd::prelude::*;
use vstd::set_lib::{lemma_int_range, lemma_len_subset, lemma_set_disjoint_lens, set_int_range};

verus! {

/// The order of a memory frame.
pub type FrameOrder = u8;
/// Buddy allocator flags.
pub type Flags = i32;
/// The identifier of a frame: its index in its zone, in pages.
pub type FrameID = u32;

/// The maximum order of a buddy allocated frame.
pub const MAX_ORDER: FrameOrder = 17;
/// The number of memory zones.
pub const ZONES_COUNT: usize = 3;
/// The size of a page in bytes.
pub const PAGE_SIZE: u64 = 4096;

/// The mask for the zone ID in buddy allocator flags.
pub const ZONE_TYPE_MASK: Flags = 0b11;
/// Buddy allocator flag: allocate in user zone
pub const FLAG_ZONE_TYPE_USER: Flags = 0b00;
/// Buddy allocator flag: allocate in MMIO zone
pub const FLAG_ZONE_TYPE_MMIO: Flags = 0b01;
/// Buddy allocator flag: allocate in kernel zone
pub const FLAG_ZONE_TYPE_KERNEL: Flags = 0b10;

/// The number of pages in a frame of order `o`.
pub open spec fn bsize(o: int) -> int {
    pow2(o as nat) as int
}

/// Whether the frame of order `o` at `id` is aligned on its size and lies within a zone of
/// `pages` pages.
pub open spec fn valid_block(id: int, o: int, pages: int) -> bool {
    &&& 0 <= o <= MAX_ORDER
    &&& 0 <= id
    &&& id % bsize(o) == 0
    &&& id + bsize(o) <= pages
}

/// Whether the frames of order `ao` at `a` and of order `bo` at `b` do not overlap.
pub open spec fn blocks_disjoint(a: int, ao: int, b: int, bo: int) -> bool {
    a + bsize(ao) <= b || b + bsize(bo) <= a
}

/// The page `p` lies in one of the free frames `fl`.
pub open spec fn page_free(fl: Seq<FreeBlock>, p: int) -> bool {
    exists|k: int|
        0 <= k < fl.len() && #[trigger] fl[k].id <= p < fl[k].id + bsize(fl[k].order as int)
}

/// The pages of the frame of order `o` at `id`.
pub open spec fn interval(id: int, o: int) -> Set<int> {
    set_int_range(id, id + bsize(o))
}

/// Returns the buddy order required to fit the given number of pages: the smallest order whose
/// frames hold at least `pages` pages.
pub fn get_order(pages: usize) -> (order: FrameOrder)
    ensures
        pow2(order as nat) >= pages,
        order == 0 || pow2((order - 1) as nat) < pages,
{
    let mut order: u8 = 0;
    let mut size: u128 = 1;
    proof {
        vstd::arithmetic::power2::lemma2_to64();
    }
    while size < pages as u128
        invariant
            size == pow2(order as nat),
            order == 0 || pow2((order - 1) as nat) < pages,
            order <= 64,
        decreases 128 - order,
    {
        proof {
            vstd::arithmetic::power2::lemma2_to64();
            vstd::arithmetic::power2::lemma2_to64_rest();
            if order >= 64 {
                if order > 64 {
                    vstd::arithmetic::power2::lemma_pow2_strictly_increases(64, (order - 1) as nat);
                }
                assert(pow2((order - 1) as nat) >= pow2(63));
                assert(false);
            }
            lemma_pow2_unfold((order + 1) as nat);
            vstd::arithmetic::power2::lemma_pow2_strictly_increases(order as nat, 64);
        }
        size = size * 2;
        order = order + 1;
    }
    order
}

/// The number of pages in a frame of order `order`.
fn block_pages(order: FrameOrder) -> (r: u32)
    requires
        order <= MAX_ORDER,
    ensures
        r == bsize(order as int),
{
    let mut r: u32 = 1;
    let mut i: u8 = 0;
    proof {
        vstd::arithmetic::power2::lemma2_to64();
    }
    while i < order
        invariant
            i <= order <= MAX_ORDER,
            r == pow2(i as nat),
        decreases order - i,
    {
        proof {
            lemma_pow2_unfold((i + 1) as nat);
            vstd::bits::lemma_u32_pow2_no_overflow((i + 1) as nat);
        }
        r = r * 2;
        i = i + 1;
    }
    r
}

/// Returns the size in bytes of a frame with the given order `order`.
pub fn get_frame_size(order: FrameOrder) -> (s: u64)
    requires
        order <= MAX_ORDER,
    ensures
        s == PAGE_SIZE * bsize(order as int),
{
    let pages = block_pages(order);
    proof {
        vstd::bits::lemma_u32_pow2_no_overflow(17);
        if order < 17 {
            vstd::arithmetic::power2::lemma_pow2_strictly_increases(order as nat, 17);
        }
        vstd::arithmetic::power2::lemma2_to64();
    }
    PAGE_SIZE * pages as u64
}

proof fn lemma_bsize_facts(o: int)
    requires
        0 <= o,
    ensures
        bsize(o) > 0,
        bsize(o + 1) == 2 * bsize(o),
{
    vstd::arithmetic::power2::lemma_pow2_pos(o as nat);
    lemma_pow2_unfold((o + 1) as nat);
}

/// The halves of an aligned frame are aligned on their size.
proof fn lemma_split_aligned(id: int, p: int)
    requires
        p > 0,
        id >= 0,
        id % (2 * p) == 0,
    ensures
        id % p == 0,
        (id + p) % p == 0,
{
    let k = id / (2 * p);
    vstd::arithmetic::div_mod::lemma_fundamental_div_mod(id, 2 * p);
    assert(id == (2 * k) * p) by (nonlinear_arith)
        requires
            id == (2 * p) * k + 0,
    ;
    assert(id + p == (2 * k + 1) * p) by (nonlinear_arith)
        requires
            id == (2 * k) * p,
    ;
    vstd::arithmetic::div_mod::lemma_mod_multiples_basic(2 * k, p);
    vstd::arithmetic::div_mod::lemma_mod_multiples_basic(2 * k + 1, p);
}

/// A frame aligned on its size `p` is the lower half of an aligned frame of size `2p` if its
/// index at size `p` is even, and the upper half otherwise.
proof fn lemma_merge_aligned(id: int, p: int)
    requires
        p > 0,
        id >= 0,
        id % p == 0,
    ensures
        (id / p) % 2 == 0 ==> id % (2 * p) == 0,
        (id / p) % 2 != 0 ==> id >= p && (id - p) % (2 * p) == 0,
{
    let q = id / p;
    vstd::arithmetic::div_mod::lemma_fundamental_div_mod(id, p);
    assert(id == q * p) by (nonlinear_arith)
        requires
            id == p * q + 0,
    ;
    assert(q >= 0) by (nonlinear_arith)
        requires
            id == q * p,
            id >= 0,
            p > 0,
    ;
    let r = q / 2;
    if q % 2 == 0 {
        assert(q == 2 * r);
        assert(id == r * (2 * p)) by (nonlinear_arith)
            requires
                id == q * p,
                q == 2 * r,
        ;
        vstd::arithmetic::div_mod::lemma_mod_multiples_basic(r, 2 * p);
    } else {
        assert(q == 2 * r + 1);
        assert(id - p == r * (2 * p)) by (nonlinear_arith)
            requires
                id == q * p,
                q == 2 * r + 1,
        ;
        assert(id >= p) by (nonlinear_arith)
            requires
                id == q * p,
                q >= 1,
                p > 0,
        ;
        vstd::arithmetic::div_mod::lemma_mod_multiples_basic(r, 2 * p);
    }
}

/// The metadata for a frame of physical memory.
#[derive(Clone, Copy, Debug, PartialEq, Eq, Structural)]
pub enum Frame {
    /// The frame is free, as the first page of a free frame of the given order.
    Free(FrameOrder),
    /// The frame is allocated.
    Allocated,
}

/// A free frame, linked in the free list of its order.
#[derive(Clone, Copy, Debug, PartialEq, Eq, Structural)]
pub struct FreeBlock {
    /// The ID of the first page of the frame.
    pub id: FrameID,
    /// The order of the frame.
    pub order: FrameOrder,
}

/// An allocatable zone of memory.
pub struct Zone {
    /// The beginning of the allocatable memory of the zone
    begin: PhysAddr,
    /// The size of the zone in pages
    pages_count: FrameID,
    /// The number of allocated pages in the zone
    allocated_pages: usize,
    /// The metadata of the zone's pages
    frames: Vec<Frame>,
    /// The free frames, each order's frames in the order they were linked
    free_list: Vec<FreeBlock>,
    /// The allocated frames: the order of each, by ID
    allocations: Ghost<Map<int, int>>,
    /// The pages covered by allocated frames
    allocated_frames: Ghost<Set<int>>,
}

impl Zone {
    /// The beginning of the zone's memory.
    pub closed spec fn begin_spec(&self) -> u64 {
        self.begin.0
    }

    /// The size of the zone in pages.
    pub closed spec fn pages(&self) -> int {
        self.pages_count as int
    }

    /// The number of allocated pages in the zone.
    pub closed spec fn allocated_pages_spec(&self) -> int {
        self.allocated_pages as int
    }

    /// The free frames of the zone.
    pub closed spec fn free_blocks(&self) -> Seq<FreeBlock> {
        self.free_list@
    }

    /// The allocated frames of the zone: the order of each, by ID.
    pub closed spec fn allocations(&self) -> Map<int, int> {
        self.allocations@
    }

    spec fn listed_ok(&self, i: int) -> bool {
        let b = self.free_list@[i];
        &&& valid_block(b.id as int, b.order as int, self.pages_count as int)
        &&& self.frames@[b.id as int] == Frame::Free(b.order)
    }

    /// The zone's bookkeeping is consistent: free frames and allocated frames are valid and never
    /// overlap, and the allocated pages are counted exactly.
    pub closed spec fn wf(&self) -> bool {
        let fl = self.free_list@;
        let a = self.allocations@;
        let af = self.allocated_frames@;
        &&& self.frames@.len() == self.pages_count
        &&& self.begin.0 + self.pages_count * PAGE_SIZE <= u64::MAX
        &&& forall|i: int| 0 <= i < fl.len() ==> #[trigger] self.listed_ok(i)
        &&& forall|i: int, j: int|
            0 <= i < fl.len() && 0 <= j < fl.len() && i != j ==> blocks_disjoint(
                #[trigger] fl[i].id as int,
                fl[i].order as int,
                #[trigger] fl[j].id as int,
                fl[j].order as int,
            )
        &&& forall|x: int|
            #[trigger] a.contains_key(x) ==> valid_block(x, a[x], self.pages_count as int)
                && self.frames@[x] == Frame::Allocated && interval(x, a[x]).subset_of(af)
        &&& forall|x: int, y: int|
            #[trigger] a.contains_key(x) && #[trigger] a.contains_key(y) && x != y
                ==> blocks_disjoint(x, a[x], y, a[y])
        &&& forall|i: int, x: int|
            0 <= i < fl.len() && #[trigger] af.contains(x) ==> !(fl[i].id <= x < fl[i].id
                + bsize(#[trigger] fl[i].order as int))
        &&& af.finite()
        &&& af.subset_of(set_int_range(0, self.pages_count as int))
        &&& self.allocated_pages == af.len()
    }

    /// Whether the zone has a free frame of order `order` or more.
    pub open spec fn has_free_frame(&self, order: int) -> bool {
        exists|i: int|
            0 <= i < self.free_blocks().len() && #[trigger] self.free_blocks()[i].order >= order
    }

    /// Creates a buddy allocator zone covering the memory from `begin` to `begin + pages_count`
    /// pages, all free.
    pub fn new(begin: PhysAddr, pages_count: FrameID) -> (z: Zone)
        requires
            begin.0 + pages_count * PAGE_SIZE <= u64::MAX,
        ensures
            z.wf(),
            z.begin_spec() == begin.0,
            z.pages() == pages_count,
            z.allocated_pages_spec() == 0,
            z.allocations() == Map::<int, int>::empty(),
            forall|p: int| 0 <= p < pages_count ==> #[trigger] page_free(z.free_blocks(), p),
    {
        let mut frames: Vec<Frame> = Vec::new();
        let mut k: u32 = 0;
        while k < pages_count
            invariant
                k <= pages_count,
                frames@.len() == k,
            decreases pages_count - k,
        {
            frames.push(Frame::Free(0));
            k += 1;
        }
        let mut z = Zone {
            begin,
            pages_count,
            allocated_pages: 0,
            frames,
            free_list: Vec::new(),
            allocations: Ghost(Map::empty()),
            allocated_frames: Ghost(Set::empty()),
        };
        proof {
            lemma_int_range(0, pages_count as int);
            lemma_len_subset(Set::<int>::empty(), set_int_range(0, pages_count as int));
        }
        z.fill_free_list();
        z
    }

    /// Fills the free list during initialization with the largest frames that fit in the zone,
    /// from its beginning.
    fn fill_free_list(&mut self)
        requires
            old(self).wf(),
            old(self).free_list@.len() == 0,
            old(self).allocations@ == Map::<int, int>::empty(),
            old(self).allocated_frames@ == Set::<int>::empty(),
        ensures
            final(self).wf(),
            final(self).begin == old(self).begin,
            final(self).pages_count == old(self).pages_count,
            final(self).allocated_pages == old(self).allocated_pages,
            final(self).allocations@ == old(self).allocations@,
            final(self).allocated_frames@ == old(self).allocated_frames@,
            forall|p: int|
                0 <= p < final(self).pages_count ==> #[trigger] page_free(final(self).free_list@, p),
    {
        let mut i: u32 = 0;
        let mut order: u8 = MAX_ORDER;
        proof {
            lemma_bsize_facts(MAX_ORDER as int);
        }
        while i < self.pages_count
            invariant
                self.wf(),
                self.begin == old(self).begin,
                self.pages_count == old(self).pages_count,
                self.allocated_pages == old(self).allocated_pages,
                self.allocations@ == Map::<int, int>::empty(),
                self.allocated_frames@ == Set::<int>::empty(),
                order <= MAX_ORDER,
                i <= self.pages_count,
                (i as int) % bsize(order as int) == 0,
                forall|j: int|
                    0 <= j < self.free_list@.len() ==> #[trigger] self.free_list@[j].id
                        + bsize(self.free_list@[j].order as int) <= i,
                forall|p: int| 0 <= p < i ==> #[trigger] page_free(self.free_list@, p),
            decreases self.pages_count - i, order,
        {
            let len = block_pages(order);
            proof {
                lemma_bsize_facts(order as int);
            }
            if len > self.pages_count - i {
                proof {
                    assert(order > 0) by {
                        if order == 0 {
                            assert(bsize(0) == 1) by {
                                vstd::arithmetic::power2::lemma2_to64();
                            }
                        }
                    }
                    lemma_bsize_facts((order - 1) as int);
                    lemma_split_aligned(i as int, bsize((order - 1) as int));
                }
                order = order - 1;
                continue;
            }
            let ghost fl0 = self.free_list@;
            let ghost old_self = *self;
            self.frames.set(i as usize, Frame::Free(order));
            self.free_list.push(FreeBlock { id: i, order });
            proof {
                broadcast use vstd::arithmetic::power2::lemma_pow2_pos;

                assert forall|j: int| 0 <= j < self.free_list@.len() implies #[trigger] self.listed_ok(
                    j,
                ) by {
                    if j < fl0.len() {
                        assert(old_self.listed_ok(j));
                        assert(fl0[j].id + bsize(fl0[j].order as int) <= i);
                        assert(fl0[j].id < i);
                    }
                }
                assert forall|p: int| 0 <= p < i + len implies #[trigger] page_free(
                    self.free_list@,
                    p,
                ) by {
                    let last = fl0.len() as int;
                    if p < i {
                        assert(page_free(fl0, p));
                        let k = choose|k: int|
                            0 <= k < fl0.len() && #[trigger] fl0[k].id <= p < fl0[k].id + bsize(
                                fl0[k].order as int,
                            );
                        assert(self.free_list@[k] == fl0[k]);
                    } else {
                        assert(self.free_list@[last] == FreeBlock { id: i, order });
                        assert(self.free_list@[last].id <= p);
                    }
                }
                vstd::arithmetic::div_mod::lemma_mod_multiples_vanish(1, i as int, len as int);
                assert((i + len) as int % bsize(order as int) == 0) by {
                    assert((len * 1 + i as int) % (len as int) == (i as int) % (len as int));
                }
            }
            i = i + len;
        }
    }

    /// Returns the index in the free list of an available frame with an order of at least
    /// `order`: the most recently linked frame of the smallest such order.
    fn get_available_frame(&self, order: FrameOrder) -> (r: Option<usize>)
        requires
            self.wf(),
            order <= MAX_ORDER,
        ensures
            match r {
                None => !self.has_free_frame(order as int),
                Some(i) => {
                    &&& i < self.free_list@.len()
                    &&& self.free_list@[i as int].order >= order
                    &&& forall|j: int|
                        0 <= j < self.free_list@.len() && #[trigger] self.free_list@[j].order
                            >= order ==> self.free_list@[j].order >= self.free_list@[i as int].order
                    &&& forall|j: int|
                        i < j < self.free_list@.len() ==> #[trigger] self.free_list@[j].order
                            != self.free_list@[i as int].order
                },
            },
    {
        let mut o: u8 = order;
        while o <= MAX_ORDER
            invariant
                order <= o <= MAX_ORDER + 1,
                forall|j: int|
                    0 <= j < self.free_list@.len() && #[trigger] self.free_list@[j].order >= order
                        ==> self.free_list@[j].order >= o,
            decreases MAX_ORDER + 1 - o,
        {
            let mut k: usize = self.free_list.len();
            while k > 0
                invariant
                    order <= o <= MAX_ORDER,
                    forall|j: int|
                        0 <= j < self.free_list@.len() && #[trigger] self.free_list@[j].order
                            >= order ==> self.free_list@[j].order >= o,
                    k <= self.free_list@.len(),
                    forall|j: int|
                        k <= j < self.free_list@.len() ==> #[trigger] self.free_list@[j].order != o,
                decreases k,
            {
                if self.free_list[k - 1].order == o {
                    return Some(k - 1);
                }
                k -= 1;
            }
            o += 1;
        }
        proof {
            assert forall|j: int|
                0 <= j < self.free_list@.len() implies !(#[trigger] self.free_list@[j].order
                >= order) by {
                if self.free_list@[j].order >= order {
                    assert(self.free_list@[j].order <= MAX_ORDER) by {
                        assert(self.listed_ok(j));
                    }
                }
            }
        }
        None
    }
}


/// Whether no page of `set` lies in the frame of order `o` at `id`.
pub open spec fn set_avoids(set: Set<int>, id: int, o: int) -> bool {
    forall|y: int| #[trigger] set.contains(y) ==> !(id <= y < id + bsize(o))
}

/// A frame whose pages all belong to a set is disjoint from any frame that avoids the set.
proof fn lemma_disjoint_from_set(x: int, xo: int, id: int, o: int, s: Set<int>)
    requires
        xo >= 0,
        o >= 0,
        interval(x, xo).subset_of(s),
        set_avoids(s, id, o),
    ensures
        blocks_disjoint(x, xo, id, o),
{
    lemma_bsize_facts(xo);
    lemma_bsize_facts(o);
    if !blocks_disjoint(x, xo, id, o) {
        let w = if x < id {
            id
        } else {
            x
        };
        assert(interval(x, xo).contains(w));
        assert(s.contains(w));
    }
}

impl Zone {
    /// The frame of order `o` at `id` overlaps neither a free frame nor an allocated one.
    spec fn unused(&self, id: int, o: int) -> bool {
        &&& valid_block(id, o, self.pages_count as int)
        &&& set_avoids(self.allocated_frames@, id, o)
        &&& forall|i: int|
            0 <= i < self.free_list@.len() ==> blocks_disjoint(
                #[trigger] self.free_list@[i].id as int,
                self.free_list@[i].order as int,
                id,
                o,
            )
    }

    /// Removes the free frame at index `idx` of the free list.
    fn unlink(&mut self, idx: usize) -> (b: FreeBlock)
        requires
            old(self).wf(),
            idx < old(self).free_list@.len(),
        ensures
            final(self).wf(),
            b == old(self).free_list@[idx as int],
            final(self).free_list@ == old(self).free_list@.remove(idx as int),
            final(self).unused(b.id as int, b.order as int),
            final(self).frames@ == old(self).frames@,
            final(self).begin == old(self).begin,
            final(self).pages_count == old(self).pages_count,
            final(self).allocated_pages == old(self).allocated_pages,
            final(self).allocations@ == old(self).allocations@,
            final(self).allocated_frames@ == old(self).allocated_frames@,
    {
        let ghost old_self = *self;
        let b = self.free_list.remove(idx);
        proof {
            let fl0 = old_self.free_list@;
            assert(old_self.listed_ok(idx as int));
            assert forall|i: int| 0 <= i < self.free_list@.len() implies #[trigger] self.listed_ok(
                i,
            ) by {
                if i < idx {
                    assert(old_self.listed_ok(i));
                } else {
                    assert(old_self.listed_ok(i + 1));
                }
            }
            assert forall|i: int|
                0 <= i < self.free_list@.len() implies blocks_disjoint(
                #[trigger] self.free_list@[i].id as int,
                self.free_list@[i].order as int,
                b.id as int,
                b.order as int,
            ) by {
                if i < idx {
                    assert(fl0[i] == self.free_list@[i]);
                } else {
                    assert(fl0[i + 1] == self.free_list@[i]);
                }
            }
            assert forall|y: int| #[trigger] self.allocated_frames@.contains(y) implies !(b.id <= y
                < b.id + bsize(b.order as int)) by {
                assert(fl0[idx as int] == b);
            }
        }
        b
    }

    /// Links the frame of order `o` at `id` into the free list.
    fn link(&mut self, id: FrameID, o: FrameOrder)
        requires
            old(self).wf(),
            old(self).unused(id as int, o as int),
        ensures
            final(self).wf(),
            final(self).free_list@ == old(self).free_list@.push(FreeBlock { id, order: o }),
            final(self).begin == old(self).begin,
            final(self).pages_count == old(self).pages_count,
            final(self).allocated_pages == old(self).allocated_pages,
            final(self).allocations@ == old(self).allocations@,
            final(self).allocated_frames@ == old(self).allocated_frames@,
    {
        let ghost old_self = *self;
        proof {
            lemma_bsize_facts(o as int);
        }
        self.frames.set(id as usize, Frame::Free(o));
        self.free_list.push(FreeBlock { id, order: o });
        proof {
            let fl0 = old_self.free_list@;
            assert forall|i: int| 0 <= i < self.free_list@.len() implies #[trigger] self.listed_ok(
                i,
            ) by {
                if i < fl0.len() {
                    assert(old_self.listed_ok(i));
                    lemma_bsize_facts(fl0[i].order as int);
                    assert(blocks_disjoint(fl0[i].id as int, fl0[i].order as int, id as int, o as int));
                }
            }
            assert forall|x: int| #[trigger] self.allocations@.contains_key(x) implies self.frames@[x]
                == Frame::Allocated by {
                let xo = self.allocations@[x];
                lemma_bsize_facts(xo);
                assert(interval(x, xo).contains(x));
                assert(self.allocated_frames@.contains(x));
            }
        }
    }

    /// Allocates a frame of order `order` in the zone: the first page of the allocated frame is
    /// returned.
    ///
    /// A free frame of the smallest order available that is at least `order` is taken, then
    /// split in halves until it reaches the required order, the unused halves being freed.
    ///
    /// If no frame of order `order` or more is free, the function returns `None`.
    pub fn alloc_block(&mut self, order: FrameOrder) -> (r: Option<FrameID>)
        requires
            old(self).wf(),
            order <= MAX_ORDER,
        ensures
            final(self).wf(),
            final(self).begin_spec() == old(self).begin_spec(),
            final(self).pages() == old(self).pages(),
            r is None <==> !old(self).has_free_frame(order as int),
            r is None ==> final(self).allocations() == old(self).allocations()
                && final(self).allocated_pages_spec() == old(self).allocated_pages_spec()
                && final(self).free_blocks() == old(self).free_blocks(),
            r matches Some(id) ==> {
                &&& valid_block(id as int, order as int, old(self).pages())
                &&& !old(self).allocations().contains_key(id as int)
                &&& final(self).allocations() == old(self).allocations().insert(
                    id as int,
                    order as int,
                )
                &&& forall|x: int| #[trigger]
                    old(self).allocations().contains_key(x) ==> blocks_disjoint(
                        x,
                        old(self).allocations()[x],
                        id as int,
                        order as int,
                    )
                &&& final(self).allocated_pages_spec() == old(self).allocated_pages_spec() + bsize(
                    order as int,
                )
            },
    {
        let idx = match self.get_available_frame(order) {
            None => return None,
            Some(i) => i,
        };
        proof {
            assert(self.free_blocks()[idx as int].order >= order as int);
            assert(self.has_free_frame(order as int));
        }
        let b = self.unlink(idx);
        let id = b.id;
        let mut cur = b.order;
        while cur > order
            invariant
                self.wf(),
                self.begin == old(self).begin,
                self.pages_count == old(self).pages_count,
                self.allocated_pages == old(self).allocated_pages,
                self.allocations@ == old(self).allocations@,
                self.allocated_frames@ == old(self).allocated_frames@,
                order <= cur <= MAX_ORDER,
                self.unused(id as int, cur as int),
            decreases cur,
        {
            cur = cur - 1;
            let p = block_pages(cur);
            proof {
                lemma_bsize_facts(cur as int);
                lemma_split_aligned(id as int, p as int);
            }
            let ghost big = cur + 1;
            self.link(id + p, cur);
            proof {
                let fl = self.free_list@;
                assert forall|i: int|
                    0 <= i < fl.len() implies blocks_disjoint(
                    #[trigger] fl[i].id as int,
                    fl[i].order as int,
                    id as int,
                    cur as int,
                ) by {
                    if i < fl.len() - 1 {
                        assert(blocks_disjoint(
                            fl[i].id as int,
                            fl[i].order as int,
                            id as int,
                            big as int,
                        ));
                    }
                }
            }
        }
        let ghost old_self = *self;
        let p = block_pages(order);
        proof {
            lemma_bsize_facts(order as int);
        }
        self.frames.set(id as usize, Frame::Allocated);
        self.allocations = Ghost(self.allocations@.insert(id as int, order as int));
        self.allocated_frames = Ghost(
            self.allocated_frames@.union(interval(id as int, order as int)),
        );
        proof {
            let af0 = old_self.allocated_frames@;
            let iv = interval(id as int, order as int);
            lemma_int_range(id as int, id + p);
            assert(af0.disjoint(iv));
            lemma_set_disjoint_lens(af0, iv);
            lemma_int_range(0, self.pages_count as int);
            assert(self.allocated_frames@.subset_of(set_int_range(0, self.pages_count as int)));
            lemma_len_subset(self.allocated_frames@, set_int_range(0, self.pages_count as int));
        }
        self.allocated_pages = self.allocated_pages + p as usize;
        proof {
            let af0 = old_self.allocated_frames@;
            let a0 = old_self.allocations@;
            let iv = interval(id as int, order as int);
            lemma_bsize_facts(order as int);
            if a0.contains_key(id as int) {
                lemma_bsize_facts(a0[id as int]);
                assert(interval(id as int, a0[id as int]).contains(id as int));
                assert(af0.contains(id as int));
            }
            assert forall|i: int| 0 <= i < self.free_list@.len() implies #[trigger] self.listed_ok(
                i,
            ) by {
                assert(old_self.listed_ok(i));
                lemma_bsize_facts(self.free_list@[i].order as int);
            }
            assert forall|x: int| #[trigger] a0.contains_key(x) implies blocks_disjoint(
                x,
                a0[x],
                id as int,
                order as int,
            ) by {
                lemma_disjoint_from_set(x, a0[x], id as int, order as int, af0);
            }
            assert forall|x: int| #[trigger] self.allocations@.contains_key(x) implies valid_block(
                x,
                self.allocations@[x],
                self.pages_count as int,
            ) && self.frames@[x] == Frame::Allocated && interval(x, self.allocations@[x]).subset_of(
                self.allocated_frames@,
            ) by {
                if x != id {
                    lemma_bsize_facts(a0[x]);
                    assert(interval(x, a0[x]).contains(x));
                }
            }
            assert forall|x: int, y: int|
                #[trigger] self.allocations@.contains_key(x) && #[trigger] self.allocations@.contains_key(
                    y,
                ) && x != y implies blocks_disjoint(
                x,
                self.allocations@[x],
                y,
                self.allocations@[y],
            ) by {
                if x == id {
                    assert(blocks_disjoint(y, a0[y], id as int, order as int));
                } else if y == id {
                    assert(blocks_disjoint(x, a0[x], id as int, order as int));
                }
            }
            assert forall|i: int, x: int|
                0 <= i < self.free_list@.len() && #[trigger] self.allocated_frames@.contains(
                    x,
                ) implies !(self.free_list@[i].id <= x < self.free_list@[i].id + bsize(
                #[trigger] self.free_list@[i].order as int,
            )) by {
                if iv.contains(x) {
                    assert(blocks_disjoint(
                        self.free_list@[i].id as int,
                        self.free_list@[i].order as int,
                        id as int,
                        order as int,
                    ));
                }
            }
        }

        Some(id)
    }
}


impl Zone {
    /// Returns the index in the free list of the free frame of order `o` at `id`, if it is
    /// linked.
    fn find_free(&self, id: FrameID, o: FrameOrder) -> (r: Option<usize>)
        ensures
            match r {
                None => forall|i: int|
                    0 <= i < self.free_list@.len() ==> #[trigger] self.free_list@[i] != (FreeBlock {
                        id,
                        order: o,
                    }),
                Some(i) => i < self.free_list@.len() && self.free_list@[i as int] == (FreeBlock {
                    id,
                    order: o,
                }),
            },
    {
        let mut k: usize = 0;
        while k < self.free_list.len()
            invariant
                k <= self.free_list@.len(),
                forall|i: int| 0 <= i < k ==> #[trigger] self.free_list@[i] != (FreeBlock { id, order: o }),
            decreases self.free_list@.len() - k,
        {
            let b = self.free_list[k];
            if b.id == id && b.order == o {
                return Some(k);
            }
            k += 1;
        }
        None
    }

    /// Frees the allocated frame of order `order` at `id`, merging it with its buddy as long as
    /// the buddy is free, then linking the resulting frame into the free list.
    pub fn free_block(&mut self, id: FrameID, order: FrameOrder)
        requires
            old(self).wf(),
            old(self).allocations().contains_key(id as int),
            old(self).allocations()[id as int] == order,
        ensures
            final(self).wf(),
            final(self).begin_spec() == old(self).begin_spec(),
            final(self).pages() == old(self).pages(),
            final(self).allocations() == old(self).allocations().remove(id as int),
            final(self).allocated_pages_spec() == old(self).allocated_pages_spec() - bsize(
                order as int,
            ),
    {
        let ghost old_self = *self;
        let p = block_pages(order);
        proof {
            let af0 = old_self.allocated_frames@;
            let a0 = old_self.allocations@;
            let iv = interval(id as int, order as int);
            lemma_bsize_facts(order as int);
            lemma_int_range(id as int, id + p);
            assert(iv.subset_of(af0));
            lemma_len_subset(iv, af0);
        }
        self.allocated_pages = self.allocated_pages - p as usize;
        self.allocations = Ghost(self.allocations@.remove(id as int));
        self.allocated_frames = Ghost(
            self.allocated_frames@.difference(interval(id as int, order as int)),
        );
        self.frames.set(id as usize, Frame::Free(order));
        proof {
            let af0 = old_self.allocated_frames@;
            let a0 = old_self.allocations@;
            let iv = interval(id as int, order as int);
            let af1 = self.allocated_frames@;
            assert(af0 =~= af1.union(iv));
            assert(af1.disjoint(iv));
            lemma_set_disjoint_lens(af1, iv);
            assert forall|i: int| 0 <= i < self.free_list@.len() implies #[trigger] self.listed_ok(
                i,
            ) by {
                assert(old_self.listed_ok(i));
                let b = self.free_list@[i];
                lemma_bsize_facts(b.order as int);
                if b.id == id {
                    assert(iv.contains(id as int));
                    assert(af0.contains(id as int));
                }
            }
            assert forall|x: int| #[trigger] self.allocations@.contains_key(x) implies valid_block(
                x,
                self.allocations@[x],
                self.pages_count as int,
            ) && self.frames@[x] == Frame::Allocated && interval(x, self.allocations@[x]).subset_of(
                af1,
            ) by {
                assert(a0.contains_key(x) && x != id);
                assert(blocks_disjoint(x, a0[x], id as int, order as int));
                lemma_bsize_facts(a0[x]);
                assert(interval(x, a0[x]).subset_of(af0));
            }
            assert forall|i: int| 0 <= i < self.free_list@.len() implies blocks_disjoint(
                #[trigger] self.free_list@[i].id as int,
                self.free_list@[i].order as int,
                id as int,
                order as int,
            ) by {
                let b = self.free_list@[i];
                lemma_bsize_facts(b.order as int);
                if !blocks_disjoint(b.id as int, b.order as int, id as int, order as int) {
                    let w = if b.id < id {
                        id as int
                    } else {
                        b.id as int
                    };
                    assert(iv.contains(w));
                    assert(af0.contains(w));
                }
            }
            assert(self.wf());
        }
        let mut cid = id;
        let mut cur = order;
        while cur < MAX_ORDER
            invariant
                self.wf(),
                self.begin == old(self).begin,
                self.pages_count == old(self).pages_count,
                self.allocated_pages == old(self).allocated_pages - bsize(order as int),
                self.allocations@ == old(self).allocations@.remove(id as int),
                cur <= MAX_ORDER,
                self.unused(cid as int, cur as int),
            decreases MAX_ORDER - cur,
        {
            let size = block_pages(cur);
            proof {
                lemma_bsize_facts(cur as int);
                lemma_merge_aligned(cid as int, size as int);
            }
            let q = cid / size;
            let buddy = if q % 2 == 0 {
                if size > self.pages_count - cid {
                    break ;
                }
                cid + size
            } else {
                cid - size
            };
            if buddy >= self.pages_count {
                break ;
            }
            match self.frames[buddy as usize] {
                Frame::Free(o) => {
                    if o != cur {
                        break ;
                    }
                },
                Frame::Allocated => {
                    break ;
                },
            }
            let k = match self.find_free(buddy, cur) {
                Some(k) => k,
                None => {
                    break ;
                },
            };
            let ghost before = *self;
            let b = self.unlink(k);
            proof {
                lemma_bsize_facts((cur + 1) as int);
                let lo = if cid < buddy {
                    cid as int
                } else {
                    buddy as int
                };
                assert(valid_block(lo, (cur + 1) as int, self.pages_count as int));
                assert forall|i: int| 0 <= i < self.free_list@.len() implies blocks_disjoint(
                    #[trigger] self.free_list@[i].id as int,
                    self.free_list@[i].order as int,
                    lo,
                    (cur + 1) as int,
                ) by {
                    let j = if i < k {
                        i
                    } else {
                        i + 1
                    };
                    assert(before.free_list@[j] == self.free_list@[i]);
                    lemma_bsize_facts(self.free_list@[i].order as int);
                    assert(blocks_disjoint(
                        before.free_list@[j].id as int,
                        before.free_list@[j].order as int,
                        cid as int,
                        cur as int,
                    ));
                    assert(blocks_disjoint(
                        self.free_list@[i].id as int,
                        self.free_list@[i].order as int,
                        cid as int,
                        cur as int,
                    ));
                    assert(blocks_disjoint(
                        self.free_list@[i].id as int,
                        self.free_list@[i].order as int,
                        buddy as int,
                        cur as int,
                    ));
                }
            }
            if buddy < cid {
                cid = buddy;
            }
            cur = cur + 1;
        }
        self.link(cid, cur);
    }
}


/// Zone `new` is zone `old` after the allocation of the frame of order `order` at `id`: the frame
/// is valid, it overlaps no frame that was allocated, and it is counted as allocated.
pub open spec fn zone_alloc(old: Zone, new: Zone, id: int, order: int) -> bool {
    &&& valid_block(id, order, old.pages())
    &&& !old.allocations().contains_key(id)
    &&& forall|x: int| #[trigger]
        old.allocations().contains_key(x) ==> blocks_disjoint(x, old.allocations()[x], id, order)
    &&& new.allocations() == old.allocations().insert(id, order)
    &&& new.allocated_pages_spec() == old.allocated_pages_spec() + bsize(order)
    &&& new.begin_spec() == old.begin_spec()
    &&& new.pages() == old.pages()
}

/// The memory of `pa` pages at `a` and that of `pb` pages at `b` do not overlap.
pub open spec fn ranges_apart(a: int, pa: int, b: int, pb: int) -> bool {
    a + pa * PAGE_SIZE <= b || b + pb * PAGE_SIZE <= a
}

/// The buddy allocator: the allocatable zones of memory, initialized at boot. Zones are indexed by
/// the zone type of the allocation flags: user, MMIO, then kernel.
pub struct BuddyAllocator {
    /// The zone of user memory.
    user: Zone,
    /// The zone of memory for memory-mapped I/O.
    mmio: Zone,
    /// The zone of kernel memory.
    kernel: Zone,
}

impl BuddyAllocator {
    /// The zone of index `k`.
    pub closed spec fn zone(&self, k: int) -> Zone {
        if k == 0 {
            self.user
        } else if k == 1 {
            self.mmio
        } else {
            self.kernel
        }
    }

    /// The memory of zones `j` and `k` does not overlap.
    pub open spec fn zones_apart(&self, j: int, k: int) -> bool {
        ranges_apart(
            self.zone(j).begin_spec() as int,
            self.zone(j).pages(),
            self.zone(k).begin_spec() as int,
            self.zone(k).pages(),
        )
    }

    /// All zones are consistent, their memory does not overlap, and the total number of pages
    /// fits in an `usize`.
    pub open spec fn wf(&self) -> bool {
        &&& forall|k: int| 0 <= k < ZONES_COUNT ==> #[trigger] self.zone(k).wf()
        &&& self.zone(0).pages() + self.zone(1).pages() + self.zone(2).pages() <= usize::MAX
        &&& self.zones_apart(0, 1)
        &&& self.zones_apart(0, 2)
        &&& self.zones_apart(1, 2)
    }

    /// The total number of pages allocated in the zones.
    pub open spec fn allocated_total(&self) -> int {
        self.zone(0).allocated_pages_spec() + self.zone(1).allocated_pages_spec() + self.zone(
            2,
        ).allocated_pages_spec()
    }

    /// The first page of each zone, in bytes.
    pub open spec fn zone_begin(&self, k: int) -> int {
        self.zone(k).begin_spec() as int
    }

    /// Creates the allocator from its three zones, given by their beginning and their size in
    /// pages: user, MMIO and kernel. All their memory is free.
    pub fn new(zones: [(PhysAddr, FrameID); 3]) -> (a: Self)
        requires
            forall|k: int| 0 <= k < 3 ==> #[trigger] zones@[k].0.0 + zones@[k].1 * PAGE_SIZE <= u64::MAX,
            zones@[0].1 + zones@[1].1 + zones@[2].1 <= usize::MAX,
            ranges_apart(zones@[0].0.0 as int, zones@[0].1 as int, zones@[1].0.0 as int, zones@[1].1 as int),
            ranges_apart(zones@[0].0.0 as int, zones@[0].1 as int, zones@[2].0.0 as int, zones@[2].1 as int),
            ranges_apart(zones@[1].0.0 as int, zones@[1].1 as int, zones@[2].0.0 as int, zones@[2].1 as int),
        ensures
            a.wf(),
            forall|k: int|
                0 <= k < 3 ==> #[trigger] a.zone(k).begin_spec() == zones@[k].0.0 && a.zone(k).pages()
                    == zones@[k].1 && a.zone(k).allocated_pages_spec() == 0 && a.zone(
                    k,
                ).allocations() == Map::<int, int>::empty(),
    {
        let (b0, p0) = zones[0];
        let (b1, p1) = zones[1];
        let (b2, p2) = zones[2];
        proof {
            assert(zones@[0].0.0 + zones@[0].1 * PAGE_SIZE <= u64::MAX);
            assert(zones@[1].0.0 + zones@[1].1 * PAGE_SIZE <= u64::MAX);
            assert(zones@[2].0.0 + zones@[2].1 * PAGE_SIZE <= u64::MAX);
        }
        let a = BuddyAllocator {
            user: Zone::new(b0, p0),
            mmio: Zone::new(b1, p1),
            kernel: Zone::new(b2, p2),
        };
        assert(forall|k: int| 0 <= k < ZONES_COUNT ==> #[trigger] a.zone(k).wf());
        a
    }

    /// Zone `k` is the first zone from `begin` on that has a free frame of order `order` or
    /// more.
    pub open spec fn first_fit(&self, begin: int, order: int, k: int) -> bool {
        &&& begin <= k < ZONES_COUNT
        &&& self.zone(k).has_free_frame(order)
        &&& forall|j: int| begin <= j < k ==> !#[trigger] self.zone(j).has_free_frame(order)
    }

    /// Every zone but zone `k` is the same as in `old`.
    pub open spec fn others_unchanged(&self, old: BuddyAllocator, k: int) -> bool {
        forall|j: int| 0 <= j < ZONES_COUNT && j != k ==> #[trigger] self.zone(j) == old.zone(j)
    }

    fn has_free_frame_in(&self, k: usize, order: FrameOrder) -> (b: bool)
        requires
            self.wf(),
            k < ZONES_COUNT,
            order <= MAX_ORDER,
        ensures
            b == self.zone(k as int).has_free_frame(order as int),
    {
        proof {
            assert(self.zone(k as int).wf());
        }
        let z = if k == 0 {
            &self.user
        } else if k == 1 {
            &self.mmio
        } else {
            &self.kernel
        };
        assert(*z == self.zone(k as int));
        match z.get_available_frame(order) {
            Some(i) => {
                assert(z.free_blocks()[i as int].order >= order);
                true
            },
            None => false,
        }
    }

    /// Allocates a frame of memory.
    ///
    /// Arguments:
    /// - `order` is the order of the frame to be allocated
    /// - `flags` for the allocation: its zone type selects the first zone in which to allocate;
    ///   the following zones are used if it has no free frame large enough.
    ///
    /// If no suitable frame is found, the function returns an error.
    ///
    /// On success, the function returns the *physical* address of the allocated memory.
    #[verifier::rlimit(50)]
    pub fn alloc_frame(&mut self, order: FrameOrder, flags: Flags) -> (r: Result<PhysAddr, AllocError>)
        requires
            old(self).wf(),
        ensures
            final(self).wf(),
            order > MAX_ORDER ==> r is Err,
            order <= MAX_ORDER ==> match r {
                Err(_) => (forall|k: int|
                    (flags & ZONE_TYPE_MASK) as int <= k < ZONES_COUNT ==> !#[trigger] old(
                        self,
                    ).zone(k).has_free_frame(order as int)) && *final(self) == *old(self),
                Ok(addr) => exists|k: int, id: int|
                    #[trigger] old(self).first_fit((flags & ZONE_TYPE_MASK) as int, order as int, k)
                        && addr.0 == old(self).zone(k).begin_spec() + id * PAGE_SIZE
                        && #[trigger] zone_alloc(old(self).zone(k), final(self).zone(k), id, order as int)
                        && final(self).others_unchanged(*old(self), k),
            },
            r matches Ok(addr) ==> final(self).is_allocated_at(addr.0 as int, order as int),
            r matches Ok(_) ==> final(self).allocated_total() == old(self).allocated_total() + bsize(
                order as int,
            ),
    {
        if order > MAX_ORDER {
            return Err(AllocError);
        }
        let m = flags & ZONE_TYPE_MASK;
        assert(0 <= m <= 3) by (bit_vector)
            requires
                m == flags & 3,
        ;
        let begin_zone = m as usize;
        let mut k = begin_zone;
        while k < ZONES_COUNT
            invariant
                self.wf(),
                *self == *old(self),
                begin_zone <= k <= ZONES_COUNT,
                begin_zone as int == (flags & ZONE_TYPE_MASK) as int,
                order <= MAX_ORDER,
                forall|j: int|
                    begin_zone <= j < k ==> !#[trigger] self.zone(j).has_free_frame(order as int),
            ensures
                k < ZONES_COUNT ==> self.zone(k as int).has_free_frame(order as int),
            decreases ZONES_COUNT - k,
        {
            if self.has_free_frame_in(k, order) {
                break ;
            }
            k += 1;
        }
        if k >= ZONES_COUNT {
            assert(forall|j: int|
                (flags & ZONE_TYPE_MASK) as int <= j < ZONES_COUNT ==> !#[trigger] old(self).zone(j).has_free_frame(order as int));
            return Err(AllocError);
        }
        let ghost old_self = *self;
        proof {
            assert(self.zone(k as int).wf());
        }
        let r = if k == 0 {
            let r = self.user.alloc_block(order);
            assert(self.zone(1) == old_self.zone(1) && self.zone(2) == old_self.zone(2));
            r
        } else if k == 1 {
            let r = self.mmio.alloc_block(order);
            assert(self.zone(0) == old_self.zone(0) && self.zone(2) == old_self.zone(2));
            r
        } else {
            let r = self.kernel.alloc_block(order);
            assert(self.zone(0) == old_self.zone(0) && self.zone(1) == old_self.zone(1));
            r
        };
        let id = match r {
            Some(id) => id,
            None => {
                return Err(AllocError);
            },
        };
        let begin = if k == 0 {
            self.user.begin
        } else if k == 1 {
            self.mmio.begin
        } else {
            self.kernel.begin
        };
        proof {
            assert(self.zone(k as int).wf());
            lemma_bsize_facts(order as int);
            assert(id < self.zone(k as int).pages());
            assert(forall|j: int| 0 <= j < ZONES_COUNT ==> #[trigger] self.zone(j).wf());
        }
        let addr = PhysAddr(begin.0 + id as u64 * PAGE_SIZE);
        proof {
            assert(addr.0 == old_self.zone(k as int).begin_spec() + id * PAGE_SIZE);
            assert(old_self.first_fit(begin_zone as int, order as int, k as int));
            assert(zone_alloc(old_self.zone(k as int), self.zone(k as int), id as int, order as int));
            assert(self.others_unchanged(old_self, k as int));
            self.lemma_allocated_at(k as int, id as int, order as int, addr.0 as int);
        }
        Ok(addr)
    }

    /// The physical address `a` lies in zone `k`.
    pub open spec fn in_zone(&self, k: int, a: int) -> bool {
        self.zone_begin(k) <= a < self.zone_begin(k) + self.zone(k).pages() * PAGE_SIZE
    }

    /// Zone `k` is the first zone that holds the physical address `a`.
    pub open spec fn first_zone_of(&self, a: int, k: int) -> bool {
        &&& 0 <= k < ZONES_COUNT
        &&& self.in_zone(k, a)
        &&& forall|j: int| 0 <= j < k ==> !#[trigger] self.in_zone(j, a)
    }

    /// The identifier, within zone `k`, of the frame at the physical address `a`.
    pub open spec fn frame_id_in(&self, k: int, a: int) -> int {
        (a - self.zone_begin(k)) / (PAGE_SIZE as int)
    }

    /// The physical address `a` is the beginning of a block of order `order` allocated in the
    /// first zone that holds `a`.
    pub open spec fn is_allocated_at(&self, a: int, order: int) -> bool {
        exists|k: int|
            #[trigger] self.first_zone_of(a, k) && (a - self.zone_begin(k)) % (PAGE_SIZE as int) == 0
                && self.zone(k).allocations().contains_key(self.frame_id_in(k, a))
                && self.zone(k).allocations()[self.frame_id_in(k, a)] == order
    }

    /// The frame of order `order` at `id` in zone `k`, recorded as allocated there, is allocated
    /// at its physical address: zones do not overlap, so `k` is the zone that holds it.
    proof fn lemma_allocated_at(&self, k: int, id: int, order: int, a: int)
        requires
            self.wf(),
            0 <= k < ZONES_COUNT,
            0 <= id < self.zone(k).pages(),
            a == self.zone_begin(k) + id * PAGE_SIZE,
            self.zone(k).allocations().contains_key(id),
            self.zone(k).allocations()[id] == order,
        ensures
            self.is_allocated_at(a, order),
    {
        assert(id * PAGE_SIZE < self.zone(k).pages() * PAGE_SIZE) by (nonlinear_arith)
            requires
                0 <= id < self.zone(k).pages(),
        ;
        assert(self.in_zone(k, a));
        assert forall|j: int| 0 <= j < k implies !#[trigger] self.in_zone(j, a) by {
            if j == 0 && k == 1 {
                assert(self.zones_apart(0, 1));
            } else if j == 0 && k == 2 {
                assert(self.zones_apart(0, 2));
            } else if j == 1 && k == 2 {
                assert(self.zones_apart(1, 2));
            }
        }
        assert(self.first_zone_of(a, k));
        assert((id * 4096) % 4096 == 0 && (id * 4096) / 4096 == id) by (nonlinear_arith);
        assert(self.frame_id_in(k, a) == id);
    }

    /// Zone `k` holds the physical address `a` and zones do not overlap: `k` is the first zone
    /// that holds `a`.
    proof fn lemma_only_zone(&self, a: int, k: int)
        requires
            self.wf(),
            0 <= k < ZONES_COUNT,
            self.in_zone(k, a),
        ensures
            self.first_zone_of(a, k),
            forall|j: int| 0 <= j < ZONES_COUNT && j != k ==> !#[trigger] self.in_zone(j, a),
    {
        assert(self.zones_apart(0, 1) && self.zones_apart(0, 2) && self.zones_apart(1, 2));
    }

    proof fn lemma_first_zone_unique(&self, a: int, k: int, w: int)
        requires
            self.first_zone_of(a, k),
            self.first_zone_of(a, w),
        ensures
            k == w,
    {
        if w < k {
            assert(!self.in_zone(w, a));
        } else if k < w {
            assert(!self.in_zone(k, a));
        }
    }

    /// Returns the index of the zone that contains the given physical address, if any.
    pub fn get_zone_for_addr(&self, addr: PhysAddr) -> (r: Option<usize>)
        requires
            self.wf(),
        ensures
            match r {
                None => forall|k: int| 0 <= k < ZONES_COUNT ==> !#[trigger] self.in_zone(k, addr.0 as int),
                Some(k) => self.first_zone_of(addr.0 as int, k as int),
            },
    {
        let mut k: usize = 0;
        while k < ZONES_COUNT
            invariant
                self.wf(),
                k <= ZONES_COUNT,
                forall|j: int| 0 <= j < k ==> !#[trigger] self.in_zone(j, addr.0 as int),
            decreases ZONES_COUNT - k,
        {
            let z = if k == 0 {
                &self.user
            } else if k == 1 {
                &self.mmio
            } else {
                &self.kernel
            };
            proof {
                assert(self.zone(k as int).wf());
            }
            let end = z.begin.0 + z.pages_count as u64 * PAGE_SIZE;
            if z.begin.0 <= addr.0 && addr.0 < end {
                return Some(k);
            }
            k += 1;
        }
        None
    }

    /// Frees the frame of order `order` at the physical address `addr`, that was allocated using
    /// the buddy allocator with the same order.
    #[verifier::rlimit(30)]
    pub fn free(&mut self, addr: PhysAddr, order: FrameOrder)
        requires
            old(self).wf(),
            old(self).is_allocated_at(addr.0 as int, order as int),
        ensures
            final(self).wf(),
            exists|k: int|
                #[trigger] old(self).first_zone_of(addr.0 as int, k)
                    && final(self).zone(k).allocations() == old(self).zone(k).allocations().remove(
                    old(self).frame_id_in(k, addr.0 as int),
                ) && final(self).zone(k).allocated_pages_spec() == old(self).zone(
                    k,
                ).allocated_pages_spec() - bsize(order as int)
                    && final(self).others_unchanged(*old(self), k),
            final(self).allocated_total() == old(self).allocated_total() - bsize(order as int),
    {
        let ghost w = choose|k: int|
            #[trigger] old(self).first_zone_of(addr.0 as int, k) && (addr.0 - old(self).zone_begin(k))
                % (PAGE_SIZE as int) == 0 && old(self).zone(k).allocations().contains_key(
                old(self).frame_id_in(k, addr.0 as int),
            ) && old(self).zone(k).allocations()[old(self).frame_id_in(k, addr.0 as int)]
                == order;
        let k = match self.get_zone_for_addr(addr) {
            Some(k) => k,
            None => {
                proof {
                    assert(self.in_zone(w, addr.0 as int));
                }
                return ;
            },
        };
        proof {
            self.lemma_first_zone_unique(addr.0 as int, k as int, w);
        }
        let ghost old_self = *self;
        let begin = if k == 0 {
            self.user.begin
        } else if k == 1 {
            self.mmio.begin
        } else {
            self.kernel.begin
        };
        let id = ((addr.0 - begin.0) / PAGE_SIZE) as u32;
        proof {
            assert(self.zone(k as int).wf());
            let off = addr.0 - begin.0;
            assert(off / 4096 < self.zone(k as int).pages()) by (nonlinear_arith)
                requires
                    off < self.zone(k as int).pages() * 4096,
                    off >= 0,
            ;
            assert(id == self.frame_id_in(k as int, addr.0 as int));
        }
        if k == 0 {
            self.user.free_block(id, order);
            assert(self.zone(1) == old_self.zone(1) && self.zone(2) == old_self.zone(2));
        } else if k == 1 {
            self.mmio.free_block(id, order);
            assert(self.zone(0) == old_self.zone(0) && self.zone(2) == old_self.zone(2));
        } else {
            self.kernel.free_block(id, order);
            assert(self.zone(0) == old_self.zone(0) && self.zone(1) == old_self.zone(1));
        }
        assert(forall|j: int| 0 <= j < ZONES_COUNT ==> #[trigger] self.zone(j).wf());
        assert(self.others_unchanged(old_self, k as int));
        assert(old_self.first_zone_of(addr.0 as int, k as int));
    }

    /// Returns the total number of pages allocated by the buddy allocator.
    pub fn allocated_pages_count(&self) -> (n: usize)
        requires
            self.wf(),
        ensures
            n == self.zone(0).allocated_pages_spec() + self.zone(1).allocated_pages_spec()
                + self.zone(2).allocated_pages_spec(),
    {
        proof {
            assert(self.zone(0).wf());
            assert(self.zone(1).wf());
            assert(self.zone(2).wf());
            self.user.lemma_allocated_bound();
            self.mmio.lemma_allocated_bound();
            self.kernel.lemma_allocated_bound();
        }
        self.user.allocated_pages + self.mmio.allocated_pages + self.kernel.allocated_pages
    }
}

impl Zone {
    /// A zone never counts more allocated pages than it has.
    pub proof fn lemma_allocated_bound(&self)
        requires
            self.wf(),
        ensures
            0 <= self.allocated_pages_spec() <= self.pages(),
    {
        lemma_int_range(0, self.pages_count as int);
        lemma_len_subset(self.allocated_frames@, set_int_range(0, self.pages_count as int));
    }
}

/// Allocating a frame and then freeing it at the address returned gives back the allocator's
/// bookkeeping as it was: the allocation raises the number of allocated pages by the size of the
/// block, and after the free every zone has the same allocated frames, and the number of
/// allocated pages is the same. `a1` is `a0` after [`BuddyAllocator::alloc_frame`] returned `addr`, and
/// `a2` is `a1` after [`BuddyAllocator::free`] of `addr` with the same order.
pub proof fn lemma_alloc_free_restores(
    a0: BuddyAllocator,
    a1: BuddyAllocator,
    a2: BuddyAllocator,
    addr: int,
    order: int,
    begin: int,
)
    requires
        a0.wf(),
        a1.wf(),
        exists|k: int, id: int|
            #[trigger] a0.first_fit(begin, order, k) && addr == a0.zone(k).begin_spec() + id
                * PAGE_SIZE && #[trigger] zone_alloc(a0.zone(k), a1.zone(k), id, order)
                && a1.others_unchanged(a0, k),
        exists|k: int|
            #[trigger] a1.first_zone_of(addr, k) && a2.zone(k).allocations() == a1.zone(
                k,
            ).allocations().remove(a1.frame_id_in(k, addr)) && a2.zone(k).allocated_pages_spec()
                == a1.zone(k).allocated_pages_spec() - bsize(order) && a2.others_unchanged(a1, k),
    ensures
        a1.allocated_total() == a0.allocated_total() + bsize(order),
        forall|k: int| 0 <= k < ZONES_COUNT ==> #[trigger] a2.zone(k).allocations() == a0.zone(
            k,
        ).allocations(),
        a2.allocated_total() == a0.allocated_total(),
{
    let (k, id) = choose|k: int, id: int|
        #[trigger] a0.first_fit(begin, order, k) && addr == a0.zone(k).begin_spec() + id
            * PAGE_SIZE && #[trigger] zone_alloc(a0.zone(k), a1.zone(k), id, order)
            && a1.others_unchanged(a0, k);
    let w = choose|w: int|
        #[trigger] a1.first_zone_of(addr, w) && a2.zone(w).allocations() == a1.zone(
            w,
        ).allocations().remove(a1.frame_id_in(w, addr)) && a2.zone(w).allocated_pages_spec()
            == a1.zone(w).allocated_pages_spec() - bsize(order) && a2.others_unchanged(a1, w);
    vstd::arithmetic::power2::lemma_pow2_pos(order as nat);
    assert(id * PAGE_SIZE < a1.zone(k).pages() * PAGE_SIZE) by (nonlinear_arith)
        requires
            0 <= id,
            id + bsize(order) <= a1.zone(k).pages(),
            bsize(order) >= 1,
    {
    }
    assert(a1.in_zone(k, addr));
    a1.lemma_only_zone(addr, k);
    assert(w == k);
    assert((id * 4096) / 4096 == id) by (nonlinear_arith);
    assert(a1.frame_id_in(k, addr) == id);
    assert(a0.zone(k).allocations().insert(id, order).remove(id) =~= a0.zone(k).allocations());
    assert forall|j: int| 0 <= j < ZONES_COUNT implies #[trigger] a2.zone(j).allocations()
        == a0.zone(j).allocations() by {
        if j != k {
            assert(a2.zone(j) == a1.zone(j));
            assert(a1.zone(j) == a0.zone(j));
        }
    }
    if k == 0 {
        assert(a2.zone(1) == a0.zone(1) && a2.zone(2) == a0.zone(2));
    } else if k == 1 {
        assert(a2.zone(0) == a0.zone(0) && a2.zone(2) == a0.zone(2));
    } else {
        assert(a2.zone(0) == a0.zone(0) && a2.zone(1) == a0.zone(1));
    }
}

/// The number of pages by which the step `s` of a run of the allocator changes the count of
/// allocated pages: an allocation (`s.0`) of a block of order `s.1` adds its size, a free takes
/// it away.
pub open spec fn step_pages(s: (bool, int)) -> int {
    if s.0 {
        bsize(s.1)
    } else {
        -bsize(s.1)
    }
}

/// The net number of pages that the run of steps `steps` allocates.
pub open spec fn net_pages(steps: Seq<(bool, int)>) -> int
    decreases steps.len(),
{
    if steps.len() == 0 {
        0
    } else {
        net_pages(steps.drop_last()) + step_pages(steps.last())
    }
}

/// The number of allocations in the run of steps `steps`.
pub open spec fn allocs_in(steps: Seq<(bool, int)>) -> int
    decreases steps.len(),
{
    if steps.len() == 0 {
        0
    } else {
        allocs_in(steps.drop_last()) + if steps.last().0 {
            1int
        } else {
            0int
        }
    }
}

/// Over a run of allocations and frees, the number of allocated pages moves by the size of each
/// block: up for an allocation, down for a free. `runs[i + 1]` is `runs[i]` after the step
/// `steps[i]`: [`BuddyAllocator::alloc_frame`] that returned `Ok`, or [`BuddyAllocator::free`].
/// When every block has the same order, the count at the end is the count at the start plus the
/// block size times the allocations less the frees: a run with as many frees as allocations, in
/// whatever order, gives the count back.
pub proof fn lemma_run_count(runs: Seq<BuddyAllocator>, steps: Seq<(bool, int)>, order: int)
    requires
        runs.len() == steps.len() + 1,
        forall|i: int|
            0 < i < runs.len() ==> #[trigger] runs[i].allocated_total() == runs[i
                - 1].allocated_total() + step_pages(steps[i - 1]),
    ensures
        runs.last().allocated_total() == runs[0].allocated_total() + net_pages(steps),
        (forall|i: int| 0 <= i < steps.len() ==> (#[trigger] steps[i]).1 == order) ==> net_pages(
            steps,
        ) == bsize(order) * (2 * allocs_in(steps) - steps.len()),
    decreases steps.len(),
{
    if steps.len() > 0 {
        let r = runs.drop_last();
        let s = steps.drop_last();
        assert forall|i: int| 0 < i < r.len() implies #[trigger] r[i].allocated_total() == r[i
            - 1].allocated_total() + step_pages(s[i - 1]) by {
            assert(r[i] == runs[i] && r[i - 1] == runs[i - 1] && s[i - 1] == steps[i - 1]);
        }
        lemma_run_count(r, s, order);
        assert(runs[runs.len() - 1].allocated_total() == runs[runs.len() - 2].allocated_total()
            + step_pages(steps[steps.len() - 1]));
        if forall|i: int| 0 <= i < steps.len() ==> (#[trigger] steps[i]).1 == order {
            assert forall|i: int| 0 <= i < s.len() implies (#[trigger] s[i]).1 == order by {
                assert(s[i] == steps[i]);
            }
            let b = bsize(order);
            let x = 2 * allocs_in(s) - s.len();
            assert(steps.last().1 == order);
            assert(b * (x + 1) == b * x + b && b * (x - 1) == b * x - b) by (nonlinear_arith);
            assert(net_pages(steps) == net_pages(s) + step_pages(steps.last()));
            assert(allocs_in(steps) == allocs_in(s) + if steps.last().0 {
                1int
            } else {
                0int
            });
        }
    } else {
        assert(bsize(order) * (2 * allocs_in(steps) - steps.len()) == 0) by (nonlinear_arith)
            requires
                allocs_in(steps) == 0,
                steps.len() == 0,
        ;
    }
}

} // verus!
