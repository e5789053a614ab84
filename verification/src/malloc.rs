//! In the malloc allocator, a chunk of memory is a subdivision of a block.
//!
//! It represents a portion of memory that might be available for allocation, or might be already
//! allocated.
//!
//! The chunks of a block follow each other in memory: each one is a header followed by its
//! data, and the next chunk begins right after the data of the previous one. A block is
//! represented here by the list of its chunks, in the order of their addresses, which splitting
//! and merging chunks keep.
//!
//! The size of a free chunk selects its free list bin ([`free_list_index`]). Allocations are made
//! in a [`Heap`] of blocks, in the first free chunk large enough, or in a new block.
use crate::errno::AllocError;
use vstd::prelude::*;

verus! {

/// The size of the header of a chunk, in bytes.
pub const CHUNK_HEADER_SIZE: usize = 16;
/// The minimum amount of bytes required to create a free chunk.
pub const FREE_CHUNK_MIN: usize = 8;
/// The required alignment for pointers returned by allocator.
pub const ALIGNMENT: usize = 8;
/// The size of the smallest free list bin.
pub const FREE_LIST_SMALLEST_SIZE: usize = FREE_CHUNK_MIN;
/// The number of free list bins.
pub const FREE_LIST_BINS: usize = 8;
/// The minimum data size for a chunk.
pub const MIN_CHUNK_SIZE: usize = 8;

/// A chunk of allocated or free memory.
#[derive(Clone, Copy, Debug, PartialEq, Eq, Structural)]
pub struct Chunk {
    /// Whether the chunk is in use
    pub used: bool,
    /// The size of the chunk's memory in bytes
    pub size: usize,
}

impl Chunk {
    /// Creates a new instance: free and empty.
    pub fn new() -> (c: Self)
        ensures
            !c.used,
            c.size == 0,
    {
        Chunk { used: false, size: 0 }
    }

    /// Returns the size of the chunk.
    pub fn get_size(&self) -> (s: usize)
        ensures
            s == self.size,
    {
        self.size
    }
}

/// A free chunk.
#[derive(Clone, Copy, Debug)]
pub struct FreeChunk {
    /// The chunk
    pub chunk: Chunk,
}

/// The chunk `c` is correct: its data is large enough to hold a free chunk, and keeps the next
/// chunk aligned.
pub open spec fn chunk_ok(c: Chunk) -> bool {
    c.size >= MIN_CHUNK_SIZE && c.size % ALIGNMENT == 0
}

impl FreeChunk {
    /// Creates a new free chunk with the given size `size` in bytes.
    pub fn new(size: usize) -> (c: Self)
        ensures
            !c.chunk.used,
            c.chunk.size == size,
    {
        FreeChunk { chunk: Chunk { used: false, size } }
    }

    /// Tells whether the chunk is correct: free, and correct as a chunk.
    pub fn check(&self) -> (b: bool)
        ensures
            b == (!self.chunk.used && chunk_ok(self.chunk)),
    {
        !self.chunk.used && self.chunk.size >= MIN_CHUNK_SIZE && self.chunk.size % ALIGNMENT == 0
    }
}

/// The number of bytes that the chunks `s` cover, headers included.
pub open spec fn footprint(s: Seq<Chunk>) -> nat
    decreases s.len(),
{
    if s.len() == 0 {
        0
    } else {
        footprint(s.drop_last()) + CHUNK_HEADER_SIZE as nat + s.last().size as nat
    }
}

/// The footprint of two lists of chunks, one after the other, is the sum of their footprints.
pub proof fn lemma_footprint_concat(a: Seq<Chunk>, b: Seq<Chunk>)
    ensures
        footprint(a + b) == footprint(a) + footprint(b),
    decreases b.len(),
{
    if b.len() == 0 {
        assert(a + b =~= a);
    } else {
        assert((a + b).drop_last() =~= a + b.drop_last());
        lemma_footprint_concat(a, b.drop_last());
    }
}

/// The footprint of a single chunk is its header and its data.
proof fn lemma_footprint_single(c: Chunk)
    ensures
        footprint(seq![c]) == CHUNK_HEADER_SIZE + c.size,
{
    assert(footprint(Seq::<Chunk>::empty()) == 0);
    assert(seq![c].drop_last() =~= Seq::<Chunk>::empty());
    assert(seq![c].last() == c);
}

/// The footprint of the chunks `s` is the footprint of those before `i`, of chunk `i`, and of
/// those after it.
proof fn lemma_footprint_at(s: Seq<Chunk>, i: int)
    requires
        0 <= i < s.len(),
    ensures
        footprint(s) == footprint(s.take(i)) + CHUNK_HEADER_SIZE + s[i].size + footprint(s.skip(i + 1)),
{
    assert(s =~= s.take(i) + seq![s[i]] + s.skip(i + 1));
    lemma_footprint_concat(s.take(i) + seq![s[i]], s.skip(i + 1));
    lemma_footprint_concat(s.take(i), seq![s[i]]);
    lemma_footprint_single(s[i]);
}

/// No two free chunks of `s` follow each other: free chunks are always merged.
pub open spec fn no_adjacent_free(s: Seq<Chunk>) -> bool {
    forall|j: int| 0 <= j < s.len() - 1 ==> !(!(#[trigger] s[j]).used && !s[j + 1].used)
}

/// The size `size` rounded up to the alignment, at least the minimum size of a chunk: the size
/// of a chunk split to hold `size` bytes.
pub open spec fn split_size(size: nat) -> nat {
    let s = if size < MIN_CHUNK_SIZE {
        MIN_CHUNK_SIZE as nat
    } else {
        size
    };
    ((s + 7) / 8 * 8) as nat
}

/// Chunk `i` of `s` is large enough to be split to hold `size` bytes: what remains after
/// `split_size(size)` bytes can hold a free chunk.
pub open spec fn split_happens(s: Seq<Chunk>, i: int, size: nat) -> bool {
    split_size(size) + CHUNK_HEADER_SIZE + MIN_CHUNK_SIZE <= s[i].size
}

/// The chunks `s` after splitting chunk `i` to hold `size` bytes, if the rest of it is large
/// enough to make a free chunk: the chunk keeps `split_size(size)` bytes and the free chunk
/// after it takes the rest, its header included.
pub open spec fn split_chunks(s: Seq<Chunk>, i: int, size: nat) -> Seq<Chunk> {
    let n = split_size(size);
    if split_happens(s, i, size) {
        s.take(i) + seq![
            Chunk { used: s[i].used, size: n as usize },
            Chunk { used: false, size: (s[i].size - n - CHUNK_HEADER_SIZE) as usize },
        ] + s.skip(i + 1)
    } else {
        s
    }
}

/// The chunks `s` after merging chunk `i` with the one after it.
pub open spec fn merge_next(s: Seq<Chunk>, i: int) -> Seq<Chunk> {
    s.take(i) + seq![Chunk { used: s[i].used, size: (s[i].size + CHUNK_HEADER_SIZE + s[i + 1].size) as usize }]
        + s.skip(i + 2)
}

/// The chunks `s` after coalescing chunk `i`, and the index of the resulting chunk: chunk `i`
/// takes the chunk after it if that one is free; then, if the chunk before it is free, that one
/// is coalesced in turn.
pub open spec fn coalesce_chunks(s: Seq<Chunk>, i: int) -> (Seq<Chunk>, int)
    decreases i,
{
    let s1 = if i + 1 < s.len() && !s[i + 1].used {
        merge_next(s, i)
    } else {
        s
    };
    if 0 < i && !s1[i - 1].used {
        coalesce_chunks(s1, i - 1)
    } else {
        (s1, i)
    }
}

/// The chunks of a block, in the order of their addresses.
#[derive(Debug)]
pub struct ChunkList {
    /// The chunks.
    chunks: Vec<Chunk>,
}

impl ChunkList {
    /// The chunks of the block, in order.
    pub closed spec fn view(&self) -> Seq<Chunk> {
        self.chunks@
    }

    /// The block is consistent: it has chunks, and its size fits in memory.
    pub open spec fn wf(&self) -> bool {
        &&& self@.len() > 0
        &&& footprint(self@) <= usize::MAX
    }

    /// Creates the chunks of a block whose data is `size` bytes long: a single free chunk.
    pub fn new(size: usize) -> (l: Self)
        requires
            size + CHUNK_HEADER_SIZE <= usize::MAX,
        ensures
            l.wf(),
            l@ == seq![Chunk { used: false, size }],
    {
        let mut chunks: Vec<Chunk> = Vec::new();
        chunks.push(Chunk { used: false, size });
        let l = ChunkList { chunks };
        proof {
            lemma_footprint_single(Chunk { used: false, size });
            assert(l@ =~= seq![Chunk { used: false, size }]);
        }
        l
    }

    /// The number of chunks in the block.
    pub fn len(&self) -> (n: usize)
        ensures
            n == self@.len(),
    {
        self.chunks.len()
    }

    /// Returns chunk `i`.
    pub fn get(&self, i: usize) -> (c: Chunk)
        requires
            i < self@.len(),
        ensures
            c == self@[i as int],
    {
        self.chunks[i]
    }

    /// Sets whether chunk `i` is in use.
    pub fn set_used(&mut self, i: usize, used: bool)
        requires
            i < old(self)@.len(),
        ensures
            final(self)@ == old(self)@.update(i as int, Chunk { used, size: old(self)@[i as int].size }),
    {
        let size = self.chunks[i].size;
        self.chunks.set(i, Chunk { used, size });
    }

    /// Tells whether chunk `i` is disconnected from other chunks: it is the only chunk of the
    /// block.
    pub fn is_single(&self, i: usize) -> (b: bool)
        requires
            i < self@.len(),
        ensures
            b == (self@.len() == 1),
    {
        self.chunks.len() == 1
    }

    /// Inserts the chunk `chunk` after chunk `i`.
    pub fn insert_after(&mut self, i: usize, chunk: Chunk)
        requires
            i < old(self)@.len(),
        ensures
            final(self)@ == old(self)@.insert(i + 1, chunk),
    {
        assert(i < self.chunks.len());
        self.chunks.insert(i + 1, chunk);
    }

    /// Unlinks chunk `i` from the list.
    pub fn unlink(&mut self, i: usize) -> (c: Chunk)
        requires
            i < old(self)@.len(),
        ensures
            c == old(self)@[i as int],
            final(self)@ == old(self)@.remove(i as int),
    {
        self.chunks.remove(i)
    }

    /// Tells whether chunk `i` is correct: see [`chunk_ok`].
    pub fn check(&self, i: usize) -> (b: bool)
        requires
            i < self@.len(),
        ensures
            b == chunk_ok(self@[i as int]),
    {
        let c = self.chunks[i];
        c.size >= MIN_CHUNK_SIZE && c.size % ALIGNMENT == 0
    }
}


/// Chunk `i` of `s` can grow of `delta` bytes: the next chunk is free and large enough, its
/// header included.
pub open spec fn can_grow(s: Seq<Chunk>, i: int, delta: nat) -> bool {
    i + 1 < s.len() && CHUNK_HEADER_SIZE + s[i + 1].size >= delta && !s[i + 1].used
}

/// The chunks `s` after growing chunk `i` of `delta` bytes, where it can: it takes the next
/// chunk, then is split to its new size.
pub open spec fn grown_chunks(s: Seq<Chunk>, i: int, delta: nat) -> Seq<Chunk> {
    split_chunks(merge_next(s, i), i, (s[i].size + delta) as nat)
}

/// The size that chunk `i` of `s` is shrunk to when shrinking it of `delta` bytes: no less than
/// the minimum size of a chunk.
pub open spec fn shrunk_size(s: Seq<Chunk>, i: int, delta: nat) -> nat {
    let size = s[i].size - delta;
    if size < MIN_CHUNK_SIZE {
        MIN_CHUNK_SIZE as nat
    } else {
        size as nat
    }
}

/// The chunks `s` after shrinking chunk `i` of `delta` bytes: a used chunk is split to its new
/// size, and the free chunk made with the rest, if any, is coalesced. An unused chunk is left as
/// it is.
pub open spec fn shrunk_chunks(s: Seq<Chunk>, i: int, delta: nat) -> Seq<Chunk> {
    let new_size = shrunk_size(s, i, delta);
    if s[i].used && split_happens(s, i, new_size) {
        coalesce_chunks(split_chunks(s, i, new_size), i + 1).0
    } else {
        s
    }
}

/// The footprint of two chunks is their headers and their data.
proof fn lemma_footprint_pair(a: Chunk, b: Chunk)
    ensures
        footprint(seq![a, b]) == 2 * CHUNK_HEADER_SIZE + a.size + b.size,
{
    assert(seq![a, b] =~= seq![a] + seq![b]);
    lemma_footprint_concat(seq![a], seq![b]);
    lemma_footprint_single(a);
    lemma_footprint_single(b);
}

/// Splitting a chunk keeps the footprint of the chunks.
proof fn lemma_split_footprint(s: Seq<Chunk>, i: int, size: nat)
    requires
        0 <= i < s.len(),
    ensures
        footprint(split_chunks(s, i, size)) == footprint(s),
        split_chunks(s, i, size).len() == if split_happens(s, i, size) {
            s.len() + 1
        } else {
            s.len() + 0
        },
{
    if split_happens(s, i, size) {
        let n = split_size(size);
        let a = Chunk { used: s[i].used, size: n as usize };
        let b = Chunk { used: false, size: (s[i].size - n - CHUNK_HEADER_SIZE) as usize };
        lemma_footprint_at(s, i);
        lemma_footprint_concat(s.take(i) + seq![a, b], s.skip(i + 1));
        lemma_footprint_concat(s.take(i), seq![a, b]);
        lemma_footprint_pair(a, b);
    }
}

/// Merging a chunk with the next one keeps the footprint of the chunks.
proof fn lemma_merge_footprint(s: Seq<Chunk>, i: int)
    requires
        0 <= i,
        i + 1 < s.len(),
        s[i].size + CHUNK_HEADER_SIZE + s[i + 1].size <= usize::MAX,
    ensures
        footprint(merge_next(s, i)) == footprint(s),
        merge_next(s, i).len() == s.len() - 1,
{
    let m = Chunk { used: s[i].used, size: (s[i].size + CHUNK_HEADER_SIZE + s[i + 1].size) as usize };
    lemma_footprint_at(s, i);
    lemma_footprint_at(s.skip(i + 1), 0);
    assert(s.skip(i + 1).take(0) =~= Seq::<Chunk>::empty());
    assert(s.skip(i + 1).skip(1) =~= s.skip(i + 2));
    assert(footprint(Seq::<Chunk>::empty()) == 0);
    lemma_footprint_concat(s.take(i) + seq![m], s.skip(i + 2));
    lemma_footprint_concat(s.take(i), seq![m]);
    lemma_footprint_single(m);
}

/// The data of two chunks that follow each other, with the header of the second, fit in the
/// footprint of the chunks.
proof fn lemma_pair_fits(s: Seq<Chunk>, i: int)
    requires
        0 <= i,
        i + 1 < s.len(),
    ensures
        s[i].size + CHUNK_HEADER_SIZE + s[i + 1].size <= footprint(s),
{
    lemma_footprint_at(s, i);
    lemma_footprint_at(s.skip(i + 1), 0);
}

impl ChunkList {
    /// Splits chunk `i` to hold `size` bytes if it is large enough: see [`split_chunks`].
    ///
    /// The function returns the index of the free chunk created after chunk `i`, if any.
    pub fn split(&mut self, i: usize, size: usize) -> (r: Option<usize>)
        requires
            old(self).wf(),
            i < old(self)@.len(),
            size <= usize::MAX - ALIGNMENT,
        ensures
            final(self).wf(),
            final(self)@ == split_chunks(old(self)@, i as int, size as nat),
            footprint(final(self)@) == footprint(old(self)@),
            r is Some <==> split_happens(old(self)@, i as int, size as nat),
            r matches Some(j) ==> j == i + 1,
    {
        proof {
            lemma_split_footprint(self@, i as int, size as nat);
        }
        let s = if size < MIN_CHUNK_SIZE {
            MIN_CHUNK_SIZE
        } else {
            size
        };
        let n = (s + 7) / 8 * 8;
        let c = self.chunks[i];
        if c.size >= CHUNK_HEADER_SIZE + MIN_CHUNK_SIZE && n <= c.size - CHUNK_HEADER_SIZE - MIN_CHUNK_SIZE {
            let ghost s0 = self@;
            self.chunks.set(i, Chunk { used: c.used, size: n });
            assert(i < self.chunks.len());
            self.chunks.insert(i + 1, Chunk { used: false, size: c.size - n - CHUNK_HEADER_SIZE });
            assert(self@ =~= split_chunks(s0, i as int, size as nat));
            Some(i + 1)
        } else {
            None
        }
    }

    /// Tries to coalesce chunk `i` with adjacent chunks if they are free: see
    /// [`coalesce_chunks`].
    ///
    /// The function returns the index of the resulting chunk.
    pub fn coalesce(&mut self, i: usize) -> (r: usize)
        requires
            old(self).wf(),
            i < old(self)@.len(),
        ensures
            final(self).wf(),
            (final(self)@, r as int) == coalesce_chunks(old(self)@, i as int),
            footprint(final(self)@) == footprint(old(self)@),
            r < final(self)@.len(),
        decreases i,
    {
        let ghost s0 = self@;
        if self.chunks.len() - i > 1 && !self.chunks[i + 1].used {
            proof {
                lemma_pair_fits(s0, i as int);
                lemma_merge_footprint(s0, i as int);
            }
            let next = self.chunks.remove(i + 1);
            let c = self.chunks[i];
            self.chunks.set(i, Chunk { used: c.used, size: c.size + CHUNK_HEADER_SIZE + next.size });
            assert(self@ =~= merge_next(s0, i as int));
        }
        if i > 0 && !self.chunks[i - 1].used {
            return self.coalesce(i - 1);
        }
        i
    }

    /// Tries to grow the chunk `i`, in use, of `delta` more bytes, by taking the next chunk if
    /// it is free and large enough, then splitting the result to the new size.
    ///
    /// If not possible, the function returns `false` and nothing changes.
    pub fn grow(&mut self, i: usize, delta: usize) -> (r: bool)
        requires
            old(self).wf(),
            i < old(self)@.len(),
            old(self)@[i as int].used,
            delta != 0,
            old(self)@[i as int].size + delta <= usize::MAX - ALIGNMENT,
        ensures
            final(self).wf(),
            footprint(final(self)@) == footprint(old(self)@),
            r == can_grow(old(self)@, i as int, delta as nat),
            r ==> final(self)@ == grown_chunks(old(self)@, i as int, delta as nat),
            !r ==> final(self)@ == old(self)@,
    {
        let new_size = self.chunks[i].size + delta;
        if self.chunks.len() - i <= 1 {
            return false;
        }
        let ghost s0 = self@;
        proof {
            lemma_pair_fits(s0, i as int);
        }
        let next = self.chunks[i + 1];
        let available_size = CHUNK_HEADER_SIZE + next.size;
        if available_size < delta {
            return false;
        }
        if next.used {
            return false;
        }
        proof {
            lemma_merge_footprint(s0, i as int);
        }
        let c = self.chunks[i];
        self.chunks.set(i, Chunk { used: c.used, size: c.size + available_size });
        self.chunks.remove(i + 1);
        assert(self@ =~= merge_next(s0, i as int));
        self.split(i, new_size);
        true
    }

    /// Tries to shrink the chunk `i` of `delta` less bytes: it is split to its new size, no less
    /// than the minimum size of a chunk, and the free chunk made with the rest, if any, is
    /// coalesced.
    ///
    /// If the chunk is not used, the function does nothing.
    pub fn shrink(&mut self, i: usize, delta: usize)
        requires
            old(self).wf(),
            i < old(self)@.len(),
            delta != 0,
            delta < old(self)@[i as int].size,
        ensures
            final(self).wf(),
            footprint(final(self)@) == footprint(old(self)@),
            final(self)@ == shrunk_chunks(old(self)@, i as int, delta as nat),
    {
        if !self.chunks[i].used {
            return;
        }
        proof {
            lemma_footprint_at(self@, i as int);
        }
        let size = self.chunks[i].size - delta;
        let new_size = if size < MIN_CHUNK_SIZE {
            MIN_CHUNK_SIZE
        } else {
            size
        };
        let ghost s0 = self@;
        assert(new_size as nat == (if size < MIN_CHUNK_SIZE {
            MIN_CHUNK_SIZE as nat
        } else {
            size as nat
        }));
        if let Some(next) = self.split(i, new_size) {
            let ghost s1 = self@;
            self.coalesce(next);
            assert(self@ == coalesce_chunks(s1, i + 1).0);
        }
    }
}

/// The outcome of a reallocation of a chunk within its block.
#[derive(Clone, Copy, Debug, PartialEq, Eq, Structural)]
pub enum Realloc {
    /// The chunk was resized in place.
    InPlace,
    /// The chunk cannot grow in place: a new chunk is to be allocated, the data copied to it,
    /// and the chunk freed.
    Move,
}

impl ChunkList {
    /// Allocates `n` bytes from the free chunk `i`: the chunk is split to hold them, if it is
    /// large enough, and marked as used.
    pub fn allocate(&mut self, i: usize, n: usize)
        requires
            old(self).wf(),
            i < old(self)@.len(),
            !old(self)@[i as int].used,
            n <= usize::MAX - ALIGNMENT,
        ensures
            final(self).wf(),
            footprint(final(self)@) == footprint(old(self)@),
            final(self)@ == split_chunks(old(self)@, i as int, n as nat).update(
                i as int,
                Chunk { used: true, size: split_chunks(old(self)@, i as int, n as nat)[i as int].size },
            ),
    {
        self.split(i, n);
        proof {
            lemma_split_footprint(old(self)@, i as int, n as nat);
            lemma_footprint_at(self@, i as int);
        }
        let ghost s1 = self@;
        self.set_used(i, true);
        proof {
            lemma_footprint_at(self@, i as int);
            assert(self@.take(i as int) =~= s1.take(i as int));
            assert(self@.skip(i + 1) =~= s1.skip(i + 1));
        }
    }

    /// Resizes the chunk `i`, in use, to `n` bytes within its block: a smaller size shrinks it,
    /// a greater one grows it if the chunk after it allows.
    ///
    /// If the chunk cannot grow in place, nothing changes and the function returns
    /// [`Realloc::Move`].
    pub fn realloc(&mut self, i: usize, n: usize) -> (r: Realloc)
        requires
            old(self).wf(),
            i < old(self)@.len(),
            old(self)@[i as int].used,
            n != 0,
            n <= usize::MAX - ALIGNMENT,
        ensures
            final(self).wf(),
            footprint(final(self)@) == footprint(old(self)@),
            n < old(self)@[i as int].size ==> r == Realloc::InPlace && final(self)@ == shrunk_chunks(
                old(self)@,
                i as int,
                (old(self)@[i as int].size - n) as nat,
            ),
            n == old(self)@[i as int].size ==> r == Realloc::InPlace && final(self)@ == old(self)@,
            n > old(self)@[i as int].size ==> if can_grow(old(self)@, i as int, (n - old(self)@[i as int].size) as nat) {
                r == Realloc::InPlace && final(self)@ == grown_chunks(
                    old(self)@,
                    i as int,
                    (n - old(self)@[i as int].size) as nat,
                )
            } else {
                r == Realloc::Move && final(self)@ == old(self)@
            },
    {
        let size = self.chunks[i].size;
        if n < size {
            self.shrink(i, size - n);
            Realloc::InPlace
        } else if n > size {
            if self.grow(i, n - size) {
                Realloc::InPlace
            } else {
                Realloc::Move
            }
        } else {
            Realloc::InPlace
        }
    }

    /// Frees the chunk `i`, in use: it is marked free and coalesced with the free chunks next to
    /// it.
    ///
    /// The function returns the index of the resulting free chunk, and whether it is the only
    /// chunk of the block, in which case the block is to be freed.
    pub fn free(&mut self, i: usize) -> (r: (usize, bool))
        requires
            old(self).wf(),
            i < old(self)@.len(),
            old(self)@[i as int].used,
        ensures
            final(self).wf(),
            footprint(final(self)@) == footprint(old(self)@),
            ({
                let s1 = old(self)@.update(i as int, Chunk { used: false, size: old(self)@[i as int].size });
                &&& (final(self)@, r.0 as int) == coalesce_chunks(s1, i as int)
                &&& r.1 == (final(self)@.len() == 1)
            }),
            no_adjacent_free(old(self)@) ==> no_adjacent_free(final(self)@),
            !final(self)@[r.0 as int].used,
    {
        let ghost s0 = self@;
        self.set_used(i, false);
        let ghost s1 = self@;
        proof {
            lemma_footprint_at(s0, i as int);
            lemma_footprint_at(s1, i as int);
            assert(s1.take(i as int) =~= s0.take(i as int));
            assert(s1.skip(i + 1) =~= s0.skip(i + 1));
            if no_adjacent_free(s0) {
                assert forall|j: int|
                    0 <= j < s1.len() - 1 && j != i && j + 1 != i implies !(!(#[trigger] s1[j]).used
                    && !s1[j + 1].used) by {
                    assert(s1[j] == s0[j] && s1[j + 1] == s0[j + 1]);
                    assert(!(!s0[j].used && !s0[j + 1].used));
                }
            }
        }
        let c = self.coalesce(i);
        proof {
            if no_adjacent_free(s0) {
                lemma_coalesce_merges(s1, i as int);
            } else {
                lemma_coalesce_merges_free(s1, i as int);
            }
        }
        (c, self.chunks.len() == 1)
    }
}

/// The floor of the base 2 logarithm of `n`, or `0` for `0`.
pub open spec fn log2(n: nat) -> nat
    decreases n,
{
    if n < 2 {
        0
    } else {
        1 + log2(n / 2)
    }
}

/// The base 2 logarithm of `n` is at most `n`.
proof fn lemma_log2_le(n: nat)
    ensures
        log2(n) <= n,
    decreases n,
{
    if n >= 2 {
        lemma_log2_le(n / 2);
    }
}

/// The free list bin for chunks of `size` bytes: the base 2 logarithm of the number of
/// smallest bins it covers, capped to the last bin.
pub open spec fn free_list_bin(size: nat) -> nat {
    let l = log2(size / FREE_LIST_SMALLEST_SIZE as nat);
    if l < FREE_LIST_BINS - 1 {
        l
    } else {
        (FREE_LIST_BINS - 1) as nat
    }
}

/// Returns the index of the free list that holds the chunks of `size` bytes: see
/// [`free_list_bin`].
pub fn free_list_index(size: usize) -> (i: usize)
    ensures
        i == free_list_bin(size as nat),
        i < FREE_LIST_BINS,
{
    let mut n = size / FREE_LIST_SMALLEST_SIZE;
    let mut l: usize = 0;
    proof {
        lemma_log2_le(n as nat);
    }
    while n >= 2
        invariant
            l + log2(n as nat) == log2(size as nat / FREE_LIST_SMALLEST_SIZE as nat),
            log2(size as nat / FREE_LIST_SMALLEST_SIZE as nat) <= usize::MAX,
        decreases n,
    {
        n = n / 2;
        l = l + 1;
    }
    if l < FREE_LIST_BINS - 1 {
        l
    } else {
        FREE_LIST_BINS - 1
    }
}


/// Free chunks are always merged: where the only free chunks of `s` that follow each other are
/// next to chunk `i`, itself free, coalescing chunk `i` leaves no two free chunks following each
/// other, and the resulting chunk is free.
pub proof fn lemma_coalesce_merges(s: Seq<Chunk>, i: int)
    requires
        0 <= i < s.len(),
        !s[i].used,
        forall|j: int|
            0 <= j < s.len() - 1 && j != i && j + 1 != i ==> !(!(#[trigger] s[j]).used && !s[j + 1].used),
    ensures
        no_adjacent_free(coalesce_chunks(s, i).0),
        0 <= coalesce_chunks(s, i).1 < coalesce_chunks(s, i).0.len(),
        !coalesce_chunks(s, i).0[coalesce_chunks(s, i).1].used,
    decreases i,
{
    let merged = i + 1 < s.len() && !s[i + 1].used;
    let s1 = if merged {
        merge_next(s, i)
    } else {
        s
    };
    if merged {
        assert(s1.len() == s.len() - 1);
        assert(s1[i] == Chunk { used: s[i].used, size: (s[i].size + CHUNK_HEADER_SIZE + s[i + 1].size) as usize });
        assert forall|j: int| 0 <= j < i implies #[trigger] s1[j] == s[j] by {}
        assert forall|j: int| i < j < s1.len() implies #[trigger] s1[j] == s[j + 1] by {}
        if i + 2 < s.len() {
            assert(!(!s[i + 1].used && !s[i + 2].used));
        }
    }
    assert forall|j: int|
        0 <= j < s1.len() - 1 && j != i - 1 && j + 1 != i - 1 implies !(!(#[trigger] s1[j]).used
        && !s1[j + 1].used) by {
        if merged {
            if j < i - 1 {
                assert(s1[j] == s[j] && s1[j + 1] == s[j + 1]);
            } else if j == i {
                assert(s1[j + 1] == s[j + 2]);
            } else if j > i {
                assert(s1[j] == s[j + 1] && s1[j + 1] == s[j + 2]);
                assert(!(!s[j + 1].used && !s[j + 2].used));
            }
        } else {
            if j == i {
                assert(s[i + 1].used);
            }
        }
    }
    if 0 < i && !s1[i - 1].used {
        lemma_coalesce_merges(s1, i - 1);
    } else {
        assert forall|j: int| 0 <= j < s1.len() - 1 implies !(!(#[trigger] s1[j]).used && !s1[j + 1].used) by {
            if j == i - 1 || j == i - 2 {
                assert(s1[i - 1].used);
            }
        }
    }
}


/// Coalescing a free chunk gives a free chunk.
proof fn lemma_coalesce_merges_free(s: Seq<Chunk>, i: int)
    requires
        0 <= i < s.len(),
        !s[i].used,
    ensures
        0 <= coalesce_chunks(s, i).1 < coalesce_chunks(s, i).0.len(),
        !coalesce_chunks(s, i).0[coalesce_chunks(s, i).1].used,
    decreases i,
{
    let merged = i + 1 < s.len() && !s[i + 1].used;
    let s1 = if merged {
        merge_next(s, i)
    } else {
        s
    };
    if merged {
        assert(s1[i].used == s[i].used);
        assert(s1.len() == s.len() - 1);
    }
    if 0 < i && !s1[i - 1].used {
        lemma_coalesce_merges_free(s1, i - 1);
    }
}

/// The chunks `s` after the allocation of `n` bytes from the free chunk `i`: see
/// [`ChunkList::allocate`].
pub open spec fn allocated_chunks(s: Seq<Chunk>, i: int, n: nat) -> Seq<Chunk> {
    split_chunks(s, i, n).update(i, Chunk { used: true, size: split_chunks(s, i, n)[i].size })
}

/// The offset in its block of the header of chunk `i` of `s`.
pub open spec fn chunk_offset(s: Seq<Chunk>, i: int) -> nat {
    footprint(s.take(i))
}

/// The chunk `c` can hold an allocation of `n` bytes.
pub open spec fn fits(c: Chunk, n: nat) -> bool {
    !c.used && c.size >= n
}

/// The number of pages of a block made for an allocation of `n` bytes: those covering the
/// allocation and the header of its chunk.
pub open spec fn block_pages(n: nat) -> nat {
    ((n + CHUNK_HEADER_SIZE + PAGE_SIZE - 1) / (PAGE_SIZE as int)) as nat
}

/// The size of the memory pages in bytes.
pub const PAGE_SIZE: usize = 4096;

/// A handle to an allocation: the block holding it, and the offset of its chunk in the block.
#[derive(Clone, Copy, Debug, PartialEq, Eq, Structural)]
pub struct Handle {
    /// The identifier of the block.
    pub block: u64,
    /// The offset of the chunk's header in the block.
    pub off: usize,
}

/// What a block of the heap holds, as seen by its users.
pub struct BlockView {
    /// The identifier of the block.
    pub id: u64,
    /// The number of pages of the block.
    pub pages: nat,
    /// The chunks of the block, in order.
    pub chunks: Seq<Chunk>,
}

/// A block of the heap: pages holding chunks.
#[derive(Debug)]
pub struct Block {
    /// The identifier of the block.
    id: u64,
    /// The number of pages of the block.
    pages: usize,
    /// The chunks of the block.
    chunks: ChunkList,
}

/// The total number of pages of the blocks `v`.
pub open spec fn pages_sum(v: Seq<BlockView>) -> nat
    decreases v.len(),
{
    if v.len() == 0 {
        0
    } else {
        pages_sum(v.drop_last()) + v.last().pages
    }
}

proof fn lemma_pages_sum_remove(v: Seq<BlockView>, b: int)
    requires
        0 <= b < v.len(),
    ensures
        pages_sum(v.remove(b)) + v[b].pages == pages_sum(v),
    decreases v.len(),
{
    if b < v.len() - 1 {
        assert(v.remove(b).drop_last() =~= v.drop_last().remove(b));
        lemma_pages_sum_remove(v.drop_last(), b);
    } else {
        assert(v.remove(b) =~= v.drop_last());
    }
}

proof fn lemma_pages_sum_update(v: Seq<BlockView>, b: int, x: BlockView)
    requires
        0 <= b < v.len(),
        x.pages == v[b].pages,
    ensures
        pages_sum(v.update(b, x)) == pages_sum(v),
    decreases v.len(),
{
    if b < v.len() - 1 {
        assert(v.update(b, x).drop_last() =~= v.drop_last().update(b, x));
        lemma_pages_sum_update(v.drop_last(), b, x);
    } else {
        assert(v.update(b, x).drop_last() =~= v.drop_last());
    }
}

/// The block `b` of `v` holds a used chunk at the offset of `h`, and `i` is its index.
pub open spec fn designates(v: Seq<BlockView>, h: Handle, b: int, i: int) -> bool {
    &&& 0 <= b < v.len()
    &&& v[b].id == h.block
    &&& 0 <= i < v[b].chunks.len()
    &&& chunk_offset(v[b].chunks, i) == h.off
    &&& v[b].chunks[i].used
}

/// The largest allocation the heap accepts: the address space less two pages.
pub const MAX_ALLOC: usize = usize::MAX - 2 * PAGE_SIZE;

/// Chunk `i` of block `b` of `v` is the first one, in the order of the blocks and then of the
/// chunks, that can hold an allocation of `n` bytes.
pub open spec fn is_first_fit(v: Seq<BlockView>, n: nat, b: int, i: int) -> bool {
    &&& 0 <= b < v.len()
    &&& 0 <= i < v[b].chunks.len()
    &&& fits(v[b].chunks[i], n)
    &&& forall|b2: int, i2: int|
        0 <= b2 < b && 0 <= i2 < v[b2].chunks.len() ==> !fits(#[trigger] v[b2].chunks[i2], n)
    &&& forall|i2: int| 0 <= i2 < i ==> !fits(#[trigger] v[b].chunks[i2], n)
}

/// Some chunk of the blocks `v` can hold an allocation of `n` bytes.
pub open spec fn any_fit(v: Seq<BlockView>, n: nat) -> bool {
    exists|b: int, i: int| 0 <= b < v.len() && 0 <= i < v[b].chunks.len() && fits(#[trigger] v[b].chunks[i], n)
}

/// The block made for an allocation of `n` bytes, of identifier `id`, once the allocation is
/// made in it.
pub open spec fn new_block(id: u64, n: nat) -> BlockView {
    BlockView {
        id,
        pages: block_pages(n),
        chunks: allocated_chunks(
            seq![Chunk { used: false, size: (block_pages(n) * PAGE_SIZE - CHUNK_HEADER_SIZE) as usize }],
            0,
            n,
        ),
    }
}

/// The blocks `v1` and the handle `h` are what an allocation of `n` bytes gives from the blocks
/// `v`, `next` being the identifier of the next block to be made: see [`Heap::allocate`].
pub open spec fn alloc_outcome(v: Seq<BlockView>, next: u64, n: nat, v1: Seq<BlockView>, h: Handle) -> bool {
    if any_fit(v, n) {
        exists|b: int, i: int|
            #[trigger] is_first_fit(v, n, b, i) && v1 == v.update(
                b,
                BlockView { chunks: allocated_chunks(v[b].chunks, i, n), ..v[b] },
            ) && h == Handle { block: v[b].id, off: chunk_offset(v[b].chunks, i) as usize }
    } else {
        v1 == v.push(new_block(next, n)) && h == Handle { block: next, off: 0 }
    }
}

/// The blocks `v1` are what freeing the allocation `h` gives from the blocks `v`: see
/// [`Heap::free`].
pub open spec fn free_outcome(v: Seq<BlockView>, h: Handle, v1: Seq<BlockView>) -> bool {
    exists|b: int, i: int|
        #[trigger] designates(v, h, b, i) && ({
            let s1 = coalesce_chunks(
                v[b].chunks.update(i, Chunk { used: false, size: v[b].chunks[i].size }),
                i,
            ).0;
            if s1.len() == 1 {
                v1 == v.remove(b)
            } else {
                v1 == v.update(b, BlockView { chunks: s1, ..v[b] })
            }
        })
}

/// The allocator's heap: the blocks of chunks obtained for allocations.
pub struct Heap {
    /// The blocks, in the order they were made.
    blocks: Vec<Block>,
    /// The identifier of the next block to be made.
    next_id: u64,
    /// The total number of pages of the blocks.
    total_pages: usize,
}

impl Heap {
    /// The blocks of the heap.
    pub closed spec fn view(&self) -> Seq<BlockView> {
        self.blocks@.map_values(|b: Block| BlockView { id: b.id, pages: b.pages as nat, chunks: b.chunks@ })
    }

    /// The identifier of the next block to be made.
    pub closed spec fn next_id_spec(&self) -> u64 {
        self.next_id
    }

    /// Each block's chunks are consistent, blocks have distinct identifiers below the next one,
    /// and the pages are counted exactly.
    pub closed spec fn wf(&self) -> bool {
        &&& forall|b: int| 0 <= b < self.blocks@.len() ==> (#[trigger] self.blocks@[b]).chunks.wf()
        &&& forall|b: int| 0 <= b < self.blocks@.len() ==> (#[trigger] self.blocks@[b]).id < self.next_id
        &&& forall|a: int, b: int|
            0 <= a < b < self.blocks@.len() ==> (#[trigger] self.blocks@[a]).id != (#[trigger] self.blocks@[b]).id
        &&& self.total_pages == pages_sum(self@)
    }

    /// Creates an empty heap.
    pub fn new() -> (h: Self)
        ensures
            h.wf(),
            h@ == Seq::<BlockView>::empty(),
    {
        let h = Heap { blocks: Vec::new(), next_id: 0, total_pages: 0 };
        assert(h@ =~= Seq::<BlockView>::empty());
        h
    }

    /// Returns the number of pages used by the heap.
    pub fn pages_in_use(&self) -> (n: usize)
        requires
            self.wf(),
        ensures
            n == pages_sum(self@),
    {
        self.total_pages
    }

    /// Returns the index in `s` of the chunk whose header is at offset `off`, if any.
    fn find_chunk(list: &ChunkList, off: usize) -> (r: Option<usize>)
        requires
            list.wf(),
        ensures
            match r {
                Some(i) => i < list@.len() && chunk_offset(list@, i as int) == off,
                None => forall|i: int| 0 <= i < list@.len() ==> chunk_offset(list@, i) != off,
            },
    {
        let n = list.len();
        let mut pos: usize = 0;
        let mut i: usize = 0;
        while i < n
            invariant
                list.wf(),
                n == list@.len(),
                i <= n,
                pos == chunk_offset(list@, i as int),
                forall|k: int| 0 <= k < i ==> chunk_offset(list@, k) != off,
            decreases n - i,
        {
            if pos == off {
                return Some(i);
            }
            let c = list.get(i);
            proof {
                assert(list@.take(i + 1).drop_last() =~= list@.take(i as int));
                lemma_footprint_concat(list@.take(i + 1), list@.skip(i + 1));
                assert(list@ =~= list@.take(i + 1) + list@.skip(i + 1));
            }
            pos = pos + CHUNK_HEADER_SIZE + c.size;
            i += 1;
        }
        None
    }

    /// Returns the first chunk, in the order of the blocks and then of the chunks, that can hold
    /// an allocation of `n` bytes.
    fn find_fit(&self, n: usize) -> (r: Option<(usize, usize)>)
        requires
            self.wf(),
        ensures
            match r {
                Some((b, i)) => is_first_fit(self@, n as nat, b as int, i as int),
                None => !any_fit(self@, n as nat),
            },
    {
        let mut b: usize = 0;
        while b < self.blocks.len()
            invariant
                self.wf(),
                b <= self.blocks@.len(),
                forall|b2: int, i2: int|
                    0 <= b2 < b && 0 <= i2 < self@[b2].chunks.len() ==> !fits(#[trigger] self@[b2].chunks[i2], n as nat),
            decreases self.blocks@.len() - b,
        {
            let list = &self.blocks[b].chunks;
            assert(list@ == self@[b as int].chunks);
            let len = list.len();
            let mut i: usize = 0;
            while i < len
                invariant
                    self.wf(),
                    b < self.blocks@.len(),
                    list@ == self@[b as int].chunks,
                    len == list@.len(),
                    i <= len,
                    forall|b2: int, i2: int|
                        0 <= b2 < b && 0 <= i2 < self@[b2].chunks.len() ==> !fits(#[trigger] self@[b2].chunks[i2], n as nat),
                    forall|i2: int| 0 <= i2 < i ==> !fits(#[trigger] self@[b as int].chunks[i2], n as nat),
                decreases len - i,
            {
                let c = list.get(i);
                if !c.used && c.size >= n {
                    return Some((b, i));
                }
                i += 1;
            }
            b += 1;
        }
        None
    }

    /// Allocates `n` bytes: in the first chunk, in the order of the blocks and then of the
    /// chunks, that can hold them; if none can, in a new block made of the pages covering them
    /// and the header of their chunk.
    ///
    /// The function fails if `n` is larger than [`MAX_ALLOC`], or if a new block is needed and
    /// its pages cannot be counted or its identifier cannot be made.
    pub fn allocate(&mut self, n: usize) -> (r: Result<Handle, AllocError>)
        requires
            old(self).wf(),
        ensures
            final(self).wf(),
            r is Err <==> n > MAX_ALLOC || (!any_fit(old(self)@, n as nat) && (pages_sum(old(self)@)
                + block_pages(n as nat) > usize::MAX || old(self).next_id_spec() == u64::MAX)),
            r is Err ==> final(self)@ == old(self)@ && final(self).next_id_spec() == old(self).next_id_spec(),
            r is Ok && any_fit(old(self)@, n as nat) ==> exists|b: int, i: int|
                #[trigger] is_first_fit(old(self)@, n as nat, b, i) && final(self)@ == old(self)@.update(
                    b,
                    BlockView { chunks: allocated_chunks(old(self)@[b].chunks, i, n as nat), ..old(self)@[b] },
                ) && r == Ok::<Handle, AllocError>(Handle { block: old(self)@[b].id, off: chunk_offset(old(self)@[b].chunks, i) as usize })
                && final(self).next_id_spec() == old(self).next_id_spec(),
            r is Ok && !any_fit(old(self)@, n as nat) ==> final(self)@ == old(self)@.push(
                new_block(old(self).next_id_spec(), n as nat),
            ) && r == Ok::<Handle, AllocError>(Handle { block: old(self).next_id_spec(), off: 0 })
                && final(self).next_id_spec() == old(self).next_id_spec() + 1,
            r is Ok ==> exists|b: int, i: int| designates(final(self)@, r->Ok_0, b, i)
                && (#[trigger] final(self)@[b].chunks[i]).size >= n,
            r is Ok ==> alloc_outcome(old(self)@, old(self).next_id_spec(), n as nat, final(self)@, r->Ok_0),
    {
        if n > MAX_ALLOC {
            return Err(AllocError);
        }
        let ghost v0 = self@;
        match self.find_fit(n) {
            Some((b, i)) => {
                let mut blk = self.blocks.remove(b);
                assert(blk.chunks@ == v0[b as int].chunks);
                proof {
                    assert(v0[b as int].chunks.len() > 0);
                }
                let ghost s0 = blk.chunks@;
                let off: usize = Self::offset_of(&blk.chunks, i);
                blk.chunks.allocate(i, n);
                proof {
                    lemma_allocated_prefix(s0, i as int, n as nat);
                }
                self.blocks.insert(b, blk);
                proof {
                    let nb = BlockView { chunks: allocated_chunks(v0[b as int].chunks, i as int, n as nat), ..v0[b as int] };
                    assert(self@ =~= v0.update(b as int, nb));
                    lemma_pages_sum_update(v0, b as int, nb);
                    assert forall|x: int| 0 <= x < self.blocks@.len() implies (#[trigger] self.blocks@[x]).chunks.wf() by {
                        if x != b {
                            assert(self.blocks@[x] == old(self).blocks@[x]);
                        }
                    }
                    assert forall|x: int| 0 <= x < self.blocks@.len() implies (#[trigger] self.blocks@[x]).id < self.next_id by {
                        assert(self@[x].id == v0[x].id);
                    }
                    assert forall|x: int, y: int| 0 <= x < y < self.blocks@.len() implies (#[trigger] self.blocks@[x]).id
                        != (#[trigger] self.blocks@[y]).id by {
                        assert(self@[x].id == v0[x].id && self@[y].id == v0[y].id);
                        assert(old(self).blocks@[x].id == v0[x].id && old(self).blocks@[y].id == v0[y].id);
                    }
                    assert(self@[b as int].chunks == allocated_chunks(v0[b as int].chunks, i as int, n as nat));
                    assert(self@[b as int].chunks[i as int].size >= n);
                    assert(designates(self@, Handle { block: v0[b as int].id, off }, b as int, i as int));
                }
                let h = Handle { block: self.blocks[b].id, off };
                assert(h == Handle { block: v0[b as int].id, off });
                assert(designates(self@, h, b as int, i as int) && self@[b as int].chunks[i as int].size >= n);
                Ok(h)
            },
            None => {
                if self.next_id == u64::MAX {
                    return Err(AllocError);
                }
                let pages: usize = (n + CHUNK_HEADER_SIZE + PAGE_SIZE - 1) / PAGE_SIZE;
                assert(pages == block_pages(n as nat));
                if self.total_pages > usize::MAX - pages {
                    return Err(AllocError);
                }
                assert(pages * PAGE_SIZE >= n + CHUNK_HEADER_SIZE && pages * PAGE_SIZE <= n + CHUNK_HEADER_SIZE + PAGE_SIZE) by (nonlinear_arith)
                    requires
                        pages == (n + CHUNK_HEADER_SIZE + PAGE_SIZE - 1) / (PAGE_SIZE as int),
                ;
                let size: usize = pages * PAGE_SIZE - CHUNK_HEADER_SIZE;
                let mut chunks = ChunkList::new(size);
                let ghost s0 = chunks@;
                chunks.allocate(0, n);
                proof {
                    lemma_allocated_prefix(s0, 0, n as nat);
                }
                let id = self.next_id;
                self.blocks.push(Block { id, pages, chunks });
                self.next_id = id + 1;
                self.total_pages = self.total_pages + pages;
                proof {
                    assert(self@ =~= v0.push(new_block(id, n as nat)));
                    assert(self@.drop_last() =~= v0);
                    assert forall|x: int| 0 <= x < self.blocks@.len() implies (#[trigger] self.blocks@[x]).chunks.wf() by {
                        if x < v0.len() {
                            assert(self.blocks@[x] == old(self).blocks@[x]);
                        }
                    }
                    assert forall|x: int| 0 <= x < self.blocks@.len() implies (#[trigger] self.blocks@[x]).id < self.next_id by {
                        if x < v0.len() {
                            assert(self.blocks@[x] == old(self).blocks@[x]);
                        }
                    }
                    assert forall|x: int, y: int| 0 <= x < y < self.blocks@.len() implies (#[trigger] self.blocks@[x]).id
                        != (#[trigger] self.blocks@[y]).id by {
                        assert(self.blocks@[x] == old(self).blocks@[x]);
                        if y < v0.len() {
                            assert(self.blocks@[y] == old(self).blocks@[y]);
                        }
                    }
                    assert(chunk_offset(self@[v0.len() as int].chunks, 0) == 0) by {
                        assert(self@[v0.len() as int].chunks.take(0) =~= Seq::<Chunk>::empty());
                    }
                    assert(self@[v0.len() as int].chunks[0].size >= n);
                    assert(designates(self@, Handle { block: id, off: 0 }, v0.len() as int, 0));
                }
                let h = Handle { block: id, off: 0 };
                assert(designates(self@, h, v0.len() as int, 0) && self@[v0.len() as int].chunks[0].size >= n);
                Ok(h)
            },
        }
    }

    /// Returns the offset of the header of chunk `i` in its block.
    fn offset_of(list: &ChunkList, i: usize) -> (off: usize)
        requires
            list.wf(),
            i < list@.len(),
        ensures
            off == chunk_offset(list@, i as int),
    {
        let mut pos: usize = 0;
        let mut k: usize = 0;
        while k < i
            invariant
                list.wf(),
                i < list@.len(),
                k <= i,
                pos == chunk_offset(list@, k as int),
            decreases i - k,
        {
            let c = list.get(k);
            proof {
                assert(list@.take(k + 1).drop_last() =~= list@.take(k as int));
                lemma_footprint_concat(list@.take(k + 1), list@.skip(k + 1));
                assert(list@ =~= list@.take(k + 1) + list@.skip(k + 1));
            }
            pos = pos + CHUNK_HEADER_SIZE + c.size;
            k += 1;
        }
        pos
    }

    /// Frees the allocation `h`: its chunk is freed and coalesced with the free chunks next to
    /// it ([`ChunkList::free`]); if the block then holds that chunk only, the block is dropped.
    pub fn free(&mut self, h: Handle)
        requires
            old(self).wf(),
            exists|b: int, i: int| designates(old(self)@, h, b, i),
        ensures
            final(self).wf(),
            final(self).next_id_spec() == old(self).next_id_spec(),
            free_outcome(old(self)@, h, final(self)@),
    {
        let ghost v0 = self@;
        let b = match self.find_block(h.block) {
            Some(b) => b,
            None => {
                proof {
                    let (b, i) = choose|b: int, i: int| designates(v0, h, b, i);
                    assert(v0[b].id == h.block);
                }
                return;
            },
        };
        proof {
            self.lemma_ids_unique();
        }
        let i = match Self::find_chunk(&self.blocks[b].chunks, h.off) {
            Some(i) => i,
            None => {
                proof {
                    let (b2, i2) = choose|b2: int, i2: int| designates(v0, h, b2, i2);
                    assert(b2 == b);
                    assert(self.blocks@[b as int].chunks@ == v0[b as int].chunks);
                }
                return;
            },
        };
        proof {
            let (b2, i2) = choose|b2: int, i2: int| designates(v0, h, b2, i2);
            assert(b2 == b);
            lemma_offsets_unique(v0[b as int].chunks, i as int, i2);
            assert(designates(v0, h, b as int, i as int));
        }
        let mut blk = self.blocks.remove(b);
        let ghost s0 = blk.chunks@;
        let (_, single) = blk.chunks.free(i);
        if single {
            proof {
                lemma_pages_sum_remove(v0, b as int);
                assert(blk.pages == v0[b as int].pages);
            }
            self.total_pages = self.total_pages - blk.pages;
            proof {
                assert(self@ =~= v0.remove(b as int));
                assert forall|x: int| 0 <= x < self.blocks@.len() implies (#[trigger] self.blocks@[x]).chunks.wf() by {
                    let y = if x < b { x } else { x + 1 };
                    assert(self.blocks@[x] == old(self).blocks@[y]);
                }
                assert forall|x: int| 0 <= x < self.blocks@.len() implies (#[trigger] self.blocks@[x]).id < self.next_id by {
                    let y = if x < b { x } else { x + 1 };
                    assert(self.blocks@[x] == old(self).blocks@[y]);
                }
                assert forall|x: int, y: int| 0 <= x < y < self.blocks@.len() implies (#[trigger] self.blocks@[x]).id
                    != (#[trigger] self.blocks@[y]).id by {
                    let x2 = if x < b { x } else { x + 1 };
                    let y2 = if y < b { y } else { y + 1 };
                    assert(self.blocks@[x] == old(self).blocks@[x2] && self.blocks@[y] == old(self).blocks@[y2]);
                }
            }
        } else {
            self.blocks.insert(b, blk);
            proof {
                let nb = BlockView { chunks: self.blocks@[b as int].chunks@, ..v0[b as int] };
                assert(self@ =~= v0.update(b as int, nb));
                lemma_pages_sum_update(v0, b as int, nb);
                assert forall|x: int| 0 <= x < self.blocks@.len() implies (#[trigger] self.blocks@[x]).chunks.wf() by {
                    if x != b {
                        assert(self.blocks@[x] == old(self).blocks@[x]);
                    }
                }
                assert forall|x: int| 0 <= x < self.blocks@.len() implies (#[trigger] self.blocks@[x]).id < self.next_id by {
                    assert(self@[x].id == v0[x].id);
                }
                assert forall|x: int, y: int| 0 <= x < y < self.blocks@.len() implies (#[trigger] self.blocks@[x]).id
                    != (#[trigger] self.blocks@[y]).id by {
                    assert(self@[x].id == v0[x].id && self@[y].id == v0[y].id);
                    assert(old(self).blocks@[x].id == v0[x].id && old(self).blocks@[y].id == v0[y].id);
                }
            }
        }
        proof {
            assert(designates(v0, h, b as int, i as int));
        }
    }

    /// Resizes the allocation `h` to `n` bytes: in place if its chunk can be shrunk or grown
    /// ([`ChunkList::realloc`]); otherwise a new allocation of `n` bytes is made, to which the
    /// data is to be copied, and `h` is freed.
    ///
    /// The function returns the handle of the resized allocation. It fails if a new allocation
    /// is needed and cannot be made (see [`Heap::allocate`]), in which case nothing changes.
    pub fn reallocate(&mut self, h: Handle, n: usize) -> (r: Result<Handle, AllocError>)
        requires
            old(self).wf(),
            exists|b: int, i: int| designates(old(self)@, h, b, i),
            0 < n <= MAX_ALLOC,
        ensures
            final(self).wf(),
            exists|b: int, i: int|
                #[trigger] designates(old(self)@, h, b, i) && {
                    let s = old(self)@[b].chunks;
                    if n > s[i].size && !can_grow(s, i, (n - s[i].size) as nat) {
                        &&& r is Err <==> !any_fit(old(self)@, n as nat) && (pages_sum(old(self)@)
                            + block_pages(n as nat) > usize::MAX || old(self).next_id_spec() == u64::MAX)
                        &&& r is Err ==> final(self)@ == old(self)@
                        &&& r is Ok ==> exists|v2: Seq<BlockView>|
                            alloc_outcome(old(self)@, old(self).next_id_spec(), n as nat, v2, r->Ok_0)
                                && free_outcome(v2, h, final(self)@)
                        &&& r is Ok ==> r->Ok_0 != h && exists|b2: int, i2: int|
                            designates(final(self)@, r->Ok_0, b2, i2)
                                && (#[trigger] final(self)@[b2].chunks[i2]).size >= n
                    } else {
                        &&& r == Ok::<Handle, AllocError>(h)
                        &&& (n < s[i].size ==> final(self)@ == old(self)@.update(
                            b,
                            BlockView { chunks: shrunk_chunks(s, i, (s[i].size - n) as nat), ..old(self)@[b] },
                        ))
                        &&& (n == s[i].size ==> final(self)@ == old(self)@)
                        &&& (n > s[i].size ==> final(self)@ == old(self)@.update(
                            b,
                            BlockView { chunks: grown_chunks(s, i, (n - s[i].size) as nat), ..old(self)@[b] },
                        ))
                    }
                },
    {
        let ghost v0 = self@;
        let b = match self.find_block(h.block) {
            Some(b) => b,
            None => {
                proof {
                    let (b, i) = choose|b: int, i: int| designates(v0, h, b, i);
                    assert(v0[b].id == h.block);
                }
                return Err(AllocError);
            },
        };
        proof {
            self.lemma_ids_unique();
        }
        let i = match Self::find_chunk(&self.blocks[b].chunks, h.off) {
            Some(i) => i,
            None => {
                proof {
                    let (b2, i2) = choose|b2: int, i2: int| designates(v0, h, b2, i2);
                    assert(b2 == b);
                    assert(self.blocks@[b as int].chunks@ == v0[b as int].chunks);
                }
                return Err(AllocError);
            },
        };
        proof {
            let (b2, i2) = choose|b2: int, i2: int| designates(v0, h, b2, i2);
            assert(b2 == b);
            lemma_offsets_unique(v0[b as int].chunks, i as int, i2);
            assert(designates(v0, h, b as int, i as int));
        }
        let mut blk = self.blocks.remove(b);
        let ghost s0 = blk.chunks@;
        let res = blk.chunks.realloc(i, n);
        self.blocks.insert(b, blk);
        let ghost v1 = self@;
        proof {
            let nb = BlockView { chunks: self.blocks@[b as int].chunks@, ..v0[b as int] };
            assert(self@ =~= v0.update(b as int, nb));
            lemma_pages_sum_update(v0, b as int, nb);
            assert forall|x: int| 0 <= x < self.blocks@.len() implies (#[trigger] self.blocks@[x]).chunks.wf() by {
                if x != b {
                    assert(self.blocks@[x] == old(self).blocks@[x]);
                }
            }
            assert forall|x: int| 0 <= x < self.blocks@.len() implies (#[trigger] self.blocks@[x]).id < self.next_id by {
                assert(self@[x].id == v0[x].id);
            }
            assert forall|x: int, y: int| 0 <= x < y < self.blocks@.len() implies (#[trigger] self.blocks@[x]).id
                != (#[trigger] self.blocks@[y]).id by {
                assert(self@[x].id == v0[x].id && self@[y].id == v0[y].id);
                assert(old(self).blocks@[x].id == v0[x].id && old(self).blocks@[y].id == v0[y].id);
            }
        }
        match res {
            Realloc::InPlace => {
                proof {
                    if n == s0[i as int].size {
                        assert(self@ =~= v0);
                    }
                    assert(designates(v0, h, b as int, i as int));
                }
                Ok(h)
            },
            Realloc::Move => {
                proof {
                    assert(self@ =~= v0);
                }
                let new = match self.allocate(n) {
                    Ok(new) => new,
                    Err(e) => {
                        proof {
                            assert(designates(v0, h, b as int, i as int));
                        }
                        return Err(e);
                    },
                };
                proof {
                    lemma_allocate_keeps(v1, self@, n as nat, new, h, b as int, i as int);
                    assert(designates(v0, h, b as int, i as int));
                    if any_fit(v0, n as nat) {
                        let (b2, i2) = choose|b2: int, i2: int|
                            #[trigger] is_first_fit(v0, n as nat, b2, i2) && self@ == v0.update(
                                b2,
                                BlockView { chunks: allocated_chunks(v0[b2].chunks, i2, n as nat), ..v0[b2] },
                            ) && new == Handle { block: v0[b2].id, off: chunk_offset(v0[b2].chunks, i2) as usize };
                        if new == h {
                            assert(b2 == b);
                            assert(old(self).blocks@[b as int].chunks.wf());
                            lemma_footprint_at(v0[b as int].chunks, i2);
                            lemma_offsets_unique(v0[b as int].chunks, i as int, i2);
                        }
                    } else {
                        assert(v0[b as int].id == old(self).blocks@[b as int].id);
                    }
                    assert(new != h);
                    assert forall|x: int| 0 <= x < self@.len() implies footprint(#[trigger] self@[x].chunks)
                        <= usize::MAX by {
                        assert(self.blocks@[x].chunks.wf());
                    }
                }
                let ghost v2 = self@;
                let ghost (bn, inn) = choose|bn: int, inn: int| designates(v2, new, bn, inn)
                    && (#[trigger] v2[bn].chunks[inn]).size >= n;
                self.free(h);
                proof {
                    assert(designates(v0, h, b as int, i as int));
                    assert(alloc_outcome(old(self)@, old(self).next_id_spec(), n as nat, v2, new));
                    lemma_free_keeps(v2, h, self@, new, bn, inn);
                }
                Ok(new)
            },
        }
    }

    proof fn lemma_ids_unique(&self)
        requires
            self.wf(),
        ensures
            forall|a: int, b: int| 0 <= a < self@.len() && 0 <= b < self@.len() && self@[a].id == self@[b].id ==> a == b,
    {
        assert forall|a: int, b: int| 0 <= a < self@.len() && 0 <= b < self@.len() && self@[a].id == self@[b].id implies a == b by {
            if a < b {
                assert(self.blocks@[a].id != self.blocks@[b].id);
            } else if b < a {
                assert(self.blocks@[b].id != self.blocks@[a].id);
            }
        }
    }

    /// Returns the index of the block of identifier `id`, if any.
    fn find_block(&self, id: u64) -> (r: Option<usize>)
        requires
            self.wf(),
        ensures
            match r {
                Some(b) => b < self@.len() && self@[b as int].id == id,
                None => forall|b: int| 0 <= b < self@.len() ==> self@[b].id != id,
            },
    {
        let mut b: usize = 0;
        while b < self.blocks.len()
            invariant
                b <= self.blocks@.len(),
                forall|k: int| 0 <= k < b ==> self@[k].id != id,
            decreases self.blocks@.len() - b,
        {
            if self.blocks[b].id == id {
                return Some(b);
            }
            b += 1;
        }
        None
    }
}

/// The allocation of `n` bytes from the free chunk `i` makes it a used chunk of at least `n`
/// bytes, at the same offset.
proof fn lemma_allocated_prefix(s: Seq<Chunk>, i: int, n: nat)
    requires
        0 <= i < s.len(),
        fits(s[i], n),
    ensures
        allocated_chunks(s, i, n).len() > i,
        allocated_chunks(s, i, n)[i].used,
        allocated_chunks(s, i, n)[i].size >= n,
        chunk_offset(allocated_chunks(s, i, n), i) == chunk_offset(s, i),
{
    let t = allocated_chunks(s, i, n);
    assert(t.take(i) =~= s.take(i));
    if split_happens(s, i, n) {
        assert(split_size(n) >= n);
    }
}

/// Chunks at different indices have different offsets.
proof fn lemma_offsets_unique(s: Seq<Chunk>, i: int, j: int)
    requires
        0 <= i < s.len(),
        0 <= j < s.len(),
        chunk_offset(s, i) == chunk_offset(s, j),
    ensures
        i == j,
{
    if i < j {
        assert(s.take(j) =~= s.take(i) + s.subrange(i, j));
        lemma_footprint_concat(s.take(i), s.subrange(i, j));
        lemma_footprint_at(s.subrange(i, j), 0);
    } else if j < i {
        assert(s.take(i) =~= s.take(j) + s.subrange(j, i));
        lemma_footprint_concat(s.take(j), s.subrange(j, i));
        lemma_footprint_at(s.subrange(j, i), 0);
    }
}

/// The allocation of `n` bytes from the free chunk `j` keeps each used chunk at its offset.
proof fn lemma_allocated_offsets(s: Seq<Chunk>, j: int, n: nat, i: int)
    requires
        0 <= j < s.len(),
        0 <= i < s.len(),
        fits(s[j], n),
        s[i].used,
    ensures
        exists|k: int|
            0 <= k < allocated_chunks(s, j, n).len() && #[trigger] allocated_chunks(s, j, n)[k] == s[i]
                && chunk_offset(allocated_chunks(s, j, n), k) == chunk_offset(s, i),
{
    let t = allocated_chunks(s, j, n);
    lemma_split_footprint(s, j, n);
    if i < j {
        assert(t.take(i) =~= s.take(i));
        assert(t[i] == s[i]);
    } else if !split_happens(s, j, n) {
        assert(t =~= s.update(j, Chunk { used: true, size: s[j].size }));
        lemma_footprint_at(t.take(i), j);
        lemma_footprint_at(s.take(i), j);
        assert(t.take(i).take(j) =~= s.take(i).take(j));
        assert(t.take(i).skip(j + 1) =~= s.take(i).skip(j + 1));
        assert(t[i] == s[i]);
    } else {
        let a = t[j];
        let c = t[j + 1];
        assert(t.take(i + 1) =~= s.take(j) + seq![a, c] + s.subrange(j + 1, i));
        assert(s.take(i) =~= s.take(j) + seq![s[j]] + s.subrange(j + 1, i));
        lemma_footprint_concat(s.take(j) + seq![a, c], s.subrange(j + 1, i));
        lemma_footprint_concat(s.take(j), seq![a, c]);
        lemma_footprint_concat(s.take(j) + seq![s[j]], s.subrange(j + 1, i));
        lemma_footprint_concat(s.take(j), seq![s[j]]);
        lemma_footprint_pair(a, c);
        lemma_footprint_single(s[j]);
        assert(t[i + 1] == s[i]);
    }
}

/// An allocation keeps each allocation that was made before it.
proof fn lemma_allocate_keeps(
    v1: Seq<BlockView>,
    v2: Seq<BlockView>,
    n: nat,
    new: Handle,
    h: Handle,
    b: int,
    i: int,
)
    requires
        designates(v1, h, b, i),
        exists|next: u64| alloc_outcome(v1, next, n, v2, new),
    ensures
        exists|b2: int, i2: int| designates(v2, h, b2, i2),
{
    let next = choose|next: u64| alloc_outcome(v1, next, n, v2, new);
    if any_fit(v1, n) {
        let (b2, i2) = choose|b2: int, i2: int|
            #[trigger] is_first_fit(v1, n, b2, i2) && v2 == v1.update(
                b2,
                BlockView { chunks: allocated_chunks(v1[b2].chunks, i2, n), ..v1[b2] },
            ) && new == Handle { block: v1[b2].id, off: chunk_offset(v1[b2].chunks, i2) as usize };
        if b2 == b {
            lemma_allocated_offsets(v1[b].chunks, i2, n, i);
            let t = allocated_chunks(v1[b].chunks, i2, n);
            let k = choose|k: int|
                0 <= k < t.len() && #[trigger] t[k] == v1[b].chunks[i] && chunk_offset(t, k) == chunk_offset(v1[b].chunks, i);
            assert(designates(v2, h, b, k));
        } else {
            assert(designates(v2, h, b, i));
        }
    } else {
        assert(v2[b] == v1[b]);
        assert(designates(v2, h, b, i));
    }
}

/// The footprint of chunks depends only on their sizes.
proof fn lemma_footprint_sizes(s: Seq<Chunk>, t: Seq<Chunk>)
    requires
        s.len() == t.len(),
        forall|j: int| 0 <= j < s.len() ==> (#[trigger] s[j]).size == t[j].size,
    ensures
        footprint(s) == footprint(t),
    decreases s.len(),
{
    if s.len() > 0 {
        lemma_footprint_sizes(s.drop_last(), t.drop_last());
    }
}

/// Merging chunk `i` with the next one keeps every other chunk at its offset.
proof fn lemma_merge_offsets(s: Seq<Chunk>, i: int, j: int)
    requires
        0 <= i,
        i + 1 < s.len(),
        s[i].size + CHUNK_HEADER_SIZE + s[i + 1].size <= usize::MAX,
        0 <= j < s.len(),
        j != i,
        j != i + 1,
    ensures
        exists|k: int|
            0 <= k < merge_next(s, i).len() && #[trigger] merge_next(s, i)[k] == s[j] && chunk_offset(
                merge_next(s, i),
                k,
            ) == chunk_offset(s, j),
{
    let m = merge_next(s, i);
    lemma_merge_footprint(s, i);
    if j < i {
        assert(m.take(j) =~= s.take(j));
        assert(m[j] == s[j]);
    } else {
        let mc = m[i];
        assert(m.take(j - 1) =~= s.take(i) + seq![mc] + s.subrange(i + 2, j));
        assert(s.take(j) =~= s.take(i) + seq![s[i], s[i + 1]] + s.subrange(i + 2, j));
        lemma_footprint_concat(s.take(i) + seq![mc], s.subrange(i + 2, j));
        lemma_footprint_concat(s.take(i), seq![mc]);
        lemma_footprint_concat(s.take(i) + seq![s[i], s[i + 1]], s.subrange(i + 2, j));
        lemma_footprint_concat(s.take(i), seq![s[i], s[i + 1]]);
        lemma_footprint_single(mc);
        lemma_footprint_pair(s[i], s[i + 1]);
        assert(m[j - 1] == s[j]);
    }
}

/// Coalescing chunk `i` keeps every used chunk at its offset.
proof fn lemma_coalesce_offsets(s: Seq<Chunk>, i: int, j: int)
    requires
        0 <= i < s.len(),
        footprint(s) <= usize::MAX,
        0 <= j < s.len(),
        j != i,
        s[j].used,
    ensures
        exists|k: int|
            0 <= k < coalesce_chunks(s, i).0.len() && #[trigger] coalesce_chunks(s, i).0[k] == s[j]
                && chunk_offset(coalesce_chunks(s, i).0, k) == chunk_offset(s, j),
    decreases i,
{
    let merged = i + 1 < s.len() && !s[i + 1].used;
    let s1 = if merged {
        merge_next(s, i)
    } else {
        s
    };
    let k1 = if merged {
        lemma_pair_fits(s, i);
        lemma_merge_offsets(s, i, j);
        lemma_merge_footprint(s, i);
        choose|k: int| 0 <= k < s1.len() && #[trigger] s1[k] == s[j] && chunk_offset(s1, k) == chunk_offset(s, j)
    } else {
        j
    };
    assert(0 <= k1 < s1.len() && s1[k1] == s[j] && chunk_offset(s1, k1) == chunk_offset(s, j));
    assert(footprint(s1) <= usize::MAX);
    if 0 < i && !s1[i - 1].used {
        assert(merged ==> s1.len() == s.len() - 1);
        lemma_coalesce_offsets(s1, i - 1, k1);
        assert(coalesce_chunks(s, i) == coalesce_chunks(s1, i - 1));
    } else {
        assert(coalesce_chunks(s, i) == (s1, i));
        assert(coalesce_chunks(s, i).0[k1] == s[j]);
    }
}

/// Freeing the allocation `h` keeps every other allocation, with its chunk.
proof fn lemma_free_keeps(v: Seq<BlockView>, h: Handle, v1: Seq<BlockView>, a: Handle, b: int, i: int)
    requires
        free_outcome(v, h, v1),
        designates(v, a, b, i),
        a != h,
        forall|x: int| 0 <= x < v.len() ==> footprint(#[trigger] v[x].chunks) <= usize::MAX,
    ensures
        exists|b2: int, i2: int| designates(v1, a, b2, i2) && #[trigger] v1[b2].chunks[i2] == v[b].chunks[i],
{
    let (bh, ih) = choose|bh: int, ih: int|
        #[trigger] designates(v, h, bh, ih) && ({
            let s1 = coalesce_chunks(
                v[bh].chunks.update(ih, Chunk { used: false, size: v[bh].chunks[ih].size }),
                ih,
            ).0;
            if s1.len() == 1 {
                v1 == v.remove(bh)
            } else {
                v1 == v.update(bh, BlockView { chunks: s1, ..v[bh] })
            }
        });
    let c = v[bh].chunks.update(ih, Chunk { used: false, size: v[bh].chunks[ih].size });
    let r = coalesce_chunks(c, ih).0;
    if b != bh {
        if r.len() == 1 {
            let b2 = if b < bh {
                b
            } else {
                b - 1
            };
            assert(v1[b2] == v[b]);
            assert(designates(v1, a, b2, i));
        } else {
            assert(v1[b] == v[b]);
            assert(designates(v1, a, b, i));
        }
    } else {
        assert(i != ih);
        lemma_footprint_sizes(c, v[bh].chunks);
        lemma_coalesce_offsets(c, ih, i);
        lemma_coalesce_merges_free(c, ih);
        let k = choose|k: int| 0 <= k < r.len() && #[trigger] r[k] == c[i] && chunk_offset(r, k) == chunk_offset(c, i);
        lemma_footprint_sizes(c.take(i), v[bh].chunks.take(i));
        assert(r.len() != 1);
        assert(v1[b] == BlockView { chunks: r, ..v[b] });
        assert(designates(v1, a, b, k));
    }
}

} // verus!
