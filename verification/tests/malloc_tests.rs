use maestro::malloc::{
    Handle, Heap, PAGE_SIZE,
    free_list_index, Chunk, ChunkList, FreeChunk, Realloc, CHUNK_HEADER_SIZE, MIN_CHUNK_SIZE,
};

fn sizes(l: &ChunkList) -> Vec<(bool, usize)> {
    (0..l.len()).map(|i| (l.get(i).used, l.get(i).size)).collect()
}

#[test]
fn malloc_chunk_new() {
    let c = Chunk::new();
    assert!(!c.used);
    assert_eq!(c.get_size(), 0);
    let f = FreeChunk::new(64);
    assert!(!f.chunk.used);
    assert_eq!(f.chunk.get_size(), 64);
    assert!(f.check());
    assert!(!FreeChunk::new(4).check());
    assert!(!FreeChunk::new(12).check());
}

#[test]
fn malloc_split() {
    let mut l = ChunkList::new(4096);
    assert!(l.is_single(0));
    assert_eq!(l.split(0, 100), Some(1));
    assert_eq!(sizes(&l), vec![(false, 104), (false, 4096 - 104 - CHUNK_HEADER_SIZE)]);
    assert!(!l.is_single(0));
    // Too small a rest: no split
    let mut m = ChunkList::new(40);
    assert_eq!(m.split(0, 24), None);
    assert_eq!(sizes(&m), vec![(false, 40)]);
    // Sizes under the minimum take the minimum
    let mut n = ChunkList::new(64);
    assert_eq!(n.split(0, 1), Some(1));
    assert_eq!(sizes(&n), vec![(false, MIN_CHUNK_SIZE), (false, 64 - MIN_CHUNK_SIZE - CHUNK_HEADER_SIZE)]);
    assert!(n.check(0) && n.check(1));
}

#[test]
fn malloc_coalesce() {
    let mut l = ChunkList::new(4096);
    l.split(0, 64);
    l.split(1, 64);
    l.split(2, 64);
    assert_eq!(l.len(), 4);
    l.set_used(0, true);
    l.set_used(2, true);
    // Freeing chunk 2 merges it with the free chunk after it
    l.set_used(2, false);
    // chunk 1 is free too: coalescing 2 merges 1, 2 and 3
    let r = l.coalesce(2);
    assert_eq!(r, 1);
    assert_eq!(sizes(&l), vec![(true, 64), (false, 4096 - 64 - CHUNK_HEADER_SIZE)]);
    // Freeing everything gives back a single chunk
    l.set_used(0, false);
    assert_eq!(l.coalesce(0), 0);
    assert_eq!(sizes(&l), vec![(false, 4096)]);
}

#[test]
fn malloc_grow_shrink() {
    let mut l = ChunkList::new(4096);
    l.split(0, 64);
    l.set_used(0, true);
    // Growing takes from the next free chunk
    assert!(l.grow(0, 100));
    assert_eq!(sizes(&l), vec![(true, 168), (false, 4096 - 168 - CHUNK_HEADER_SIZE)]);
    // Too large a growth
    assert!(!l.grow(0, 8192));
    assert_eq!(sizes(&l), vec![(true, 168), (false, 4096 - 168 - CHUNK_HEADER_SIZE)]);
    // Shrinking gives the rest back to the free chunk after it
    l.shrink(0, 100);
    assert_eq!(sizes(&l), vec![(true, 72), (false, 4096 - 72 - CHUNK_HEADER_SIZE)]);
    // A used chunk after it prevents growing
    l.split(1, 64);
    l.set_used(1, true);
    assert!(!l.grow(0, 8));
    // The last chunk cannot grow
    l.set_used(2, true);
    assert!(!l.grow(2, 8));
}

#[test]
fn malloc_insert_unlink() {
    let mut l = ChunkList::new(256);
    l.insert_after(0, Chunk { used: true, size: 32 });
    assert_eq!(sizes(&l), vec![(false, 256), (true, 32)]);
    let c = l.unlink(0);
    assert_eq!(c.size, 256);
    assert_eq!(sizes(&l), vec![(true, 32)]);
}

#[test]
fn malloc_free_list_index() {
    assert_eq!(free_list_index(0), 0);
    assert_eq!(free_list_index(7), 0);
    assert_eq!(free_list_index(8), 0);
    assert_eq!(free_list_index(15), 0);
    assert_eq!(free_list_index(16), 1);
    assert_eq!(free_list_index(64), 3);
    assert_eq!(free_list_index(1023), 6);
    assert_eq!(free_list_index(1024), 7);
    assert_eq!(free_list_index(1 << 20), 7);
    assert_eq!(free_list_index(usize::MAX), 7);
}

#[test]
fn malloc_alloc_realloc_free() {
    let mut l = ChunkList::new(4096);
    // Allocate 100 bytes from the free chunk
    l.allocate(0, 100);
    assert_eq!(sizes(&l), vec![(true, 104), (false, 4096 - 104 - CHUNK_HEADER_SIZE)]);
    // Allocate 50 bytes after it
    l.allocate(1, 50);
    assert_eq!(sizes(&l)[..2], [(true, 104), (true, 56)]);
    // The first chunk cannot grow: the next one is used
    assert_eq!(l.realloc(0, 200), Realloc::Move);
    // Shrinking in place
    assert_eq!(l.realloc(0, 40), Realloc::InPlace);
    assert_eq!(sizes(&l)[..3], [(true, 40), (false, 104 - 40 - CHUNK_HEADER_SIZE), (true, 56)]);
    assert_eq!(l.realloc(0, 40), Realloc::InPlace);
    // Freeing the second chunk merges it with the free chunks around it
    let (i, single) = l.free(2);
    assert_eq!(i, 1);
    assert!(!single);
    assert_eq!(sizes(&l), vec![(true, 40), (false, 4096 - 40 - CHUNK_HEADER_SIZE)]);
    // The last chunk freed makes the block free as a whole
    let (i, single) = l.free(0);
    assert_eq!(i, 0);
    assert!(single);
    assert_eq!(sizes(&l), vec![(false, 4096)]);
}

fn fill_ok(heap: &mut Heap, size: usize) -> Handle {
    heap.allocate(size).unwrap()
}

#[test]
fn alloc_free1() {
    let mut heap = Heap::new();
    let usage = heap.pages_in_use();
    let p = fill_ok(&mut heap, 1);
    assert!(heap.pages_in_use() > usage);
    heap.free(p);
    assert_eq!(usage, heap.pages_in_use());
    let p = fill_ok(&mut heap, 8);
    heap.free(p);
    assert_eq!(usage, heap.pages_in_use());
}

#[test]
fn alloc_free2() {
    let mut heap = Heap::new();
    let usage = heap.pages_in_use();
    let p = fill_ok(&mut heap, PAGE_SIZE);
    heap.free(p);
    assert_eq!(usage, heap.pages_in_use());
}

#[test]
fn alloc_free3() {
    let mut heap = Heap::new();
    let usage = heap.pages_in_use();
    let p = fill_ok(&mut heap, PAGE_SIZE * 10);
    assert_eq!(heap.pages_in_use(), 11);
    heap.free(p);
    assert_eq!(usage, heap.pages_in_use());
}

#[test]
fn alloc_free_fifo() {
    let mut heap = Heap::new();
    let usage = heap.pages_in_use();
    let mut ptrs = Vec::new();
    for i in 0..1024 {
        ptrs.push(fill_ok(&mut heap, i + 1));
    }
    for i in 0..ptrs.len() {
        for j in (i + 1)..ptrs.len() {
            assert_ne!(ptrs[j], ptrs[i]);
        }
    }
    for p in ptrs {
        heap.free(p);
    }
    assert_eq!(usage, heap.pages_in_use());
}

fn lifo_test(heap: &mut Heap, i: usize) {
    let p = fill_ok(heap, i);
    if i > 1 {
        lifo_test(heap, i - 1);
    }
    heap.free(p);
}

#[test]
fn alloc_free_lifo() {
    let mut heap = Heap::new();
    let usage = heap.pages_in_use();
    lifo_test(&mut heap, 100);
    assert_eq!(usage, heap.pages_in_use());
}

#[test]
fn realloc0() {
    let mut heap = Heap::new();
    let usage = heap.pages_in_use();
    let mut p = fill_ok(&mut heap, 1);
    for i in 1..PAGE_SIZE {
        p = heap.reallocate(p, i).unwrap();
    }
    heap.free(p);
    assert_eq!(usage, heap.pages_in_use());
}

#[test]
fn realloc1() {
    let mut heap = Heap::new();
    let usage = heap.pages_in_use();
    let mut p = fill_ok(&mut heap, PAGE_SIZE);
    for i in (1..PAGE_SIZE).rev() {
        p = heap.reallocate(p, i).unwrap();
    }
    heap.free(p);
    assert_eq!(usage, heap.pages_in_use());
}

#[test]
fn realloc2() {
    let mut heap = Heap::new();
    let usage = heap.pages_in_use();
    let mut p0 = fill_ok(&mut heap, 8);
    let mut p1 = fill_ok(&mut heap, 8);
    for i in 0..8 {
        p0 = heap.reallocate(p0, 1 << i).unwrap();
        p1 = heap.reallocate(p1, (1 << i) + 1).unwrap();
    }
    heap.free(p1);
    heap.free(p0);
    assert_eq!(usage, heap.pages_in_use());
}

#[test]
fn realloc3() {
    let mut heap = Heap::new();
    let usage = heap.pages_in_use();
    let mut p0 = fill_ok(&mut heap, 8);
    let mut p1 = fill_ok(&mut heap, 8);
    for i in (0..8).rev() {
        p0 = heap.reallocate(p0, 1 << i).unwrap();
        p1 = heap.reallocate(p1, (1 << i) + 1).unwrap();
    }
    heap.free(p1);
    heap.free(p0);
    assert_eq!(usage, heap.pages_in_use());
}
