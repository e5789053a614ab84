use maestro::cache::{CachedPage, Lru};
use maestro::stats::MemInfo;

fn page(id: u64, refs: usize, in_node: bool) -> CachedPage {
    CachedPage { id, refs, in_node }
}

#[test]
fn lru_insert_front_order() {
    let mut lru = Lru::new();
    assert_eq!(lru.len(), 0);
    lru.insert_front(page(1, 2, false));
    lru.insert_front(page(2, 2, false));
    assert_eq!(lru.len(), 2);
    assert_eq!(lru.get(0).id, 2);
    assert_eq!(lru.get(1).id, 1);
}

#[test]
fn lru_victim_is_least_recent_inactive() {
    let mut lru = Lru::new();
    // Back to front: 1 (inactive), 2 (used), 3 (in a node, inactive), 4 (in a node, used)
    lru.insert_front(page(1, 2, false));
    lru.insert_front(page(2, 3, false));
    lru.insert_front(page(3, 3, true));
    lru.insert_front(page(4, 4, true));
    assert_eq!(lru.next_victim(lru.len()), Some(3));
    // The writeback of page 1 failed: the scan goes on before it
    assert_eq!(lru.next_victim(3), Some(1));
    assert_eq!(lru.get(1).id, 3);
    assert_eq!(lru.next_victim(1), None);
    assert_eq!(lru.next_victim(0), None);
}

#[test]
fn lru_evict_updates_inactive() {
    let mut lru = Lru::new();
    lru.insert_front(page(1, 2, false));
    lru.insert_front(page(2, 2, false));
    let mut info = MemInfo::new();
    info.inactive = 8;
    info.active = 5;
    lru.evict(1, &mut info);
    assert_eq!(lru.len(), 1);
    assert_eq!(lru.get(0).id, 2);
    assert_eq!(info.inactive, 4);
    assert_eq!(info.active, 5);
}

#[test]
fn lru_all_used_cannot_shrink() {
    let mut lru = Lru::new();
    lru.insert_front(page(1, 5, false));
    lru.insert_front(page(2, 4, true));
    assert_eq!(lru.next_victim(2), None);
}
