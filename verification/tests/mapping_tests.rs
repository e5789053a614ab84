use maestro::file::{root_location, FileLocation};
use maestro::mapping::{unmap_file, MappedFile, MappedFiles};

#[test]
fn mapping_pages_refcount() {
    let mut f = MappedFile::new();
    assert!(f.is_empty());
    assert_eq!(f.ref_count(3), 0);
    // A newly mapped page gets one reference, for the acquisition
    assert_eq!(f.acquire_page(3), 1);
    assert_eq!(f.acquire_page(3), 2);
    assert_eq!(f.acquire_page(5), 1);
    assert_eq!(f.ref_count(3), 2);
    f.release_page(3);
    assert_eq!(f.ref_count(3), 1);
    f.release_page(3);
    assert_eq!(f.ref_count(3), 0);
    assert!(!f.is_empty());
    // One release undoes one acquisition
    f.release_page(5);
    assert!(f.is_empty());
    // Releasing an unmapped page does nothing
    f.release_page(7);
    assert!(f.is_empty());
}

#[test]
fn mapping_files() {
    let loc = FileLocation { mountpoint_id: 1, inode: 42 };
    let other = FileLocation { mountpoint_id: 2, inode: 42 };
    let mut files = MappedFiles::new();
    assert!(!files.get_page(&loc, 0));
    files.map(loc, 0);
    files.map(loc, 1);
    assert!(!files.get_page(&loc, 0));
    files.unmap(&other, 0);
    // The file has no page left: unmapping removes it
    unmap_file(&mut files, &loc, 0);
    assert!(!files.get_page(&loc, 0));
    files.map(other, 0);
    files.unmap(&other, 0);
}

#[test]
fn mapping_root_location() {
    let l = root_location(Some((0, 2)));
    assert_eq!(l, FileLocation { mountpoint_id: 0, inode: 2 });
}
