use maestro::vmem::{
    map_kernel, KernelSection, VGA_BUFFER_PHYS, VGA_BUFFER_VIRT,
    get_addr_element_index, is_empty, is_kernelspace, to_entry, VMem, FLAG_PAGE_SIZE,
    FLAG_PRESENT, FLAG_USER, FLAG_WRITE, KERNEL_FLAGS, PAGE_SIZE, PROCESS_END,
};

#[test]
fn vmem_basic0() {
    let vmem = VMem::new().unwrap();
    for i in (0u32..0xc0000000).step_by(PAGE_SIZE as usize) {
        assert_eq!(vmem.translate(i), None);
    }
}

#[test]
fn vmem_map0() {
    let vmem = VMem::new().unwrap();
    let mut transaction = vmem.transaction();
    transaction.map(0x100000, 0x100000, 0).unwrap();
    let vmem = transaction.commit();
    for i in (0u32..0xc0000000).step_by(PAGE_SIZE as usize) {
        if (0x100000..0x101000).contains(&i) {
            let result = vmem.translate(i);
            assert!(result.is_some());
            assert_eq!(result.unwrap(), i);
        } else {
            assert_eq!(vmem.translate(i), None);
        }
    }
}

#[test]
fn vmem_map1() {
    let vmem = VMem::new().unwrap();
    let mut transaction = vmem.transaction();
    transaction.map(0x100000, 0x100000, 0).unwrap();
    transaction.map(0x200000, 0x100000, 0).unwrap();
    let vmem = transaction.commit();
    for i in (0u32..0xc0000000).step_by(PAGE_SIZE as usize) {
        if (0x100000..0x101000).contains(&i) {
            let result = vmem.translate(i);
            assert!(result.is_some());
            assert_eq!(result.unwrap(), 0x100000 + i);
        } else {
            assert_eq!(vmem.translate(i), None);
        }
    }
}

#[test]
fn vmem_unmap0() {
    let vmem = VMem::new().unwrap();
    let mut transaction = vmem.transaction();
    transaction.map(0x100000, 0x100000, 0).unwrap();
    transaction.unmap(0x100000).unwrap();
    let vmem = transaction.commit();
    for i in (0u32..0xc0000000).step_by(PAGE_SIZE as usize) {
        assert_eq!(vmem.translate(i), None);
    }
}

#[test]
fn vmem_offset_in_page() {
    let vmem = VMem::new().unwrap();
    let mut transaction = vmem.transaction();
    transaction.map(0x12345678, 0x400123, FLAG_WRITE).unwrap();
    let vmem = transaction.commit();
    assert_eq!(vmem.translate(0x400000), Some(0x12345000));
    assert_eq!(vmem.translate(0x400abc), Some(0x12345abc));
    assert_eq!(vmem.translate(0x401000), None);
    assert_eq!(vmem.translate(0x3ff000), None);
}

#[test]
fn vmem_abort_restores() {
    let vmem = VMem::new().unwrap();
    let mut transaction = vmem.transaction();
    transaction.map(0x100000, 0x100000, 0).unwrap();
    let vmem = transaction.commit();
    let mut transaction = vmem.transaction();
    transaction.map(0x300000, 0x100000, 0).unwrap();
    transaction.map(0x500000, 0x800000, 0).unwrap();
    transaction.unmap(0x100000).unwrap();
    assert_eq!(transaction.vmem().translate(0x100000), None);
    assert_eq!(transaction.vmem().translate(0x800000), Some(0x500000));
    let vmem = transaction.abort();
    assert_eq!(vmem.translate(0x100000), Some(0x100000));
    assert_eq!(vmem.translate(0x800000), None);
}

#[test]
fn vmem_page_size_block() {
    let vmem = VMem::new().unwrap();
    let mut transaction = vmem.transaction();
    transaction.map(0x800000, 0x400000, FLAG_PAGE_SIZE).unwrap();
    let vmem = transaction.commit();
    assert_eq!(vmem.translate(0x400000), Some(0x800000));
    assert_eq!(vmem.translate(0x5ff123), Some(0x9ff123));
    assert_eq!(vmem.translate(0x7fffff), Some(0xbfffff));
    assert_eq!(vmem.translate(0x800000), None);
    // Mapping a page inside the block expands it into a page table
    let mut transaction = vmem.transaction();
    transaction.map(0x1000, 0x401000, 0).unwrap();
    let vmem = transaction.commit();
    assert_eq!(vmem.translate(0x400000), Some(0x800000));
    assert_eq!(vmem.translate(0x401000), Some(0x1000));
    assert_eq!(vmem.translate(0x402abc), Some(0x802abc));
    // Unmapping a page of an expanded block leaves the rest mapped
    let mut transaction = vmem.transaction();
    transaction.unmap(0x402000).unwrap();
    let vmem = transaction.commit();
    assert_eq!(vmem.translate(0x402000), None);
    assert_eq!(vmem.translate(0x403000), Some(0x803000));
}

#[test]
fn vmem_range() {
    let vmem = VMem::new().unwrap();
    let mut transaction = vmem.transaction();
    transaction.map_range(0x10000, 0x3ff000, 3, FLAG_WRITE | FLAG_USER).unwrap();
    let vmem = transaction.commit();
    assert_eq!(vmem.translate(0x3ff000), Some(0x10000));
    assert_eq!(vmem.translate(0x400000), Some(0x11000));
    assert_eq!(vmem.translate(0x401000), Some(0x12000));
    assert_eq!(vmem.translate(0x402000), None);
    let mut transaction = vmem.transaction();
    transaction.unmap_range(0x3ff000, 2).unwrap();
    let vmem = transaction.commit();
    assert_eq!(vmem.translate(0x3ff000), None);
    assert_eq!(vmem.translate(0x400000), None);
    assert_eq!(vmem.translate(0x401000), Some(0x12000));
    // Empty ranges do nothing
    let mut transaction = vmem.transaction();
    transaction.map_range(0, 0xc0000000, 0, 0).unwrap();
    transaction.unmap_range(0xc0000000, 0).unwrap();
    let vmem = transaction.commit();
    assert_eq!(vmem.translate(0x401000), Some(0x12000));
}

#[test]
fn vmem_kernelspace_refused() {
    let vmem = VMem::new().unwrap();
    let mut transaction = vmem.transaction();
    assert!(transaction.map(0x100000, PROCESS_END, 0).is_err());
    assert!(transaction.unmap(PROCESS_END + 0x1000).is_err());
    assert!(transaction.map_range(0x100000, PROCESS_END - 0x1000, 2, 0).is_err());
    assert!(transaction.unmap_range(PROCESS_END - 0x1000, 2).is_err());
    assert!(transaction.map(0x100000, PROCESS_END - 0x1000, 0).is_ok());
    let vmem = transaction.commit();
    assert_eq!(vmem.translate(PROCESS_END - 0x1000), Some(0x100000));
    assert_eq!(vmem.translate(PROCESS_END), None);
    let vmem = VMem::new_kernel().unwrap();
    let mut transaction = vmem.transaction();
    transaction.map(0x100000, PROCESS_END, 0).unwrap();
    let vmem = transaction.commit();
    assert_eq!(vmem.translate(PROCESS_END), Some(0x100000));
}

#[test]
fn vmem_is_kernelspace() {
    assert!(!is_kernelspace(0, 1));
    assert!(!is_kernelspace(0xbffff000, 1));
    assert!(is_kernelspace(0xc0000000, 1));
    assert!(is_kernelspace(0xbffff000, 2));
    assert!(!is_kernelspace(0, 0xc0000));
    assert!(is_kernelspace(0, 0xc0001));
}

#[test]
fn vmem_entries() {
    assert_eq!(to_entry(0x1000, FLAG_WRITE), 0x1000 | FLAG_WRITE | FLAG_PRESENT);
    assert_eq!(to_entry(0x2000, 0xffff_ffff), 0x2fff);
    assert_eq!(to_entry(0, KERNEL_FLAGS), KERNEL_FLAGS);
    assert_eq!(get_addr_element_index(0xc0401000, 1), 0x301);
    assert_eq!(get_addr_element_index(0xc0401000, 0), 0x1);
    assert!(is_empty(&vec![0u32; 1024]));
    let mut table = vec![0u32; 1024];
    table[17] = FLAG_WRITE;
    assert!(is_empty(&table));
    table[1000] = FLAG_PRESENT;
    assert!(!is_empty(&table));
}

#[test]
fn vmem_basic1() {
    let vmem = VMem::new_kernel().unwrap();
    let mut transaction = vmem.transaction();
    let sections = [
        // Kernel code: read-only
        KernelSection { addr: 0xc0100000, size: 0x2345, align: PAGE_SIZE, write: false, user: false },
        // Not aligned on pages: left as mapped linearly
        KernelSection { addr: 0xc0200010, size: 0x10, align: 16, write: false, user: false },
    ];
    assert!(map_kernel(&mut transaction, &sections).is_ok());
    let vmem = transaction.commit();
    for i in (0u32..0x40000000).step_by(PAGE_SIZE as usize) {
        let virt = PROCESS_END + i;
        assert_eq!(vmem.translate(virt), Some(i));
    }
    assert_eq!(vmem.translate(VGA_BUFFER_VIRT), Some(VGA_BUFFER_PHYS));
    assert_eq!(vmem.translate(0x1000), None);
}
