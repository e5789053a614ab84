//! The Multiboot standard specifies an interface to load and boot the kernel image. It provides
//! essential information such as the memory mapping and the ELF structure of the kernel.
//!
//! The boot information is a sequence of tags, each starting with its type and its size (two
//! little-endian 32-bit words), and padded to a multiple of 8 bytes. The sequence ends with a tag
//! of type [`TAG_TYPE_END`].
use vstd::prelude::*;

verus! {

/// Multiboot2 magic number.
pub const BOOTLOADER_MAGIC: u32 = 0x36d76289;

/// Multiboot tag type: end of tags
pub const TAG_TYPE_END: u32 = 0;
/// Multiboot tag type: command line
pub const TAG_TYPE_CMDLINE: u32 = 1;
/// Multiboot tag type: bootloader name
pub const TAG_TYPE_BOOT_LOADER_NAME: u32 = 2;
/// Multiboot tag type: bootloader module
pub const TAG_TYPE_MODULE: u32 = 3;
/// Multiboot tag type: memory mapping information
pub const TAG_TYPE_BASIC_MEMINFO: u32 = 4;
/// Multiboot tag type: memory size
pub const TAG_TYPE_MMAP: u32 = 6;
/// Multiboot tag type: kernel's ELF sections
pub const TAG_TYPE_ELF_SECTIONS: u32 = 9;

/// Memory region: available
pub const MEMORY_AVAILABLE: u32 = 1;
/// Memory region: reserved
pub const MEMORY_RESERVED: u32 = 2;
/// Memory region: ACPI reclaimable
pub const MEMORY_ACPI_RECLAIMABLE: u32 = 3;
/// Memory region: ACPI NVS
pub const MEMORY_NVS: u32 = 4;
/// Memory region: bad memory
pub const MEMORY_BADRAM: u32 = 5;

/// A memory mapping entry.
#[derive(Clone, Copy, Debug)]
pub struct MmapEntry {
    /// The address to the beginning of the mapping.
    pub addr: u64,
    /// The length of the mapping.
    pub len: u64,
    /// Mapping type.
    pub type_: u32,
    /// Reserved.
    pub zero: u32,
}

/// The description of a memory region type.
#[derive(Clone, Copy, Debug, PartialEq, Eq, Structural)]
pub enum MemoryRegionKind {
    /// "Available"
    Available,
    /// "ACPI"
    Acpi,
    /// "Hibernate"
    Hibernate,
    /// "Bad RAM"
    BadRam,
    /// "Reserved"
    Reserved,
}

impl MemoryRegionKind {
    /// The kind of memory region of the given type.
    pub open spec fn of_type(type_: u32) -> MemoryRegionKind {
        if type_ == MEMORY_AVAILABLE {
            MemoryRegionKind::Available
        } else if type_ == MEMORY_ACPI_RECLAIMABLE {
            MemoryRegionKind::Acpi
        } else if type_ == MEMORY_NVS {
            MemoryRegionKind::Hibernate
        } else if type_ == MEMORY_BADRAM {
            MemoryRegionKind::BadRam
        } else {
            MemoryRegionKind::Reserved
        }
    }

    /// The string describing the kind of memory region.
    pub open spec fn name(self) -> Seq<char> {
        match self {
            MemoryRegionKind::Available => "Available"@,
            MemoryRegionKind::Acpi => "ACPI"@,
            MemoryRegionKind::Hibernate => "Hibernate"@,
            MemoryRegionKind::BadRam => "Bad RAM"@,
            MemoryRegionKind::Reserved => "Reserved"@,
        }
    }

    /// Returns the string describing the kind of memory region.
    pub fn as_str(&self) -> (s: &'static str)
        ensures
            s@ == self.name(),
    {
        match self {
            MemoryRegionKind::Available => "Available",
            MemoryRegionKind::Acpi => "ACPI",
            MemoryRegionKind::Hibernate => "Hibernate",
            MemoryRegionKind::BadRam => "Bad RAM",
            MemoryRegionKind::Reserved => "Reserved",
        }
    }
}

impl MmapEntry {
    /// Tells if a Multiboot mmap entry is valid: the region ends below 4 GiB.
    pub fn is_valid(&self) -> (b: bool)
        requires
            self.addr + self.len <= u64::MAX,
        ensures
            b == (self.addr + self.len < 0x1_0000_0000),
    {
        (self.addr + self.len) < 0x1_0000_0000u64
    }

    /// Returns the kind of memory region according to its type, whose string description is
    /// given by [`MemoryRegionKind::as_str`].
    pub fn get_type_string(&self) -> (k: MemoryRegionKind)
        ensures
            k == MemoryRegionKind::of_type(self.type_),
    {
        if self.type_ == MEMORY_AVAILABLE {
            MemoryRegionKind::Available
        } else if self.type_ == MEMORY_ACPI_RECLAIMABLE {
            MemoryRegionKind::Acpi
        } else if self.type_ == MEMORY_NVS {
            MemoryRegionKind::Hibernate
        } else if self.type_ == MEMORY_BADRAM {
            MemoryRegionKind::BadRam
        } else {
            MemoryRegionKind::Reserved
        }
    }
}

/// Kernel boot information provided by Multiboot, structured and filtered. Locations are byte
/// offsets in the boot information.
#[derive(Clone, Debug)]
pub struct BootInfo {
    /// The offset of the end of the Multiboot2 tags.
    pub tags_end: usize,
    /// The command line used to boot the kernel.
    pub cmdline: Option<Vec<u8>>,
    /// The bootloader's name.
    pub loader_name: Option<Vec<u8>>,
    /// The upper memory size in kilobytes.
    pub mem_upper: u32,
    /// The size of the physical memory mappings tag.
    pub memory_maps_size: usize,
    /// The size of a physical memory mapping entry.
    pub memory_maps_entry_size: usize,
    /// The offset of the list of physical memory mappings.
    pub memory_maps: usize,
    /// The number of ELF entries.
    pub elf_num: u32,
    /// The size of ELF entries.
    pub elf_entsize: u32,
    /// The index of the kernel's ELF section containing the kernel's symbols.
    pub elf_shndx: u32,
    /// The offset of the kernel's ELF sections.
    pub elf_sections: usize,
    /// The physical address and length of an initramfs image, if one is loaded.
    pub initramfs: Option<(u32, u32)>,
}

/// The abstract content of a [`BootInfo`].
pub struct BootInfoView {
    /// See [`BootInfo::tags_end`].
    pub tags_end: int,
    /// See [`BootInfo::cmdline`].
    pub cmdline: Option<Seq<u8>>,
    /// See [`BootInfo::loader_name`].
    pub loader_name: Option<Seq<u8>>,
    /// See [`BootInfo::mem_upper`].
    pub mem_upper: u32,
    /// See [`BootInfo::memory_maps_size`].
    pub memory_maps_size: int,
    /// See [`BootInfo::memory_maps_entry_size`].
    pub memory_maps_entry_size: int,
    /// See [`BootInfo::memory_maps`].
    pub memory_maps: int,
    /// See [`BootInfo::elf_num`].
    pub elf_num: u32,
    /// See [`BootInfo::elf_entsize`].
    pub elf_entsize: u32,
    /// See [`BootInfo::elf_shndx`].
    pub elf_shndx: u32,
    /// See [`BootInfo::elf_sections`].
    pub elf_sections: int,
    /// See [`BootInfo::initramfs`].
    pub initramfs: Option<(u32, u32)>,
}

/// The bytes of an optional string.
pub open spec fn opt_bytes(s: Option<Vec<u8>>) -> Option<Seq<u8>> {
    match s {
        Some(v) => Some(v@),
        None => None,
    }
}

impl View for BootInfo {
    type V = BootInfoView;

    open spec fn view(&self) -> BootInfoView {
        BootInfoView {
            tags_end: self.tags_end as int,
            cmdline: opt_bytes(self.cmdline),
            loader_name: opt_bytes(self.loader_name),
            mem_upper: self.mem_upper,
            memory_maps_size: self.memory_maps_size as int,
            memory_maps_entry_size: self.memory_maps_entry_size as int,
            memory_maps: self.memory_maps as int,
            elf_num: self.elf_num,
            elf_entsize: self.elf_entsize,
            elf_shndx: self.elf_shndx,
            elf_sections: self.elf_sections as int,
            initramfs: self.initramfs,
        }
    }
}

/// Boot information without any tag read.
pub open spec fn empty_info() -> BootInfoView {
    BootInfoView {
        tags_end: 0,
        cmdline: None,
        loader_name: None,
        mem_upper: 0,
        memory_maps_size: 0,
        memory_maps_entry_size: 0,
        memory_maps: 0,
        elf_num: 0,
        elf_entsize: 0,
        elf_shndx: 0,
        elf_sections: 0,
        initramfs: None,
    }
}

/// The little-endian 32-bit word at offset `o` of `b`.
pub open spec fn u32_at(b: Seq<u8>, o: int) -> u32 {
    (b[o] as u32) | ((b[o + 1] as u32) << 8u32) | ((b[o + 2] as u32) << 16u32) | ((b[o + 3]
        as u32) << 24u32)
}

/// `n` rounded up to a multiple of 8.
pub open spec fn round8(n: int) -> int {
    n + (8 - n % 8) % 8
}

/// The string starting at offset `start` of `b`: its bytes up to the first null byte, or up to
/// offset `end` if there is none before.
pub open spec fn c_string(b: Seq<u8>, start: int, end: int) -> Seq<u8>
    decreases end - start,
{
    if start >= end || b[start] == 0 {
        Seq::empty()
    } else {
        seq![b[start]].add(c_string(b, start + 1, end))
    }
}

/// The boot information `info` once the tag of type `t` and size `size` at offset `o` of `b` is
/// read. Tags of unknown types are ignored.
pub open spec fn handle_tag(info: BootInfoView, b: Seq<u8>, o: int, t: u32, size: u32) -> BootInfoView {
    let end = o + size;
    if t == TAG_TYPE_CMDLINE {
        BootInfoView { cmdline: Some(c_string(b, o + 8, end)), ..info }
    } else if t == TAG_TYPE_BOOT_LOADER_NAME {
        BootInfoView { loader_name: Some(c_string(b, o + 8, end)), ..info }
    } else if t == TAG_TYPE_MODULE {
        let start = u32_at(b, o + 8);
        let stop = u32_at(b, o + 12);
        let len = if stop > start {
            (stop - start) as u32
        } else {
            0u32
        };
        BootInfoView {
            initramfs: if len != 0 {
                Some((start, len))
            } else {
                None
            },
            ..info
        }
    } else if t == TAG_TYPE_BASIC_MEMINFO {
        BootInfoView { mem_upper: u32_at(b, o + 12), ..info }
    } else if t == TAG_TYPE_MMAP {
        BootInfoView {
            memory_maps_size: size as int,
            memory_maps_entry_size: u32_at(b, o + 8) as int,
            memory_maps: o + 16,
            ..info
        }
    } else if t == TAG_TYPE_ELF_SECTIONS {
        BootInfoView {
            elf_num: u32_at(b, o + 8),
            elf_entsize: u32_at(b, o + 12),
            elf_shndx: u32_at(b, o + 16),
            elf_sections: o + 20,
            ..info
        }
    } else {
        info
    }
}

/// The minimum size of each tag type: a tag must hold the fields read from it.
pub open spec fn min_tag_size(t: u32) -> int {
    if t == TAG_TYPE_MODULE || t == TAG_TYPE_BASIC_MEMINFO || t == TAG_TYPE_MMAP {
        16
    } else if t == TAG_TYPE_ELF_SECTIONS {
        20
    } else {
        8
    }
}

/// The boot information read from the tags of `b` starting at offset `o`, with `info` read so
/// far. `None` if a tag does not fit in `b` or is smaller than its fields.
pub open spec fn read_tags(b: Seq<u8>, o: int, info: BootInfoView) -> Option<BootInfoView>
    decreases b.len() - o,
{
    if o < 0 || o + 8 > b.len() {
        None
    } else {
        let t = u32_at(b, o);
        let size = u32_at(b, o + 4);
        if size < min_tag_size(t) || o + size > b.len() {
            None
        } else if t == TAG_TYPE_END {
            Some(BootInfoView { tags_end: o + round8(size as int), ..info })
        } else if o + round8(size as int) > b.len() {
            None
        } else {
            proof {
                assert(round8(size as int) >= size);
            }
            read_tags(b, o + round8(size as int), handle_tag(info, b, o, t, size))
        }
    }
}

/// Reads the little-endian 32-bit word at offset `o` of `b`.
fn read_u32(b: &[u8], o: usize) -> (r: u32)
    requires
        o + 4 <= b@.len(),
    ensures
        r == u32_at(b@, o as int),
{
    (b[o] as u32) | ((b[o + 1] as u32) << 8u32) | ((b[o + 2] as u32) << 16u32) | ((b[o + 3]
        as u32) << 24u32)
}

/// Reads the string starting at offset `start` of `b`, up to a null byte or offset `end`.
fn read_c_string(b: &[u8], start: usize, end: usize) -> (s: Vec<u8>)
    requires
        start <= end <= b@.len(),
    ensures
        s@ == c_string(b@, start as int, end as int),
{
    let mut out: Vec<u8> = Vec::new();
    let mut i = start;
    while i < end && b[i] != 0
        invariant
            start <= i <= end <= b@.len(),
            c_string(b@, start as int, end as int) == out@.add(c_string(b@, i as int, end as int)),
        decreases end - i,
    {
        proof {
            assert(c_string(b@, i as int, end as int) == seq![b@[i as int]].add(
                c_string(b@, i + 1, end as int),
            ));
            assert(out@.add(seq![b@[i as int]]).add(c_string(b@, i + 1, end as int)) =~= out@.add(
                seq![b@[i as int]].add(c_string(b@, i + 1, end as int)),
            ));
        }
        out.push(b[i]);
        i += 1;
    }
    assert(c_string(b@, i as int, end as int) =~= Seq::<u8>::empty());
    assert(out@.add(Seq::<u8>::empty()) =~= out@);
    out
}

/// Reads the given tag and fills boot information structure accordingly.
fn handle_tag_exec(info: &mut BootInfo, b: &[u8], o: usize, t: u32, size: u32)
    requires
        size >= min_tag_size(t),
        o + size <= b@.len(),
    ensures
        final(info)@ == handle_tag(old(info)@, b@, o as int, t, size),
{
    let n = b.len();
    let end = o + size as usize;
    if t == TAG_TYPE_CMDLINE {
        info.cmdline = Some(read_c_string(b, o + 8, end));
    } else if t == TAG_TYPE_BOOT_LOADER_NAME {
        info.loader_name = Some(read_c_string(b, o + 8, end));
    } else if t == TAG_TYPE_MODULE {
        let start = read_u32(b, o + 8);
        let stop = read_u32(b, o + 12);
        let len = if stop > start {
            stop - start
        } else {
            0
        };
        info.initramfs = if len != 0 {
            Some((start, len))
        } else {
            None
        };
    } else if t == TAG_TYPE_BASIC_MEMINFO {
        info.mem_upper = read_u32(b, o + 12);
    } else if t == TAG_TYPE_MMAP {
        info.memory_maps_size = size as usize;
        info.memory_maps_entry_size = read_u32(b, o + 8) as usize;
        info.memory_maps = o + 16;
    } else if t == TAG_TYPE_ELF_SECTIONS {
        info.elf_num = read_u32(b, o + 8);
        info.elf_entsize = read_u32(b, o + 12);
        info.elf_shndx = read_u32(b, o + 16);
        info.elf_sections = o + 20;
    }
}

/// Reads the Multiboot boot information `b` (starting with its 8-byte header) and returns the
/// relevant information.
///
/// If a tag does not fit in `b`, or is smaller than the fields it must hold, the function returns
/// `None`.
pub fn read(b: &[u8]) -> (r: Option<BootInfo>)
    requires
        b@.len() + 8 <= usize::MAX,
    ensures
        match read_tags(b@, 8, empty_info()) {
            None => r is None,
            Some(v) => r matches Some(info) && info@ == v,
        },
{
    let mut info = BootInfo {
        tags_end: 0,
        cmdline: None,
        loader_name: None,
        mem_upper: 0,
        memory_maps_size: 0,
        memory_maps_entry_size: 0,
        memory_maps: 0,
        elf_num: 0,
        elf_entsize: 0,
        elf_shndx: 0,
        elf_sections: 0,
        initramfs: None,
    };
    let ghost target = read_tags(b@, 8, empty_info());
    let mut o: usize = 8;
    loop
        invariant
            b@.len() + 8 <= usize::MAX,
            target == read_tags(b@, 8, empty_info()),
            read_tags(b@, o as int, info@) == target,
        decreases b@.len() - o,
    {
        if o > b.len() || b.len() - o < 8 {
            return None;
        }
        let t = read_u32(b, o);
        let size = read_u32(b, o + 4);
        let min: u32 = if t == TAG_TYPE_MODULE || t == TAG_TYPE_BASIC_MEMINFO || t == TAG_TYPE_MMAP {
            16
        } else if t == TAG_TYPE_ELF_SECTIONS {
            20
        } else {
            8
        };
        if size < min || size as usize > b.len() - o {
            return None;
        }
        let step = (size as usize + 7) / 8 * 8;
        assert(step == round8(size as int)) by (nonlinear_arith)
            requires
                step == (size as int + 7) / 8 * 8,
                size >= 0,
        {
        }
        if t == TAG_TYPE_END {
            info.tags_end = o + step;
            return Some(info);
        }
        if step > b.len() - o {
            return None;
        }
        handle_tag_exec(&mut info, b, o, t, size);
        o = o + step;
    }
}

/// Reading a module tag records the loaded image as the initramfs, by its start address and its
/// length: the image begins at the address in the tag's first field and ends at the address in
/// its second field, and an empty image (an end not above the start) records no initramfs. The
/// other boot information stays as it was.
pub proof fn lemma_module_tag(info: BootInfoView, b: Seq<u8>, o: int, size: u32)
    ensures
        ({
            let mod_start = u32_at(b, o + 8);
            let mod_end = u32_at(b, o + 12);
            let r = handle_tag(info, b, o, TAG_TYPE_MODULE, size);
            &&& r.initramfs is Some <==> mod_end > mod_start
            &&& r.initramfs matches Some((addr, len)) ==> addr == mod_start && addr + len == mod_end
                && len > 0
            &&& r == BootInfoView { initramfs: r.initramfs, ..info }
        }),
{
}

/// The 32-bit words of the boot information are read little-endian: the first byte is the least
/// significant.
pub proof fn lemma_u32_at_little_endian(b: Seq<u8>, o: int)
    requires
        0 <= o,
        o + 4 <= b.len(),
    ensures
        u32_at(b, o) == b[o] + 0x100 * b[o + 1] + 0x10000 * b[o + 2] + 0x1000000 * b[o + 3],
{
    lemma_le_word(b[o], b[o + 1], b[o + 2], b[o + 3]);
}

proof fn lemma_le_word(b0: u8, b1: u8, b2: u8, b3: u8)
    by (bit_vector)
    ensures
        ((b0 as u32) | ((b1 as u32) << 8u32) | ((b2 as u32) << 16u32) | ((b3 as u32) << 24u32))
            == b0 + 0x100 * b1 + 0x10000 * b2 + 0x1000000 * b3,
{
}

/// The string read at `start`, bounded by `end`, is the longest run of bytes of `b` from `start`
/// that holds no null byte: it is a prefix of the bytes up to `end`, has no null byte, and
/// stops at a null byte unless it reaches `end`.
pub proof fn lemma_c_string(b: Seq<u8>, start: int, end: int)
    requires
        0 <= start <= end <= b.len(),
    ensures
        ({
            let s = c_string(b, start, end);
            &&& s.len() <= end - start
            &&& s == b.subrange(start, start + s.len())
            &&& forall|k: int| 0 <= k < s.len() ==> s[k] != 0
            &&& start + s.len() < end ==> b[start + s.len()] == 0
        }),
    decreases end - start,
{
    if start < end && b[start] != 0 {
        lemma_c_string(b, start + 1, end);
        let t = c_string(b, start + 1, end);
        let s = c_string(b, start, end);
        assert(s == seq![b[start]].add(t));
        assert(s =~= b.subrange(start, start + s.len()));
    }
}

} // verus!
