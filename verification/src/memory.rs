//! Physical and virtual addresses, and the layout of the virtual memory.
//!
//! The virtual memory is divided in two chunks: the userspace, below [`PROCESS_END`], used by the
//! running process, and the kernelspace, above [`KERNEL_BEGIN`], shared across processes. The
//! kernelspace maps the physical memory linearly from [`KERNEL_BEGIN`].
//!
//! Addresses are 64 bits wide.
use vstd::prelude::*;

verus! {

/// The size of a page in bytes.
pub const PAGE_SIZE: usize = 4096;
/// Address of the beginning of the allocatable region in the virtual memory.
pub const ALLOC_BEGIN: u64 = 0x40000000;
/// Address of the end of the virtual memory reserved to the process.
pub const PROCESS_END: u64 = 0x800000000000;
/// Address of the beginning of the kernelspace.
pub const KERNEL_BEGIN: u64 = 0xffff800000000000;
/// The size of the kernelspace virtual memory in bytes.
pub const KERNELSPACE_SIZE: u64 = 0x800000000000;

/// The kernelspace spans the virtual memory from [`KERNEL_BEGIN`] to the end of the address
/// space.
pub proof fn lemma_kernelspace_size()
    ensures
        KERNELSPACE_SIZE == u64::MAX - KERNEL_BEGIN + 1,
        PROCESS_END <= KERNEL_BEGIN,
{
}

/// The next multiple of `align` at or after `x`.
pub open spec fn next_multiple(x: int, align: int) -> int {
    if x % align == 0 {
        x
    } else {
        x + (align - x % align)
    }
}

/// An address on physical memory.
#[derive(Clone, Copy, Debug, Default, PartialEq, Eq, Structural)]
pub struct PhysAddr(pub u64);

/// An address on virtual memory.
#[derive(Clone, Copy, Debug, Default, PartialEq, Eq, Structural)]
pub struct VirtAddr(pub u64);

impl PhysAddr {
    /// Converts the kernel physical address to a virtual address.
    ///
    /// If the address is outside the kernelspace, the function returns `None`.
    pub fn kernel_to_virtual(self) -> (r: Option<VirtAddr>)
        ensures
            self.0 + KERNEL_BEGIN <= u64::MAX ==> r == Some(VirtAddr((self.0 + KERNEL_BEGIN) as u64)),
            self.0 + KERNEL_BEGIN > u64::MAX ==> r is None,
    {
        match self.0.checked_add(KERNEL_BEGIN) {
            Some(a) => Some(VirtAddr(a)),
            None => None,
        }
    }

    /// Tells whether the pointer is null.
    pub fn is_null(self) -> (b: bool)
        ensures
            b == (self.0 == 0),
    {
        self.0 == 0
    }

    /// Tells whether the pointer is aligned to `align`.
    pub fn is_aligned_to(self, align: u64) -> (b: bool)
        requires
            align > 0,
        ensures
            b == (self.0 % align == 0),
    {
        self.0 % align == 0
    }

    /// Computes and returns the next address to be aligned to `align`.
    ///
    /// If `self` is already aligned, the function returns `self`.
    pub fn align_to(self, align: u64) -> (r: Self)
        requires
            align > 0,
            next_multiple(self.0 as int, align as int) <= u64::MAX,
        ensures
            r.0 == next_multiple(self.0 as int, align as int),
    {
        PhysAddr(next_multiple_of(self.0, align))
    }

    /// Computes and returns the previous address to be aligned to `align`, which is a power of
    /// two.
    ///
    /// If `self` is already aligned, the function returns `self`.
    pub fn down_align_to(self, align: u64) -> (r: Self)
        requires
            align > 0,
        ensures
            r.0 == self.0 & !((align - 1) as u64),
    {
        PhysAddr(self.0 & !(align - 1))
    }

    /// Adds the given offset in bytes, wrapping on overflow.
    pub fn add_offset(self, off: u64) -> (r: Self)
        ensures
            r.0 == (self.0 + off) % (u64::MAX + 1),
    {
        PhysAddr(wrapping_add(self.0, off))
    }

    /// Subtracts the given offset in bytes, wrapping on overflow.
    pub fn sub_offset(self, off: u64) -> (r: Self)
        ensures
            r.0 == (self.0 - off) % (u64::MAX + 1),
    {
        PhysAddr(wrapping_sub(self.0, off))
    }
}

impl VirtAddr {
    /// Converts the kernel virtual address to a physical address.
    ///
    /// If the address is outside the kernelspace, the function returns `None`.
    pub fn kernel_to_physical(self) -> (r: Option<PhysAddr>)
        ensures
            self.0 >= KERNEL_BEGIN ==> r == Some(PhysAddr((self.0 - KERNEL_BEGIN) as u64)),
            self.0 < KERNEL_BEGIN ==> r is None,
    {
        match self.0.checked_sub(KERNEL_BEGIN) {
            Some(a) => Some(PhysAddr(a)),
            None => None,
        }
    }

    /// Tells whether the pointer is null.
    pub fn is_null(self) -> (b: bool)
        ensures
            b == (self.0 == 0),
    {
        self.0 == 0
    }

    /// Tells whether the pointer is aligned to `align`.
    pub fn is_aligned_to(self, align: u64) -> (b: bool)
        requires
            align > 0,
        ensures
            b == (self.0 % align == 0),
    {
        self.0 % align == 0
    }

    /// Computes and returns the next address to be aligned to `align`.
    ///
    /// If `self` is already aligned, the function returns `self`.
    pub fn align_to(self, align: u64) -> (r: Self)
        requires
            align > 0,
            next_multiple(self.0 as int, align as int) <= u64::MAX,
        ensures
            r.0 == next_multiple(self.0 as int, align as int),
    {
        VirtAddr(next_multiple_of(self.0, align))
    }

    /// Computes and returns the previous address to be aligned to `align`, which is a power of
    /// two.
    ///
    /// If `self` is already aligned, the function returns `self`.
    pub fn down_align_to(self, align: u64) -> (r: Self)
        requires
            align > 0,
        ensures
            r.0 == self.0 & !((align - 1) as u64),
    {
        VirtAddr(self.0 & !(align - 1))
    }

    /// Adds the given offset in bytes, wrapping on overflow.
    pub fn add_offset(self, off: u64) -> (r: Self)
        ensures
            r.0 == (self.0 + off) % (u64::MAX + 1),
    {
        VirtAddr(wrapping_add(self.0, off))
    }

    /// Subtracts the given offset in bytes, wrapping on overflow.
    pub fn sub_offset(self, off: u64) -> (r: Self)
        ensures
            r.0 == (self.0 - off) % (u64::MAX + 1),
    {
        VirtAddr(wrapping_sub(self.0, off))
    }
}

/// The next multiple of `align` at or after `x`.
fn next_multiple_of(x: u64, align: u64) -> (r: u64)
    requires
        align > 0,
        next_multiple(x as int, align as int) <= u64::MAX,
    ensures
        r == next_multiple(x as int, align as int),
{
    let rem = x % align;
    if rem == 0 {
        x
    } else {
        x + (align - rem)
    }
}

fn wrapping_add(a: u64, b: u64) -> (r: u64)
    ensures
        r == (a + b) % (u64::MAX + 1),
{
    if b <= u64::MAX - a {
        a + b
    } else {
        b - (u64::MAX - a) - 1
    }
}

fn wrapping_sub(a: u64, b: u64) -> (r: u64)
    ensures
        r == (a - b) % (u64::MAX + 1),
{
    if b <= a {
        a - b
    } else {
        u64::MAX - (b - a) + 1
    }
}

/// `next_multiple` is the least multiple of `align` that is not below `x`.
pub proof fn lemma_next_multiple(x: int, align: int)
    requires
        x >= 0,
        align > 0,
    ensures
        next_multiple(x, align) % align == 0,
        x <= next_multiple(x, align) < x + align,
{
    let r = x % align;
    if r != 0 {
        vstd::arithmetic::div_mod::lemma_fundamental_div_mod(x, align);
        let q = x / align;
        assert(x + (align - r) == (q + 1) * align) by (nonlinear_arith)
            requires
                x == align * q + r,
        ;
        vstd::arithmetic::div_mod::lemma_mod_multiples_basic(q + 1, align);
    }
}

/// Converting a physical address to the kernelspace and back gives the same address, and so
/// does converting a kernelspace virtual address to physical memory and back.
pub proof fn lemma_kernel_translation_round_trip(p: u64, v: u64)
    ensures
        p + KERNEL_BEGIN <= u64::MAX ==> ((p + KERNEL_BEGIN) as u64) - KERNEL_BEGIN == p,
        v >= KERNEL_BEGIN ==> ((v - KERNEL_BEGIN) as u64) + KERNEL_BEGIN == v,
{
}

} // verus!
