//! The IDT (Interrupt Descriptor Table) stores the list of interrupt handlers, and the per-CPU
//! callback list holds the kernel's handlers for each interrupt vector.
use crate::errno::AllocError;
use vstd::prelude::*;

verus! {

/// Makes the interrupt switch to ring 0.
pub const ID_PRIVILEGE_RING_0: u8 = 0b00000000;
/// Makes the interrupt switch to ring 1.
pub const ID_PRIVILEGE_RING_1: u8 = 0b00000010;
/// Makes the interrupt switch to ring 2.
pub const ID_PRIVILEGE_RING_2: u8 = 0b00000100;
/// Makes the interrupt switch to ring 3.
pub const ID_PRIVILEGE_RING_3: u8 = 0b00000110;
/// Flag telling that the interrupt is present.
pub const ID_PRESENT: u8 = 0b00000001;

/// The IDT vector index for system calls.
pub const SYSCALL_ENTRY: usize = 0x80;
/// The number of entries into the IDT.
pub const ENTRIES_COUNT: usize = 0x81;
/// The number of interrupt vectors reserved for hardware exceptions.
pub const HARDWARE_INT_COUNT: usize = 32;

/// An IDT entry.
#[derive(Clone, Copy, Debug)]
pub struct InterruptDescriptor {
    /// Bits 0..15 of the address to the handler for the interrupt.
    pub offset: u16,
    /// The code segment selector to execute the interrupt.
    pub selector: u16,
    /// Must be set to zero.
    pub zero: u8,
    /// Interrupt handler flags.
    pub flags: u8,
    /// Bits 16..31 of the address to the handler for the interrupt.
    pub offset_2: u16,
}

impl InterruptDescriptor {
    /// Returns a placeholder entry, made of zeros.
    pub fn placeholder() -> (d: Self)
        ensures
            d.offset == 0 && d.selector == 0 && d.zero == 0 && d.flags == 0 && d.offset_2 == 0,
    {
        InterruptDescriptor { offset: 0, selector: 0, zero: 0, flags: 0, offset_2: 0 }
    }

    /// Creates an IDT entry.
    ///
    /// Arguments:
    /// - `address` is the address of the handler.
    /// - `selector` is the segment selector to be used to handle the interrupt.
    /// - `flags` is the set of flags for the entry (see Intel documentation).
    pub fn new(address: u32, selector: u16, flags: u8) -> (d: Self)
        ensures
            d.offset == address % 0x10000,
            d.offset_2 == address / 0x10000,
            d.selector == selector,
            d.zero == 0,
            d.flags == flags,
    {
        let low = address & 0xffff;
        let high = (address & 0xffff0000) >> 16;
        assert(low == address % 0x10000 && high == address / 0x10000) by (bit_vector)
            requires
                low == address & 0xffff,
                high == (address & 0xffff0000) >> 16,
        ;
        InterruptDescriptor {
            offset: low as u16,
            selector,
            zero: 0,
            flags,
            offset_2: high as u16,
        }
    }

    /// The address of the handler held by the entry.
    pub open spec fn address(self) -> int {
        self.offset_2 * 0x10000 + self.offset
    }
}

/// An entry built from a handler's address gives back that address.
pub proof fn lemma_descriptor_address(address: u32, d: InterruptDescriptor)
    requires
        d.offset == address % 0x10000,
        d.offset_2 == address / 0x10000,
    ensures
        d.address() == address,
{
}

/// The code segment selector of the kernel, used by every IDT entry.
pub const KERNEL_CODE_SELECTOR: u16 = 0x8;
/// Entry flags of a ring-0 interrupt gate.
pub const INTERRUPT_GATE_FLAGS: u8 = 0x8e;
/// Entry flags of the system call gate, callable from ring 3.
pub const SYSCALL_GATE_FLAGS: u8 = 0xee;
/// The number of interrupt vectors of the PIC, after the hardware exceptions.
pub const PIC_INT_COUNT: usize = 16;

/// The entry that the IDT holds at vector `i`, given the addresses of the exception handlers,
/// of the PIC handlers and of the system call handler.
pub open spec fn idt_entry_spec(
    errors: Seq<u32>,
    irqs: Seq<u32>,
    syscall: u32,
    i: int,
) -> (u32, u16, u8) {
    if 0 <= i < HARDWARE_INT_COUNT {
        (errors[i], KERNEL_CODE_SELECTOR, INTERRUPT_GATE_FLAGS)
    } else if HARDWARE_INT_COUNT <= i < HARDWARE_INT_COUNT + PIC_INT_COUNT {
        (irqs[i - HARDWARE_INT_COUNT], KERNEL_CODE_SELECTOR, INTERRUPT_GATE_FLAGS)
    } else if i == SYSCALL_ENTRY {
        (syscall, KERNEL_CODE_SELECTOR, SYSCALL_GATE_FLAGS)
    } else {
        (0, 0, 0)
    }
}

/// The descriptor holds the handler address, selector and flags of `e`; a zero address with
/// zero selector and flags is the placeholder.
pub open spec fn descriptor_is(d: InterruptDescriptor, e: (u32, u16, u8)) -> bool {
    &&& d.offset == e.0 % 0x10000
    &&& d.offset_2 == e.0 / 0x10000
    &&& d.selector == e.1
    &&& d.zero == 0
    &&& d.flags == e.2
}

/// Fills the interrupt descriptor table: the hardware exceptions, the PIC interrupts and the
/// system call gate, every other vector holding a placeholder.
///
/// `errors` and `irqs` are the addresses of the handlers of the exceptions and of the PIC
/// interrupts, in vector order; `syscall` is the address of the system call handler.
pub fn build_idt(errors: &[u32; 32], irqs: &[u32; 16], syscall: u32) -> (entries: Vec<
    InterruptDescriptor,
>)
    ensures
        entries.len() == ENTRIES_COUNT,
        forall|i: int|
            0 <= i < ENTRIES_COUNT ==> descriptor_is(
                #[trigger] entries@[i],
                idt_entry_spec(errors@, irqs@, syscall, i),
            ),
{
    let mut entries: Vec<InterruptDescriptor> = Vec::new();
    let mut i: usize = 0;
    while i < ENTRIES_COUNT
        invariant
            i <= ENTRIES_COUNT,
            entries.len() == i,
            forall|j: int|
                0 <= j < i ==> descriptor_is(
                    #[trigger] entries@[j],
                    idt_entry_spec(errors@, irqs@, syscall, j),
                ),
        decreases ENTRIES_COUNT - i,
    {
        let d = if i < HARDWARE_INT_COUNT {
            InterruptDescriptor::new(errors[i], KERNEL_CODE_SELECTOR, INTERRUPT_GATE_FLAGS)
        } else if i < HARDWARE_INT_COUNT + PIC_INT_COUNT {
            InterruptDescriptor::new(
                irqs[i - HARDWARE_INT_COUNT],
                KERNEL_CODE_SELECTOR,
                INTERRUPT_GATE_FLAGS,
            )
        } else if i == SYSCALL_ENTRY {
            InterruptDescriptor::new(syscall, KERNEL_CODE_SELECTOR, SYSCALL_GATE_FLAGS)
        } else {
            InterruptDescriptor::placeholder()
        };
        entries.push(d);
        i += 1;
    }
    entries
}

/// Registered interrupt handle.
///
/// Dropping this structure does **not** unregister the interrupt handler.
#[derive(Debug)]
pub struct CallbackHandle {
    /// The CPU core the callback is bound to
    cpu: u32,
    /// The ID of the interrupt the callback is bound to
    id: u32,
}

impl CallbackHandle {
    /// The CPU core the callback is bound to.
    pub closed spec fn cpu_spec(&self) -> u32 {
        self.cpu
    }

    /// The ID of the interrupt the callback is bound to.
    pub closed spec fn id_spec(&self) -> u32 {
        self.id
    }

    /// Returns the ID of the interrupt.
    pub fn id(&self) -> (id: u32)
        ensures
            id == self.id_spec(),
    {
        self.id
    }

    /// Returns the CPU core the callback is bound to.
    pub fn cpu(&self) -> (c: u32)
        ensures
            c == self.cpu_spec(),
    {
        self.cpu
    }

    /// Unregisters the interrupt handler from `callbacks`, the callback list of the handle's CPU
    /// core.
    pub fn unregister<C>(self, callbacks: &mut CallbackList<C>)
        requires
            old(callbacks).wf(),
        ensures
            final(callbacks).wf(),
            self.id_spec() < ENTRIES_COUNT ==> final(callbacks).slots() == old(
                callbacks,
            ).slots().update(self.id_spec() as int, None),
            self.id_spec() >= ENTRIES_COUNT ==> final(callbacks).slots() == old(callbacks).slots(),
    {
        let id = self.id as usize;
        if id < callbacks.slots.len() {
            callbacks.slots.set(id, None);
        }
    }
}

/// Per-CPU callback list: at most one callback for each interrupt vector.
pub struct CallbackList<C> {
    slots: Vec<Option<C>>,
}

impl<C> CallbackList<C> {
    /// The callbacks of the list, by interrupt vector.
    pub closed spec fn slots(&self) -> Seq<Option<C>> {
        self.slots@
    }

    /// The list has a slot for each interrupt vector.
    pub open spec fn wf(&self) -> bool {
        self.slots().len() == ENTRIES_COUNT
    }

    /// Creates a list without any callback.
    pub fn new() -> (l: Self)
        ensures
            l.wf(),
            forall|i: int| 0 <= i < ENTRIES_COUNT ==> l.slots()[i] is None,
    {
        let mut slots: Vec<Option<C>> = Vec::new();
        let mut i: usize = 0;
        while i < ENTRIES_COUNT
            invariant
                i <= ENTRIES_COUNT,
                slots@.len() == i,
                forall|j: int| 0 <= j < i ==> slots@[j] is None,
            decreases ENTRIES_COUNT - i,
        {
            slots.push(None);
            i += 1;
        }
        CallbackList { slots }
    }

    /// Returns the callback registered for the interrupt `id`, if any.
    pub fn get(&self, id: u32) -> (c: Option<&C>)
        requires
            self.wf(),
        ensures
            (id as int) < ENTRIES_COUNT && self.slots()[id as int] is Some ==> c == Some(
                &self.slots()[id as int]->Some_0,
            ),
            !((id as int) < ENTRIES_COUNT && self.slots()[id as int] is Some) ==> c is None,
    {
        let id = id as usize;
        if id < self.slots.len() {
            match &self.slots[id] {
                Some(c) => Some(c),
                None => None,
            }
        } else {
            None
        }
    }

    /// Registers a callback for the interrupt ID `id`, on the CPU core `cpu` whose list this is.
    /// The callback replaces any callback previously registered for the ID.
    ///
    /// If the provided ID is invalid, the function returns `None`.
    pub fn register_callback(&mut self, id: u32, callback: C, cpu: u32) -> (h: Option<
        CallbackHandle,
    >)
        requires
            old(self).wf(),
        ensures
            final(self).wf(),
            (id as int) < ENTRIES_COUNT ==> (h matches Some(h) && h.id_spec() == id && h.cpu_spec()
                == cpu && final(self).slots() == old(self).slots().update(
                id as int,
                Some(callback),
            )),
            (id as int) >= ENTRIES_COUNT ==> h is None && final(self).slots() == old(
                self,
            ).slots(),
    {
        let i = id as usize;
        if i >= self.slots.len() {
            return None;
        }
        self.slots.set(i, Some(callback));
        Some(CallbackHandle { cpu, id })
    }

    /// Registers a callback on the first free interrupt ID that is not reserved for hardware
    /// exceptions, on the CPU core `cpu` whose list this is.
    ///
    /// If no ID is available, the function returns [`AllocError`].
    pub fn alloc_callback(&mut self, callback: C, cpu: u32) -> (r: Result<CallbackHandle, AllocError>)
        requires
            old(self).wf(),
        ensures
            final(self).wf(),
            match r {
                Ok(h) => {
                    let id = h.id_spec() as int;
                    &&& HARDWARE_INT_COUNT <= id < ENTRIES_COUNT
                    &&& h.cpu_spec() == cpu
                    &&& old(self).slots()[id] is None
                    &&& forall|j: int|
                        HARDWARE_INT_COUNT <= j < id ==> old(self).slots()[j] is Some
                    &&& final(self).slots() == old(self).slots().update(id, Some(callback))
                },
                Err(_) => {
                    &&& forall|j: int|
                        HARDWARE_INT_COUNT <= j < ENTRIES_COUNT ==> old(self).slots()[j] is Some
                    &&& final(self).slots() == old(self).slots()
                },
            },
    {
        let mut i: usize = HARDWARE_INT_COUNT;
        while i < self.slots.len()
            invariant
                self.slots@.len() == ENTRIES_COUNT,
                self.slots@ == old(self).slots@,
                HARDWARE_INT_COUNT <= i <= ENTRIES_COUNT,
                forall|j: int| HARDWARE_INT_COUNT <= j < i ==> self.slots@[j] is Some,
            decreases ENTRIES_COUNT - i,
        {
            if self.slots[i].is_none() {
                self.slots.set(i, Some(callback));
                return Ok(CallbackHandle { cpu, id: i as u32 });
            }
            i += 1;
        }
        Err(AllocError)
    }
}

/// What the kernel does on an interruption, decided from the interrupt frame.
#[derive(Clone, Copy, Debug)]
pub struct InterruptPlan {
    /// The ID of the interrupt, which selects the callback to run.
    pub id: u32,
    /// The error code of the interrupt, zero if none.
    pub code: u32,
    /// The ring at which the code was running.
    pub ring: u8,
    /// Whether the frame is fed to the entropy pool (every interrupt but page faults).
    pub feed_entropy: bool,
    /// The IRQ to acknowledge with an end of interrupt, for interrupts that are not hardware
    /// exceptions.
    pub end_of_interrupt: Option<u32>,
}

/// The ID of the page fault exception.
pub const PAGE_FAULT: u32 = 0xe;

/// Decides how to handle the interruption `vector`, raised with the error code `code` while the
/// code segment selector was `cs`.
pub fn interrupt_plan(vector: u32, code: u32, cs: u32) -> (p: InterruptPlan)
    ensures
        p.id == vector,
        p.code == code,
        p.ring == cs % 4,
        p.feed_entropy == (vector != PAGE_FAULT),
        vector >= 32 ==> p.end_of_interrupt == Some((vector - 32) as u32),
        vector < 32 ==> p.end_of_interrupt is None,
{
    let ring = (cs & 0b11) as u8;
    assert(cs & 0b11 == cs % 4) by (bit_vector);
    let end_of_interrupt = if vector >= 32 {
        Some(vector - 32)
    } else {
        None
    };
    InterruptPlan { id: vector, code, ring, feed_entropy: vector != PAGE_FAULT, end_of_interrupt }
}

} // verus!
