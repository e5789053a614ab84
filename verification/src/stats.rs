//! Statistics about memory usage.
use crate::procfs::{append, decimal, write_decimal};
use vstd::prelude::*;
use vstd::string::*;

verus! {

/// Stores memory usage information. Each field is in KiB.
#[derive(Clone, Copy, Debug)]
pub struct MemInfo {
    /// The total amount of memory on the system.
    pub mem_total: usize,
    /// The total amount of free physical memory.
    pub mem_free: usize,
    /// The total amount of free + reclaimable memory.
    pub mem_available: usize,
    /// The total amount of active (mapped) memory.
    pub active: usize,
    /// The total amount of inactive (not mapped but cached) memory.
    pub inactive: usize,
}

/// The text describing the memory usage `m`, one line per field.
pub open spec fn meminfo_text(m: MemInfo) -> Seq<u8> {
    "MemTotal: ".spec_bytes() + decimal(m.mem_total as nat) + " kB\nMemFree: ".spec_bytes() + decimal(
        m.mem_free as nat,
    ) + " kB\nMemAvailable: ".spec_bytes() + decimal(m.mem_available as nat) + " kB\nActive: ".spec_bytes()
        + decimal(m.active as nat) + " kB\nInactive: ".spec_bytes() + decimal(m.inactive as nat)
        + " kB\n".spec_bytes()
}

impl MemInfo {
    /// The memory usage at boot: all null.
    pub fn new() -> (m: Self)
        ensures
            m.mem_total == 0 && m.mem_free == 0 && m.mem_available == 0 && m.active == 0 && m.inactive == 0,
    {
        MemInfo { mem_total: 0, mem_free: 0, mem_available: 0, active: 0, inactive: 0 }
    }

    /// Returns the text describing the memory usage: see [`meminfo_text`].
    pub fn to_text(&self) -> (v: Vec<u8>)
        ensures
            v@ == meminfo_text(*self),
    {
        let mut v: Vec<u8> = Vec::new();
        append(&mut v, "MemTotal: ".as_bytes());
        write_decimal(&mut v, self.mem_total as u64);
        append(&mut v, " kB\nMemFree: ".as_bytes());
        write_decimal(&mut v, self.mem_free as u64);
        append(&mut v, " kB\nMemAvailable: ".as_bytes());
        write_decimal(&mut v, self.mem_available as u64);
        append(&mut v, " kB\nActive: ".as_bytes());
        write_decimal(&mut v, self.active as u64);
        append(&mut v, " kB\nInactive: ".as_bytes());
        write_decimal(&mut v, self.inactive as u64);
        append(&mut v, " kB\n".as_bytes());
        assert(v@ =~= meminfo_text(*self));
        v
    }
}

} // verus!
