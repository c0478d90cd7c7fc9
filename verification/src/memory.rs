use vstd::prelude::*;

verus! {

/// The memory budget shown to the user, in bytes.
pub const MEMORY_LIMIT: u64 = 4096 * 1024 * 1024;

/// Process memory use against the fixed budget, both in whole mebibytes.
/// Reading the process's memory is an outside collaborator's job; this type
/// does the unit conversion.
#[derive(Clone, Copy, Debug, PartialEq, Eq, Structural)]
pub struct MemoryUsage {
    pub used_memory: u64,
    pub memory_limit: u64,
}

impl MemoryUsage {
    /// Usage from the process's reported memory in kibibytes.
    pub fn from_process_kib(kib: u64) -> (r: MemoryUsage)
        ensures
            r.used_memory == kib / 1024,
            r.memory_limit == 4096,
    {
        MemoryUsage { used_memory: kib / 1024, memory_limit: 4096 }
    }

    /// Usage when the process's memory cannot be read: zero used, same
    /// budget.
    pub fn unavailable() -> (r: MemoryUsage)
        ensures
            r.used_memory == 0,
            r.memory_limit == 4096,
    {
        MemoryUsage { used_memory: 0, memory_limit: 4096 }
    }
}

} // verus!
