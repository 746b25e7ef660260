//! Physical memory layout of the machine.
use vstd::prelude::*;

verus! {

/// Where the kernel is loaded.
pub const KERNBASE: usize = 0x80200000;

/// End of usable physical memory: 128 MiB of RAM starting 2 MiB below the
/// kernel.
pub const PHYSTOP: usize = KERNBASE + 128 * 1024 * 1024 - 0x00200000;

/// One past the highest virtual address: one bit less than Sv39 offers, to
/// avoid sign extension. Kept as a 64-bit value: it does not fit a 32-bit word.
pub const MAXVA: u64 = 0x40_0000_0000;

} // verus!
