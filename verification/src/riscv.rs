//! Architecture constants and helpers for RISC-V Sv39.
use vstd::prelude::*;

verus! {

/// Size of a page in bytes.
pub const PGSIZE: usize = 4096;

/// Number of offset bits within a page.
pub const PGSHIFT: usize = 12;

/// Sv39 address widths.
pub const PA_WIDTH: usize = 56;
pub const VA_WIDTH: usize = 39;

/// Page table entry flag bits.
pub const PTE_V: usize = 1;
pub const PTE_R: usize = 2;
pub const PTE_W: usize = 4;
pub const PTE_X: usize = 8;
pub const PTE_U: usize = 16;

/// The page that holds address `a`, as the address of its first byte.
pub open spec fn spec_pgrounddown(a: int) -> int {
    a - a % (PGSIZE as int)
}

/// The first page boundary at or above `a`.
pub open spec fn spec_pgroundup(a: int) -> int {
    spec_pgrounddown(a + (PGSIZE - 1))
}

/// Rounds `a` down to a page boundary.
pub fn pgrounddown(a: usize) -> (r: usize)
    ensures
        r == spec_pgrounddown(a as int),
{
    let r = a & !(PGSIZE - 1);
    assert(a & !4095usize == a - a % 4096) by (bit_vector);
    r
}

/// Rounds `a` up to a page boundary.
pub fn pgroundup(a: usize) -> (r: usize)
    requires
        a + PGSIZE - 1 <= usize::MAX,
    ensures
        r == spec_pgroundup(a as int),
{
    pgrounddown(a + (PGSIZE - 1))
}

} // verus!
