//! Physical memory: page numbers, page table entries, the page allocator,
//! and the bounds of the kernel heap.
use vstd::prelude::*;
use crate::riscv::PGSIZE;

pub mod pages;
pub mod pagealloc;

verus! {

/// The heap's start and size are multiples of this.
pub const MIN_HEAP: usize = PGSIZE * 8;

/// The size of the space set aside for the heap.
pub const HEAP_SIZE: usize = 0x600_000;

/// The part of the heap space that starts at `space` which the heap
/// allocator gets: its start and its size, both aligned to `MIN_HEAP`.
/// The range fits inside the space, starts on a page boundary, and is a
/// non-zero multiple of `MIN_HEAP`, as the heap allocator asks.
pub fn heap_bounds(space: usize) -> (r: (usize, usize))
    requires
        space + HEAP_SIZE <= usize::MAX,
    ensures
        r.0 as int == (space as int + MIN_HEAP - 1) / (MIN_HEAP as int) * (MIN_HEAP as int),
        r.0 + r.1 == (space + HEAP_SIZE) as int / (MIN_HEAP as int) * (MIN_HEAP as int),
        space <= r.0,
        r.0 + r.1 <= space + HEAP_SIZE,
        r.0 % 4096 == 0,
        r.1 as int % (MIN_HEAP as int) == 0,
        r.1 >= MIN_HEAP,
{
    let mut heap_start = space;
    let heap_end = (heap_start + HEAP_SIZE) & !(MIN_HEAP - 1);
    let e = heap_start + HEAP_SIZE;
    assert(e & !32767usize == e - e % 32768) by (bit_vector);
    heap_start = (heap_start + (MIN_HEAP - 1)) / MIN_HEAP * MIN_HEAP;
    let heap_size = heap_end - heap_start;
    (heap_start, heap_size)
}

} // verus!
