use rvkernel::kalloc::pagealloc::{PageAllocer, page_init};
use rvkernel::kalloc::pages::{PAddress, VAddress, PageTableEntry};
use rvkernel::memlayout::{KERNBASE, PHYSTOP};
use rvkernel::riscv::{PTE_R, PTE_W, PTE_X, PTE_V};
use rvkernel::vm::{get_idx, k_init, Kvm, VMError};

const LAST: usize = (PHYSTOP - 100 * 4096) / 4096;

fn allocator(pages: usize) -> PageAllocer {
    let mut a = PageAllocer::new();
    page_init(&mut a, (LAST - pages) * 4096);
    a
}

fn leaf(kvm: &mut Kvm, a: &mut PageAllocer, va: usize) -> Result<PageTableEntry, VMError> {
    let (t, i) = kvm.walk(a, va, false, 0)?;
    Ok(a.mem().read(t.0, i))
}

#[test]
fn get_idx_splits_the_page_number() {
    let va = (5 << 30) | (7 << 21) | (9 << 12) | 0x123;
    assert_eq!(get_idx(va, 0), 9);
    assert_eq!(get_idx(va, 1), 7);
    assert_eq!(get_idx(va, 2), 5);
}

#[test]
fn walk_without_alloc_on_empty_table_fails() {
    let mut a = allocator(8);
    let mut kvm = Kvm::new(&mut a);
    assert!(kvm.walk(&mut a, 0x1000, false, 0) == Err(VMError::NotAlloc));
}

#[test]
fn walk_with_alloc_makes_two_tables() {
    let mut a = allocator(8);
    let mut kvm = Kvm::new(&mut a);
    let (t, i) = kvm.walk(&mut a, 0x4000_3000, true, 0).unwrap();
    assert_eq!(i, 3);
    // The root came first, then the level-1 table, then the level-0 table.
    assert_eq!(t.0, LAST - 8 + 2);
    // A second walk finds the same entry without allocating.
    let (t2, i2) = kvm.walk(&mut a, 0x4000_3abc, false, 0).unwrap();
    assert_eq!((t2, i2), (t, i));
    assert_eq!(a.alloc_page().ppn().0, LAST - 8 + 3);
}

#[test]
fn mappages_then_walk_reads_back() {
    let mut a = allocator(8);
    let mut kvm = Kvm::new(&mut a);
    let r = kvm.mappages(&mut a, VAddress(0x1000_0800), PAddress(0x8800_0000), 0x2000, PTE_R | PTE_W);
    assert!(r == Ok(()));
    // Pages 0x10000, 0x10001 and 0x10002 are mapped (the range is unaligned).
    for k in 0..3usize {
        let e = leaf(&mut kvm, &mut a, 0x1000_0000 + k * 4096).unwrap();
        assert_eq!(e.to_pa().0, 0x8800_0000 + k * 4096);
        assert_eq!(e.flags(), PTE_R | PTE_W | PTE_V);
    }
    let next = leaf(&mut kvm, &mut a, 0x1000_3000).unwrap();
    assert!(!next.is_v());
    assert!(leaf(&mut kvm, &mut a, 0x2000_0000) == Err(VMError::NotAlloc));
}

#[test]
fn mappages_across_a_level0_boundary() {
    let mut a = allocator(8);
    let mut kvm = Kvm::new(&mut a);
    let va = 0x20_0000 - 0x1000;
    assert!(kvm.mappages(&mut a, VAddress(va), PAddress(0x9000), 0x2000, PTE_R) == Ok(()));
    let e0 = leaf(&mut kvm, &mut a, va).unwrap();
    let e1 = leaf(&mut kvm, &mut a, va + 0x1000).unwrap();
    assert_eq!(e0.to_pa().0, 0x9000);
    assert_eq!(e1.to_pa().0, 0xa000);
    // Root, one level-1 table and two level-0 tables.
    assert_eq!(a.alloc_page().ppn().0, LAST - 8 + 4);
}

#[test]
fn kernel_table_maps_memory_onto_itself() {
    let mut a = allocator(70);
    let etext = KERNBASE + 0x10_0000;
    let mut kvm = k_init(&mut a, etext);
    for va in [KERNBASE, etext - 4096, etext, PHYSTOP - 4096] {
        let e = leaf(&mut kvm, &mut a, va).unwrap();
        assert_eq!(e.to_pa().0, va);
        assert_eq!(e.flags(), PTE_R | PTE_W | PTE_X | PTE_V);
    }
    assert!(leaf(&mut kvm, &mut a, 0x1000) == Err(VMError::NotAlloc));
    assert!(leaf(&mut kvm, &mut a, KERNBASE - 4096) == Err(VMError::NotAlloc));
    assert!(leaf(&mut kvm, &mut a, PHYSTOP) == Err(VMError::NotAlloc));
    // 65 pages went to the table.
    assert_eq!(a.alloc_page().ppn().0, LAST - 70 + 65);
}

#[test]
fn satp_selects_sv39_and_the_root() {
    let mut a = allocator(8);
    let kvm = Kvm::new(&mut a);
    assert_eq!(kvm.as_satp(), (8usize << 60) | (LAST - 8));
}

#[test]
fn one_byte_at_the_top_of_the_address_space() {
    let mut a = allocator(8);
    let mut kvm = Kvm::new(&mut a);
    let top = 1usize << 38;
    assert!(kvm.mappages(&mut a, VAddress(top), PAddress(0x5000), 1, PTE_W) == Ok(()));
    let e = leaf(&mut kvm, &mut a, top).unwrap();
    assert_eq!(e.to_pa().0, 0x5000);
    assert_eq!(e.flags(), PTE_W | PTE_V);
    assert!(leaf(&mut kvm, &mut a, top - 4096) == Err(VMError::NotAlloc));
}
