use rvkernel::kalloc::pagealloc::{AllPages, PageAllocer, page_init};
use rvkernel::kalloc::pages::{PPageNum, PageTableEntry};
use rvkernel::kalloc::{heap_bounds, HEAP_SIZE, MIN_HEAP};
use rvkernel::memlayout::PHYSTOP;

const LAST: usize = (PHYSTOP - 100 * 4096) / 4096;

#[test]
fn bump_then_free_stack() {
    let mut a = AllPages::new();
    a.init(0x8030_0001);
    let p1 = a.alloc_page();
    let p2 = a.alloc_page();
    assert_eq!(p1.0, 0x80301);
    assert_eq!(p2.0, 0x80302);
    a.dealloc(p1);
    let p3 = a.alloc_page();
    assert_eq!(p3.0, 0x80301);
    let p4 = a.alloc_page();
    assert_eq!(p4.0, 0x80303);
}

#[test]
fn freed_pages_come_back_last_first() {
    let mut a = AllPages::new();
    a.init(0x8030_0000);
    let p1 = a.alloc_page();
    let p2 = a.alloc_page();
    a.dealloc(p1);
    a.dealloc(p2);
    assert_eq!(a.alloc_page(), p2);
    assert_eq!(a.alloc_page(), p1);
}

#[test]
fn shared_page_freed_by_last_handle() {
    let mut a = AllPages::new();
    a.init(0x8030_0000);
    let p = a.alloc_page();
    a.share(p);
    a.dealloc(p);
    // One handle is still out: the page is not handed out again.
    let q = a.alloc_page();
    assert_ne!(q, p);
    a.dealloc(p);
    assert_eq!(a.alloc_page(), p);
}

#[test]
fn dealloc_of_unknown_page_changes_nothing() {
    let mut a = AllPages::new();
    a.init(0x8030_0000);
    a.dealloc(PPageNum(0x80000));
    assert_eq!(a.alloc_page().0, 0x80300);
}

#[test]
fn init_sets_the_range() {
    let mut a = AllPages::new();
    a.init((LAST - 1) * 4096);
    assert_eq!(a.alloc_page().0, LAST - 1);
}

#[test]
fn page_allocer_alloc_zeroes_page() {
    let mut a = PageAllocer::new();
    page_init(&mut a, 0x8030_0000);
    let g = a.alloc_page();
    assert_eq!(g.ppn().0, 0x80300);
    assert_eq!(a.mem().read(0x80300, 17), PageTableEntry(0));
    a.write_pte(0x80300, 17, PageTableEntry(9));
    let h = a.clone_gurd(&g);
    a.dealloc(g);
    a.dealloc(h);
    let g2 = a.alloc_page();
    assert_eq!(g2.ppn().0, 0x80300);
    assert_eq!(a.mem().read(0x80300, 17), PageTableEntry(0));
}

#[test]
fn heap_bounds_align_to_min_heap() {
    let (start, size) = heap_bounds(0x1000);
    assert_eq!(start, 0x8000);
    assert_eq!(start + size, (0x1000 + HEAP_SIZE) / MIN_HEAP * MIN_HEAP);
    assert_eq!(size % MIN_HEAP, 0);
    let (s2, z2) = heap_bounds(0x10000);
    assert_eq!(s2, 0x10000);
    assert_eq!(z2, HEAP_SIZE);
}

#[test]
fn available_counts_free_stack_and_bump_pointer() {
    let mut a = AllPages::new();
    assert!(a.available(0));
    assert!(!a.available(1));
    a.init((LAST - 2) * 4096);
    assert!(a.available(2));
    assert!(!a.available(3));
    let p = a.alloc_page();
    let q = a.alloc_page();
    assert!(!a.available(1));
    a.dealloc(p);
    a.dealloc(q);
    // The bump pointer has reached its end: even the free stack cannot serve.
    assert!(!a.available(1));
    let mut b = PageAllocer::new();
    page_init(&mut b, (LAST - 3) * 4096);
    assert!(b.available(3));
    assert!(!b.available(4));
}
