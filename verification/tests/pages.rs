use rvkernel::kalloc::pages::{PAddress, VAddress, PPageNum, VPageNum, PageTableEntry, PhysMem};
use rvkernel::riscv::{pgrounddown, pgroundup, PTE_V, PTE_R, PTE_W, PTE_X};

#[test]
fn paddress_from_keeps_low_56_bits() {
    assert_eq!(PAddress::from(0x8020_1234usize).0, 0x8020_1234);
    assert_eq!(PAddress::from(0xff00_0000_0000_1000usize).0, 0x1000);
    assert_eq!(usize::from(PAddress(0x42)), 0x42);
}

#[test]
fn vaddress_from_keeps_low_39_bits() {
    assert_eq!(VAddress::from(0x1234usize).0, 0x1234);
    assert_eq!(VAddress::from(0x80_0000_1000usize).0, 0x1000);
    assert_eq!(usize::from(VAddress(0x99)), 0x99);
}

#[test]
fn page_numbers_round_down() {
    assert_eq!(PPageNum::from(0x8020_0fffusize).0, 0x80200);
    assert_eq!(PPageNum::from(PAddress(0x8020_1000)).0, 0x80201);
    assert_eq!(VPageNum::from(VAddress(0x3fff)).0, 3);
}

#[test]
fn page_rounding() {
    assert_eq!(pgrounddown(0x1fff), 0x1000);
    assert_eq!(pgrounddown(0x2000), 0x2000);
    assert_eq!(pgroundup(0x1001), 0x2000);
    assert_eq!(pgroundup(0x2000), 0x2000);
    assert_eq!(pgroundup(0), 0);
}

#[test]
fn ppn_to_pa_and_add_one() {
    assert_eq!(PPageNum(0x80200).to_pa().0, 0x8020_0000);
    assert_eq!(PPageNum(7).add_one().0, 8);
}

#[test]
fn pte_encode_and_decode() {
    let mut e = PageTableEntry(0);
    assert!(!e.is_v());
    e.set(0x8020_3456, PTE_R | PTE_W | PTE_X | PTE_V);
    assert_eq!(e.0, (0x80203 << 10) | 0xf);
    assert!(e.is_v());
    assert_eq!(e.flags(), 0xf);
    assert_eq!(e.to_pa().0, 0x8020_3000);
}

#[test]
fn pte_flags_keep_ten_bits() {
    let e = PageTableEntry(0xffff);
    assert_eq!(e.flags(), 0x3ff);
    assert!(e.is_v());
    assert!(!PageTableEntry(0x400).is_v());
}

#[test]
fn phys_mem_zero_read_write() {
    let mut m = PhysMem::new();
    assert!(!m.has_frame(5));
    m.zero_page(5);
    assert!(m.has_frame(5));
    assert_eq!(m.read(5, 0), PageTableEntry(0));
    assert_eq!(m.read(5, 511), PageTableEntry(0));
    m.write(5, 3, PageTableEntry(0x41));
    assert_eq!(m.read(5, 3), PageTableEntry(0x41));
    assert_eq!(m.read(5, 4), PageTableEntry(0));
    assert_eq!(PPageNum(5).get_pte_array(&m).len(), 512);
    assert_eq!(PAddress(5 * 4096).get_pte_array(&m)[3], PageTableEntry(0x41));
    m.zero_page(5);
    assert_eq!(m.read(5, 3), PageTableEntry(0));
}

#[test]
fn page_address_round_trip() {
    let p = PPageNum(0x80200);
    assert_eq!(p.to_pa(), PAddress(0x8020_0000));
    assert_eq!(PPageNum::from(p.to_pa()), p);
    let q = PPageNum(0x87d9b);
    assert_eq!(PPageNum::from(q.to_pa()), q);
}
