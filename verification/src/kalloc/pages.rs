//! Address and page-number types, the Sv39 page table entry, and the model of
//! physical page frames that page tables live in.
use vstd::prelude::*;
use std::collections::BTreeMap;
use vstd::std_specs::convert::FromSpecImpl;
use crate::riscv::{pgrounddown, PGSIZE, PTE_V};

verus! {

/// 2^56: the size of the Sv39 physical address space.
pub open spec fn pa_space() -> int {
    0x100_0000_0000_0000
}

/// 2^39: the size of the Sv39 virtual address space.
pub open spec fn va_space() -> int {
    0x80_0000_0000
}

#[derive(Clone, Copy, PartialEq, Eq, Structural, PartialOrd, Ord, Debug)]
pub struct PAddress(pub usize);

#[derive(Clone, Copy, PartialEq, Eq, Structural, PartialOrd, Ord, Debug)]
pub struct VAddress(pub usize);

#[derive(Clone, Copy, PartialEq, Eq, Structural, PartialOrd, Ord, Debug)]
pub struct PPageNum(pub usize);

#[derive(Clone, Copy, PartialEq, Eq, Structural, PartialOrd, Ord, Debug)]
pub struct VPageNum(pub usize);

#[derive(Clone, Copy, PartialEq, Eq, Structural, PartialOrd, Ord, Debug)]
pub struct PageTableEntry(pub usize);

/// Keeps the low 56 bits of `value`.
fn mask_pa(value: usize) -> (r: usize)
    ensures
        r == value as int % pa_space(),
{
    let w = value as u64;
    let m = w & 0x00ff_ffff_ffff_ffffu64;
    assert(w & 0x00ff_ffff_ffff_ffffu64 == w % 0x100_0000_0000_0000u64) by (bit_vector);
    m as usize
}

/// Keeps the low 39 bits of `value`.
fn mask_va(value: usize) -> (r: usize)
    ensures
        r == value as int % va_space(),
{
    let w = value as u64;
    let m = w & 0x7f_ffff_ffffu64;
    assert(w & 0x7f_ffff_ffffu64 == w % 0x80_0000_0000u64) by (bit_vector);
    m as usize
}

impl From<usize> for PAddress {
    fn from(value: usize) -> (r: Self) {
        PAddress(mask_pa(value))
    }
}

impl FromSpecImpl<usize> for PAddress {
    open spec fn obeys_from_spec() -> bool {
        true
    }

    open spec fn from_spec(v: usize) -> Self {
        PAddress((v as int % pa_space()) as usize)
    }
}

impl From<PAddress> for usize {
    fn from(value: PAddress) -> (r: Self) {
        value.0
    }
}

impl FromSpecImpl<PAddress> for usize {
    open spec fn obeys_from_spec() -> bool {
        true
    }

    open spec fn from_spec(v: PAddress) -> usize {
        v.0
    }
}

impl From<usize> for VAddress {
    fn from(value: usize) -> (r: Self) {
        VAddress(mask_va(value))
    }
}

impl FromSpecImpl<usize> for VAddress {
    open spec fn obeys_from_spec() -> bool {
        true
    }

    open spec fn from_spec(v: usize) -> Self {
        VAddress((v as int % va_space()) as usize)
    }
}

impl From<VAddress> for usize {
    fn from(value: VAddress) -> (r: Self) {
        value.0
    }
}

impl FromSpecImpl<VAddress> for usize {
    open spec fn obeys_from_spec() -> bool {
        true
    }

    open spec fn from_spec(v: VAddress) -> usize {
        v.0
    }
}

impl From<PAddress> for PPageNum {
    fn from(value: PAddress) -> (r: Self) {
        PPageNum(pgrounddown(value.0) / PGSIZE)
    }
}

impl FromSpecImpl<PAddress> for PPageNum {
    open spec fn obeys_from_spec() -> bool {
        true
    }

    open spec fn from_spec(v: PAddress) -> Self {
        PPageNum(v.0 / 4096)
    }
}

impl From<VAddress> for VPageNum {
    fn from(value: VAddress) -> (r: Self) {
        VPageNum(pgrounddown(value.0) / PGSIZE)
    }
}

impl FromSpecImpl<VAddress> for VPageNum {
    open spec fn obeys_from_spec() -> bool {
        true
    }

    open spec fn from_spec(v: VAddress) -> Self {
        VPageNum(v.0 / 4096)
    }
}

impl From<usize> for PPageNum {
    fn from(value: usize) -> (r: Self) {
        PPageNum(pgrounddown(value) / PGSIZE)
    }
}

impl FromSpecImpl<usize> for PPageNum {
    open spec fn obeys_from_spec() -> bool {
        true
    }

    open spec fn from_spec(v: usize) -> Self {
        PPageNum(v / 4096)
    }
}


/// The Sv39 encoding of a page table entry that points at physical address
/// `pa` with permission bits `prem`: the page number of `pa` in bits 10..,
/// the permission bits below.
pub open spec fn spec_pte_encode(pa: usize, prem: usize) -> usize {
    ((pa >> 12usize) << 10usize) | prem
}

/// Whether the valid bit of entry `e` is set.
pub open spec fn spec_pte_valid(e: usize) -> bool {
    e % 2 == 1
}

/// The low ten flag bits of entry `e`.
pub open spec fn spec_pte_flags(e: usize) -> usize {
    (e % 1024) as usize
}

/// The physical address that entry `e` points at.
pub open spec fn spec_pte_pa(e: usize) -> usize {
    (((e >> 10usize) << 12usize) as int % pa_space()) as usize
}

/// The page that holds physical address `a` once cut to the Sv39 width.
pub open spec fn spec_pa_page(a: usize) -> usize {
    ((a as int % pa_space()) / 4096) as usize
}

/// The physical page number that entry `e` points at.
pub open spec fn spec_pte_ppn(e: usize) -> usize {
    spec_pte_pa(e) / 4096
}

impl PPageNum {
    /// The physical address of the first byte of this page.
    pub fn to_pa(self) -> (r: PAddress)
        requires
            self.0 * 4096 <= usize::MAX,
        ensures
            r.0 == (self.0 * 4096) as int % pa_space(),
    {
        let a: PAddress = PAddress::from(self.0 * PGSIZE);
        a
    }

    /// The next page.
    pub fn add_one(&self) -> (r: PPageNum)
        requires
            self.0 < usize::MAX,
        ensures
            r.0 == self.0 + 1,
    {
        PPageNum(self.0 + 1)
    }
}

/// A page whose first byte lies within the physical address width starts at
/// its number times the page size, and that address lies in the page again.
pub proof fn lemma_page_address_round_trip(p: PPageNum)
    requires
        p.0 * 4096 <= usize::MAX,
        p.0 * 4096 < pa_space(),
    ensures
        (p.0 * 4096) as int % pa_space() == p.0 * 4096,
        <PPageNum as vstd::std_specs::convert::FromSpec<PAddress>>::from_spec(PAddress((p.0 * 4096) as usize)) == p,
{
    let a = PAddress((p.0 * 4096) as usize);
    assert((p.0 * 4096) / 4096 == p.0) by (nonlinear_arith);
    assert(<PPageNum as vstd::std_specs::convert::FromSpec<PAddress>>::from_spec(a) == PPageNum(a.0 / 4096));
}

impl PageTableEntry {
    /// Points this entry at `pa` with permission bits `prem`.
    pub fn set(&mut self, pa: usize, prem: usize)
        ensures
            final(self).0 == spec_pte_encode(pa, prem),
    {
        self.0 = ((pa >> 12) << 10) | prem;
    }

    /// Whether the entry is valid.
    pub fn is_v(&self) -> (r: bool)
        ensures
            r == spec_pte_valid(self.0),
    {
        let e = self.0;
        assert(e & 1usize != 0 <==> e % 2 == 1) by (bit_vector);
        self.0 & PTE_V != 0
    }

    /// The permission and status bits of the entry.
    pub fn flags(&self) -> (r: usize)
        ensures
            r == spec_pte_flags(self.0),
    {
        let e = self.0;
        assert(e & 0x3FFusize == e % 1024) by (bit_vector);
        self.0 & 0x3FF
    }

    /// The physical address the entry points at.
    pub fn to_pa(&self) -> (r: PAddress)
        ensures
            r.0 == spec_pte_pa(self.0),
    {
        PAddress::from((self.0 >> 10) << 12)
    }
}

/// An entry written by `set(pa, prem)` gives back the permission bits it was
/// written with, points at the page that holds `pa`, and is valid exactly
/// when `prem` has the valid bit.
pub proof fn lemma_pte_encode_decode(pa: usize, prem: usize)
    requires
        prem < 1024,
        pa < pa_space(),
    ensures
        spec_pte_flags(spec_pte_encode(pa, prem)) == prem,
        spec_pte_pa(spec_pte_encode(pa, prem)) == pa - pa % 4096,
        spec_pte_ppn(spec_pte_encode(pa, prem)) == pa / 4096,
        spec_pte_valid(spec_pte_encode(pa, prem)) == (prem % 2 == 1),
{
    let e = spec_pte_encode(pa, prem);
    assert(e == ((pa >> 12usize) << 10usize) | prem);
    assert(prem < 1024 ==> (((pa >> 12usize) << 10usize) | prem) % 1024 == prem) by (bit_vector);
    assert(prem < 1024 ==> ((((pa >> 12usize) << 10usize) | prem) >> 10usize) << 12usize == pa
        - pa % 4096) by (bit_vector);
    assert(prem < 1024 ==> ((((pa >> 12usize) << 10usize) | prem) % 2 == 1 <==> prem % 2 == 1))
        by (bit_vector);
}


/// A frame of 512 zero entries.
pub open spec fn zero_frame() -> Seq<PageTableEntry> {
    Seq::new(512, |i: int| PageTableEntry(0))
}

/// The physical page frames that page tables live in, each seen as its 512
/// entries, by physical page number. A frame exists once a page has been
/// cleared for use.
pub struct PhysMem {
    frames: BTreeMap<usize, Vec<PageTableEntry>>,
}

impl View for PhysMem {
    type V = Map<usize, Seq<PageTableEntry>>;

    closed spec fn view(&self) -> Map<usize, Seq<PageTableEntry>> {
        Map::new(|p: usize| self.frames@.contains_key(p), |p: usize| self.frames@[p]@)
    }
}

impl PhysMem {
    /// Every frame holds 512 entries.
    pub open spec fn wf(&self) -> bool {
        forall|p: usize| #[trigger] self@.contains_key(p) ==> self@[p].len() == 512
    }

    /// Memory with no frames.
    pub fn new() -> (m: PhysMem)
        ensures
            m.wf(),
            m@ == Map::<usize, Seq<PageTableEntry>>::empty(),
    {
        let m = PhysMem { frames: BTreeMap::new() };
        assert(m@ =~= Map::<usize, Seq<PageTableEntry>>::empty());
        m
    }

    /// Whether page `ppn` has a frame.
    pub fn has_frame(&self, ppn: usize) -> (r: bool)
        ensures
            r == self@.contains_key(ppn),
    {
        broadcast use vstd::std_specs::btree::group_btree_axioms;
        self.frames.contains_key(&ppn)
    }

    /// Entry `idx` of page `ppn`.
    pub fn read(&self, ppn: usize, idx: usize) -> (r: PageTableEntry)
        requires
            self@.contains_key(ppn),
            idx < self@[ppn].len(),
        ensures
            r == self@[ppn][idx as int],
    {
        broadcast use vstd::std_specs::btree::group_btree_axioms;
        let frame = self.frames.get(&ppn).unwrap();
        frame[idx]
    }

    /// Writes entry `idx` of page `ppn`.
    pub fn write(&mut self, ppn: usize, idx: usize, e: PageTableEntry)
        requires
            old(self)@.contains_key(ppn),
            idx < old(self)@[ppn].len(),
        ensures
            final(self)@ == old(self)@.insert(ppn, old(self)@[ppn].update(idx as int, e)),
    {
        broadcast use vstd::std_specs::btree::group_btree_axioms;
        let mut frame = self.frames.remove(&ppn).unwrap();
        frame.set(idx, e);
        self.frames.insert(ppn, frame);
        assert(self@ =~= old(self)@.insert(ppn, old(self)@[ppn].update(idx as int, e)));
    }

    /// Gives page `ppn` a frame of zero entries, replacing what it held.
    pub fn zero_page(&mut self, ppn: usize)
        ensures
            final(self)@ == old(self)@.insert(ppn, zero_frame()),
    {
        broadcast use vstd::std_specs::btree::group_btree_axioms;
        let mut frame: Vec<PageTableEntry> = Vec::new();
        let mut i: usize = 0;
        while i < 512
            invariant
                i <= 512,
                frame@.len() == i,
                forall|j: int| 0 <= j < i ==> frame@[j] == PageTableEntry(0),
            decreases 512 - i,
        {
            frame.push(PageTableEntry(0));
            i = i + 1;
        }
        assert(frame@ =~= zero_frame());
        self.frames.insert(ppn, frame);
        assert(self@ =~= old(self)@.insert(ppn, zero_frame()));
    }
}

impl PPageNum {
    /// The entries of this page, seen as a page table.
    pub fn get_pte_array<'a>(&self, mem: &'a PhysMem) -> (r: &'a Vec<PageTableEntry>)
        requires
            mem@.contains_key(self.0),
        ensures
            r@ == mem@[self.0],
    {
        broadcast use vstd::std_specs::btree::group_btree_axioms;
        mem.frames.get(&self.0).unwrap()
    }
}

impl PAddress {
    /// The entries of the page that starts at this address, seen as a page
    /// table.
    pub fn get_pte_array<'a>(&self, mem: &'a PhysMem) -> (r: &'a Vec<PageTableEntry>)
        requires
            self.0 % 4096 == 0,
            mem@.contains_key(spec_pa_page(self.0)),
        ensures
            r@ == mem@[spec_pa_page(self.0)],
    {
        let pa: usize = usize::from(*self);
        let pa: PAddress = PAddress::from(pa);
        let ppn = PPageNum::from(pa);
        ppn.get_pte_array(mem)
    }
}

impl PageTableEntry {
    /// The entries of the page at the address that this entry's whole value
    /// spells, seen as a page table.
    pub fn get_pte_array<'a>(&self, mem: &'a PhysMem) -> (r: &'a Vec<PageTableEntry>)
        requires
            self.0 % 4096 == 0,
            mem@.contains_key(spec_pa_page(self.0)),
        ensures
            r@ == mem@[spec_pa_page(self.0)],
    {
        let pa: usize = self.0;
        let pa: PAddress = PAddress::from(pa);
        pa.get_pte_array(mem)
    }
}

} // verus!
