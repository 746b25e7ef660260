//! Virtual memory: Sv39 page tables.
use vstd::prelude::*;
use crate::kalloc::pages::{PageTableEntry, spec_pte_valid, spec_pte_ppn};

pub mod kvm;
pub mod uvm;

pub use kvm::Kvm;
use crate::kalloc::pagealloc::{PageAllocer, can_alloc, alloc_n, spec_alloc};
use crate::memlayout::{MAXVA, PHYSTOP};
use kvm::{kernel_first_vpn, kernel_last_vpn, identity_entry, lemma_kernel_need, frames_kept_outside};
use crate::riscv::{PTE_R, PTE_W, PTE_X};

verus! {

#[derive(Clone, Copy, PartialEq, Eq, Structural, Debug)]
pub enum VMError {
    MapError,
    WalkError,
    NotAlloc,
}

#[derive(Clone, Copy, PartialEq, Eq, Structural, Debug)]
pub enum Section {
    DATA,
    OTHER,
}

/// The size of the region that one entry of a level-`level` table covers.
pub open spec fn level_span(level: usize) -> int {
    if level == 0 {
        4096
    } else if level == 1 {
        2097152
    } else {
        1073741824
    }
}

/// The index into a level-`level` table that virtual address `va` selects.
pub open spec fn spec_idx(va: usize, level: usize) -> usize {
    ((va as int / level_span(level)) % 512) as usize
}

/// The index into a level-`level` table that `vaddr` selects: nine bits of
/// the address above the page offset and the lower levels' bits.
pub fn get_idx(vaddr: usize, level: usize) -> (r: usize)
    requires
        level <= 2,
    ensures
        r == spec_idx(vaddr, level),
        r < 512,
{
    let r = (vaddr >> (12 + 9 * level)) & 0x1ff;
    if level == 0 {
        assert((vaddr >> 12usize) & 0x1ffusize == (vaddr / 4096) % 512) by (bit_vector);
    } else if level == 1 {
        assert((vaddr >> 21usize) & 0x1ffusize == (vaddr / 2097152) % 512) by (bit_vector);
    } else {
        assert((vaddr >> 30usize) & 0x1ffusize == (vaddr / 1073741824) % 512) by (bit_vector);
    }
    r
}

/// Whether an entry is valid.
pub open spec fn valid(e: PageTableEntry) -> bool {
    spec_pte_valid(e.0)
}

/// The page an entry points at.
pub open spec fn child(e: PageTableEntry) -> usize {
    spec_pte_ppn(e.0)
}

/// Page `t` has a frame of 512 entries.
pub open spec fn frame_ok(m: Map<usize, Seq<PageTableEntry>>, t: usize) -> bool {
    m.contains_key(t) && m[t].len() == 512
}

/// The level-1 table that entry `i` of the root table leads to.
pub open spec fn l1(m: Map<usize, Seq<PageTableEntry>>, root: usize, i: int) -> Option<usize> {
    if valid(m[root][i]) {
        Some(child(m[root][i]))
    } else {
        None
    }
}

/// The level-0 table that entry `j` of the level-1 table under root entry
/// `i` leads to.
pub open spec fn l0(m: Map<usize, Seq<PageTableEntry>>, root: usize, i: int, j: int) -> Option<
    usize,
> {
    match l1(m, root, i) {
        Some(t1) => if valid(m[t1][j]) {
            Some(child(m[t1][j]))
        } else {
            None
        },
        None => None,
    }
}

/// The level-0 table that holds the entry for `va`, if the directories on
/// the way are in place.
pub open spec fn spec_walk(m: Map<usize, Seq<PageTableEntry>>, root: usize, va: usize) -> Option<
    usize,
> {
    l0(m, root, spec_idx(va, 2) as int, spec_idx(va, 1) as int)
}

/// The leaf entry that maps `va`, when it is valid.
pub open spec fn spec_translate(m: Map<usize, Seq<PageTableEntry>>, root: usize, va: usize) -> Option<
    PageTableEntry,
> {
    match spec_walk(m, root, va) {
        Some(t) => if valid(m[t][spec_idx(va, 0) as int]) {
            Some(m[t][spec_idx(va, 0) as int])
        } else {
            None
        },
        None => None,
    }
}

/// A three-level page table rooted at `root`, whose table pages all lie in
/// `owned`: every table reached has a frame, no table is reached twice, and
/// the root, the level-1 tables and the level-0 tables are all different
/// pages.
pub open spec fn tree_wf(m: Map<usize, Seq<PageTableEntry>>, root: usize, owned: Set<usize>) -> bool {
    &&& frame_ok(m, root)
    &&& owned.contains(root)
    &&& forall|i: int|
        0 <= i < 512 && (#[trigger] l1(m, root, i)) is Some ==> {
            let t = l1(m, root, i).unwrap();
            frame_ok(m, t) && owned.contains(t) && t != root
        }
    &&& forall|i: int, k: int|
        0 <= i < 512 && 0 <= k < 512 && i != k && (#[trigger] l1(m, root, i)) is Some && (
        #[trigger] l1(m, root, k)) is Some ==> l1(m, root, i) != l1(m, root, k)
    &&& forall|i: int, j: int|
        0 <= i < 512 && 0 <= j < 512 && (#[trigger] l0(m, root, i, j)) is Some ==> {
            let t = l0(m, root, i, j).unwrap();
            frame_ok(m, t) && owned.contains(t) && t != root
        }
    &&& forall|i: int, j: int, k: int|
        0 <= i < 512 && 0 <= j < 512 && 0 <= k < 512 && (#[trigger] l0(m, root, i, j)) is Some
            && (#[trigger] l1(m, root, k)) is Some ==> l0(m, root, i, j) != l1(m, root, k)
    &&& forall|i: int, j: int, i2: int, j2: int|
        0 <= i < 512 && 0 <= j < 512 && 0 <= i2 < 512 && 0 <= j2 < 512 && (i != i2 || j != j2)
            && (#[trigger] l0(m, root, i, j)) is Some && (#[trigger] l0(m, root, i2, j2)) is Some
            ==> l0(m, root, i, j) != l0(m, root, i2, j2)
}

/// Builds the kernel page table in the memory of allocator `a`: a fresh
/// root table, then the kernel's physical memory mapped onto itself; the
/// kernel text ends at `etext`.
pub fn k_init(a: &mut PageAllocer, etext: usize) -> (r: Kvm)
    requires
        old(a).wf(),
        crate::memlayout::KERNBASE < etext < PHYSTOP,
        etext % 4096 == 0,
        can_alloc(old(a).pages(), 65),
    ensures
        r.wf(final(a)),
        final(a).pages() == alloc_n(old(a).pages(), 65),
        forall|vb: usize|
            vb as int <= MAXVA as int && kernel_first_vpn() <= vb as int / 4096 <= kernel_last_vpn()
                ==> #[trigger] spec_translate(final(a).frames(), r.root(), vb) == Some(
                identity_entry(vb as int / 4096, PTE_R | PTE_X | PTE_W),
            ),
        forall|vb: usize|
            vb as int <= MAXVA as int && !(kernel_first_vpn() <= vb as int / 4096 <= kernel_last_vpn())
                ==> #[trigger] spec_translate(final(a).frames(), r.root(), vb) is None,
        frames_kept_outside(final(a).frames(), old(a).frames(), r.owned()),
{
    let ghost s0 = a.pages();
    proof {
        assert(s0.current < s0.end);
        assert(can_alloc(spec_alloc(s0).0, 64));
    }
    let ghost m0 = a.frames();
    let mut kvm = Kvm::new(a);
    let ghost m1 = a.frames();
    let ghost o1 = kvm.owned();
    proof {
        reveal(frames_kept_outside);
        assert(frames_kept_outside(m1, m0, o1));
        lemma_kernel_need(a.frames(), kvm.root());
        assert(alloc_n(s0, 65) == alloc_n(spec_alloc(s0).0, 64));
    }
    kvm.kvmmake(a, etext);
    proof {
        reveal(frames_kept_outside);
        let m2 = a.frames();
        let o2 = kvm.owned();
        assert forall|p: usize| !o2.contains(p) implies (m2.dom().contains(p) == m0.dom().contains(p)
            && m2[p] == m0[p]) by {
            assert(!o1.contains(p));
            assert(m2.dom().contains(p) == m1.dom().contains(p) && m2[p] == m1[p]);
        }
    }
    kvm
}

} // verus!
