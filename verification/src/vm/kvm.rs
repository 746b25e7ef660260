//! The kernel page table.
use vstd::prelude::*;
use vstd::arithmetic::div_mod::{lemma_div_denominator, lemma_fundamental_div_mod};
use crate::kalloc::pagealloc::{
    lemma_alloc_n_split,
    PageAllocer,
    PageGurd,
    AllPagesView,
    spec_alloc,
    alloc_n,
    can_alloc,
    lemma_alloc_keeps_wf,
    last_page,
};
use crate::kalloc::pages::{
    PPageNum,
    PAddress,
    VAddress,
    PageTableEntry,
    zero_frame,
    spec_pte_encode,
    lemma_pte_encode_decode,
    pa_space,
};
use crate::riscv::{PTE_V, PGSIZE, pgrounddown, spec_pgrounddown};
use crate::memlayout::{MAXVA, KERNBASE, PHYSTOP};
use crate::riscv::{PTE_R, PTE_W, PTE_X};
use super::{VMError, get_idx, spec_idx, valid, child, frame_ok, l1, l0, spec_walk, spec_translate, tree_wf};

verus! {

/// The kernel's page table: the root table page and the table pages made
/// below it, each held through a handle from the page allocator.
pub struct Kvm {
    pagetable: PageGurd,
    paddr: Vec<PageGurd>,
}

/// The number of pages that walking to `va` with allocation hands out: one
/// for each directory missing on the way.
pub open spec fn walk_need(m: Map<usize, Seq<PageTableEntry>>, root: usize, va: usize) -> nat {
    if l1(m, root, spec_idx(va, 2) as int) is None {
        2
    } else if spec_walk(m, root, va) is None {
        1
    } else {
        0
    }
}

/// The memory after a walk to `va` with allocation, from memory `m` and
/// allocator state `s`: each missing directory becomes a fresh zeroed page
/// from the allocator, linked in by a valid entry.
#[verifier::opaque]
pub open spec fn walk_frames(
    m: Map<usize, Seq<PageTableEntry>>,
    root: usize,
    va: usize,
    s: AllPagesView,
) -> Map<usize, Seq<PageTableEntry>> {
    let i2 = spec_idx(va, 2) as int;
    let i1 = spec_idx(va, 1) as int;
    match l1(m, root, i2) {
        Some(t1) => match l0(m, root, i2, i1) {
            Some(_) => m,
            None => {
                let p0 = spec_alloc(s).1;
                m.insert(p0, zero_frame()).insert(t1, m[t1].update(i1, dir_entry(p0)))
            },
        },
        None => {
            let p1 = spec_alloc(s).1;
            let p0 = spec_alloc(spec_alloc(s).0).1;
            let m1 = m.insert(p1, zero_frame()).insert(root, m[root].update(i2, dir_entry(p1)));
            m1.insert(p0, zero_frame()).insert(p1, m1[p1].update(i1, dir_entry(p0)))
        },
    }
}

/// The table pages a walk to `va` with allocation adds, in order.
#[verifier::opaque]
pub open spec fn walk_new_tables(
    m: Map<usize, Seq<PageTableEntry>>,
    root: usize,
    va: usize,
    s: AllPagesView,
) -> Seq<usize> {
    if l1(m, root, spec_idx(va, 2) as int) is None {
        seq![spec_alloc(s).1, spec_alloc(spec_alloc(s).0).1]
    } else if spec_walk(m, root, va) is None {
        seq![spec_alloc(s).1]
    } else {
        Seq::empty()
    }
}

/// Every page outside the table pages `owned` keeps its frame.
#[verifier::opaque]
pub open spec fn frames_kept_outside(
    m2: Map<usize, Seq<PageTableEntry>>,
    m: Map<usize, Seq<PageTableEntry>>,
    owned: Set<usize>,
) -> bool {
    forall|p: usize|
        #![trigger m2.dom().contains(p)]
        #![trigger m2[p]]
        !owned.contains(p) ==> (m2.dom().contains(p) == m.dom().contains(p) && m2[p] == m[p])
}

/// Keeping the frames outside a growing set of table pages composes, and a
/// write into a table page keeps them too.
proof fn lemma_kept_trans(
    m0: Map<usize, Seq<PageTableEntry>>,
    m1: Map<usize, Seq<PageTableEntry>>,
    m2: Map<usize, Seq<PageTableEntry>>,
    o1: Set<usize>,
    o2: Set<usize>,
    t: usize,
    ft: Seq<PageTableEntry>,
)
    requires
        frames_kept_outside(m1, m0, o1),
        frames_kept_outside(m2, m1, o2),
        o1.subset_of(o2),
        o2.contains(t),
    ensures
        frames_kept_outside(m2, m0, o2),
        frames_kept_outside(m2.insert(t, ft), m0, o2),
{
    reveal(frames_kept_outside);
    assert forall|p: usize| !o2.contains(p) implies (m2.dom().contains(p) == m0.dom().contains(p)
        && m2[p] == m0[p]) by {
        assert(!o1.contains(p));
        assert(m2.dom().contains(p) == m1.dom().contains(p) && m2[p] == m1[p]);
        assert(m1.dom().contains(p) == m0.dom().contains(p) && m1[p] == m0[p]);
    }
    let m3 = m2.insert(t, ft);
    assert forall|p: usize| !o2.contains(p) implies (m3.dom().contains(p) == m0.dom().contains(p)
        && m3[p] == m0[p]) by {
        assert(m2.dom().contains(p) == m0.dom().contains(p) && m2[p] == m0[p]);
    }
}

/// A valid entry that points at page `p`, as `walk` writes it.
pub open spec fn dir_entry(p: usize) -> PageTableEntry {
    PageTableEntry(spec_pte_encode(((p * 4096) as int % pa_space()) as usize, 1))
}

/// The table indices of a virtual address below `MAXVA` are the three
/// nine-bit groups of its page number.
pub proof fn lemma_va_idx(va: usize)
    requires
        va as int <= MAXVA as int,
    ensures
        spec_idx(va, 0) == (va as int / 4096) % 512,
        spec_idx(va, 1) == (va as int / 4096 / 512) % 512,
        spec_idx(va, 2) == va as int / 4096 / 262144,
        va as int / 4096 / 262144 < 512,
        va as int / 4096 / 512 / 512 == va as int / 4096 / 262144,
{
    lemma_div_denominator(va as int, 4096, 512);
    lemma_div_denominator(va as int, 4096, 262144);
    lemma_div_denominator(va as int / 4096, 512, 512);
    assert(va as int / 1073741824 <= 256);
}

/// Two addresses below `MAXVA` with the same three table indices lie in the
/// same page.
pub proof fn lemma_idx_injective(va: usize, vb: usize)
    requires
        va as int <= MAXVA as int,
        vb as int <= MAXVA as int,
        spec_idx(va, 0) == spec_idx(vb, 0),
        spec_idx(va, 1) == spec_idx(vb, 1),
        spec_idx(va, 2) == spec_idx(vb, 2),
    ensures
        va as int / 4096 == vb as int / 4096,
{
    lemma_va_idx(va);
    lemma_va_idx(vb);
    let qa = va as int / 4096;
    let qb = vb as int / 4096;
    lemma_fundamental_div_mod(qa, 512);
    lemma_fundamental_div_mod(qb, 512);
    lemma_fundamental_div_mod(qa / 512, 512);
    lemma_fundamental_div_mod(qb / 512, 512);
}

/// The number of `x` in `lo..=hi` for which `f` holds.
pub open spec fn count_in(lo: int, hi: int, f: spec_fn(int) -> bool) -> nat
    decreases hi + 1 - lo,
{
    if lo > hi {
        0
    } else {
        (if f(lo) {
            1nat
        } else {
            0nat
        }) + count_in(lo + 1, hi, f)
    }
}

proof fn lemma_count_ext(lo: int, hi: int, f: spec_fn(int) -> bool, g: spec_fn(int) -> bool)
    requires
        forall|x: int| lo <= x <= hi ==> #[trigger] f(x) == g(x),
    ensures
        count_in(lo, hi, f) == count_in(lo, hi, g),
    decreases hi + 1 - lo,
{
    if lo <= hi {
        lemma_count_ext(lo + 1, hi, f, g);
    }
}

/// Root entries with no level-1 table.
pub open spec fn missing_l1(m: Map<usize, Seq<PageTableEntry>>, root: usize) -> spec_fn(int) -> bool {
    |g: int| l1(m, root, g) is None
}

/// Level-1 entries, numbered by the page-number bits above the level-0
/// index, with no level-0 table.
pub open spec fn missing_l0(m: Map<usize, Seq<PageTableEntry>>, root: usize) -> spec_fn(int) -> bool {
    |h: int| l0(m, root, h / 512, h % 512) is None
}

/// The number of table pages that mapping the pages `p..=l` makes: one for
/// each missing level-1 table and each missing level-0 table the range
/// passes through.
pub open spec fn map_need(m: Map<usize, Seq<PageTableEntry>>, root: usize, p: int, l: int) -> nat {
    count_in(p / 262144, l / 262144, missing_l1(m, root)) + count_in(
        p / 512,
        l / 512,
        missing_l0(m, root),
    )
}

/// After the directories for page `p` are in place, the pages still needed
/// for `p + 1..=l` are those needed for `p..=l` less the ones page `p` used.
proof fn lemma_need_step(
    m: Map<usize, Seq<PageTableEntry>>,
    m2: Map<usize, Seq<PageTableEntry>>,
    root: usize,
    p: int,
    l: int,
)
    requires
        0 <= p < l,
        l <= MAXVA as int / 4096,
        forall|g: int| 0 <= g < 512 && g != p / 262144 ==> #[trigger] l1(m2, root, g) == l1(m, root, g),
        l1(m2, root, p / 262144) is Some,
        forall|k: int, j: int|
            0 <= k < 512 && 0 <= j < 512 && (k != p / 262144 || j != (p / 512) % 512)
                ==> #[trigger] l0(m2, root, k, j) == l0(m, root, k, j),
        l0(m2, root, p / 262144, (p / 512) % 512) is Some,
    ensures
        map_need(m, root, p, l) == (if l1(m, root, p / 262144) is None {
            1nat
        } else {
            0nat
        }) + (if l0(m, root, p / 262144, (p / 512) % 512) is None {
            1nat
        } else {
            0nat
        }) + map_need(m2, root, p + 1, l),
{
    let g0 = p / 262144;
    let gh = l / 262144;
    let f = missing_l1(m, root);
    let f2 = missing_l1(m2, root);
    assert(gh < 512);
    assert(count_in(g0, gh, f) == (if f(g0) { 1nat } else { 0nat }) + count_in(g0 + 1, gh, f));
    lemma_count_ext(g0 + 1, gh, f, f2);
    if (p + 1) / 262144 == g0 {
        assert(count_in(g0, gh, f2) == (if f2(g0) { 1nat } else { 0nat }) + count_in(g0 + 1, gh, f2));
    } else {
        assert((p + 1) / 262144 == g0 + 1);
    }
    let h0 = p / 512;
    let hh = l / 512;
    let e = missing_l0(m, root);
    let e2 = missing_l0(m2, root);
    lemma_div_denominator(p, 512, 512);
    assert(h0 / 512 == g0);
    assert(count_in(h0, hh, e) == (if e(h0) { 1nat } else { 0nat }) + count_in(h0 + 1, hh, e));
    assert forall|x: int| h0 + 1 <= x <= hh implies #[trigger] e(x) == e2(x) by {
        lemma_fundamental_div_mod(x, 512);
        lemma_fundamental_div_mod(h0, 512);
        assert(x / 512 < 512);
        assert(x / 512 != g0 || x % 512 != h0 % 512);
    }
    lemma_count_ext(h0 + 1, hh, e, e2);
    if (p + 1) / 512 == h0 {
        assert(count_in(h0, hh, e2) == (if e2(h0) { 1nat } else { 0nat }) + count_in(h0 + 1, hh, e2));
    } else {
        assert((p + 1) / 512 == h0 + 1);
    }
}

/// The need for the single page `p` is the directories missing on its way.
proof fn lemma_need_last(m: Map<usize, Seq<PageTableEntry>>, root: usize, p: int)
    requires
        0 <= p,
    ensures
        map_need(m, root, p, p) == (if l1(m, root, p / 262144) is None {
            1nat
        } else {
            0nat
        }) + (if l0(m, root, p / 262144, (p / 512) % 512) is None {
            1nat
        } else {
            0nat
        }),
{
    lemma_div_denominator(p, 512, 512);
    assert(count_in(p / 262144 + 1, p / 262144, missing_l1(m, root)) == 0);
    assert(count_in(p / 512 + 1, p / 512, missing_l0(m, root)) == 0);
}

/// The first page that `mappages(va, _, sz, _)` maps.
pub open spec fn first_vpn(va: VAddress) -> int {
    va.0 as int / 4096
}

/// The last page that `mappages(va, _, sz, _)` maps.
pub open spec fn last_vpn(va: VAddress, sz: usize) -> int {
    (va.0 + sz - 1) / 4096
}

/// The pages that `mappages(va, _, sz, _)` maps are exactly those that hold
/// a byte of `va .. va + sz`: the first holds `va`, the last holds
/// `va + sz - 1`, so the page after it starts past the range.
pub proof fn lemma_mapped_pages(va: VAddress, sz: usize)
    requires
        sz > 0,
    ensures
        first_vpn(va) * 4096 <= va.0 < first_vpn(va) * 4096 + 4096,
        last_vpn(va, sz) * 4096 <= va.0 + sz - 1 < last_vpn(va, sz) * 4096 + 4096,
        va.0 + sz <= (last_vpn(va, sz) + 1) * 4096,
        first_vpn(va) <= last_vpn(va, sz),
{
}

/// The entry that mapping page `q` of a range that starts at page `p0` onto
/// physical address `pa0` writes.
pub open spec fn map_entry(pa0: usize, p0: int, q: int, perm: usize) -> PageTableEntry {
    PageTableEntry(spec_pte_encode((pa0 + (q - p0) * 4096) as usize, perm | 1usize))
}

proof fn lemma_map_entry_valid(pa: usize, perm: usize)
    ensures
        valid(PageTableEntry(spec_pte_encode(pa, perm | 1usize))),
{
    assert((((pa >> 12usize) << 10usize) | (perm | 1usize)) % 2 == 1) by (bit_vector);
}

/// Every address below `MAXVA` in pages `p0..hi` translates through the
/// entry that mapping from page `p0` onto `pa0` writes.
#[verifier::opaque]
pub open spec fn mapped_run(
    m: Map<usize, Seq<PageTableEntry>>,
    root: usize,
    pa0: usize,
    p0: int,
    hi: int,
    perm: usize,
) -> bool {
    forall|vb: usize|
        vb as int <= MAXVA as int && p0 <= vb as int / 4096 < hi ==> #[trigger] spec_translate(m, root, vb)
            == Some(map_entry(pa0, p0, vb as int / 4096, perm))
}

/// No address below `MAXVA` in pages `lo..=hi` translates.
#[verifier::opaque]
pub open spec fn unmapped_run(m: Map<usize, Seq<PageTableEntry>>, root: usize, lo: int, hi: int) -> bool {
    forall|vb: usize|
        vb as int <= MAXVA as int && lo <= vb as int / 4096 <= hi ==> #[trigger] spec_translate(m, root, vb)
            is None
}

/// Every address below `MAXVA` outside pages `lo..=hi` translates in `m` as
/// in `m0`.
#[verifier::opaque]
pub open spec fn same_outside(
    m: Map<usize, Seq<PageTableEntry>>,
    m0: Map<usize, Seq<PageTableEntry>>,
    root: usize,
    lo: int,
    hi: int,
) -> bool {
    forall|vb: usize|
        vb as int <= MAXVA as int && !(lo <= vb as int / 4096 <= hi) ==> #[trigger] spec_translate(m, root, vb)
            == spec_translate(m0, root, vb)
}

/// The directories present in `m` are those present in `m0` together with
/// those that the pages `p0..p` pass through: root entries by the high nine
/// bits of the page number, level-1 entries by the high eighteen.
#[verifier::opaque]
pub open spec fn dirs_made(
    m: Map<usize, Seq<PageTableEntry>>,
    m0: Map<usize, Seq<PageTableEntry>>,
    root: usize,
    p0: int,
    p: int,
) -> bool {
    &&& forall|g: int|
        0 <= g < 512 ==> (#[trigger] l1(m, root, g) is Some <==> (l1(m0, root, g) is Some || (p0 < p
            && p0 / 262144 <= g <= (p - 1) / 262144)))
    &&& forall|h: int|
        0 <= h < 262144 ==> (#[trigger] l0(m, root, h / 512, h % 512) is Some <==> (l0(
            m0,
            root,
            h / 512,
            h % 512,
        ) is Some || (p0 < p && p0 / 512 <= h <= (p - 1) / 512)))
}

/// Walking page `p` puts its two directories in place and touches no other.
proof fn lemma_dirs_step(
    m0: Map<usize, Seq<PageTableEntry>>,
    m: Map<usize, Seq<PageTableEntry>>,
    m3: Map<usize, Seq<PageTableEntry>>,
    root: usize,
    p0: int,
    p: int,
)
    requires
        0 <= p0 <= p,
        p < 262144 * 512,
        dirs_made(m, m0, root, p0, p),
        l1(m3, root, p / 262144) is Some,
        l0(m3, root, p / 262144, (p / 512) % 512) is Some,
        forall|g: int| 0 <= g < 512 && g != p / 262144 ==> #[trigger] l1(m3, root, g) == l1(m, root, g),
        forall|k: int, j: int|
            0 <= k < 512 && 0 <= j < 512 && (k != p / 262144 || j != (p / 512) % 512)
                ==> #[trigger] l0(m3, root, k, j) == l0(m, root, k, j),
    ensures
        dirs_made(m3, m0, root, p0, p + 1),
{
    reveal(dirs_made);
    lemma_div_denominator(p, 512, 512);
    assert forall|h: int| 0 <= h < 262144 implies (#[trigger] l0(m3, root, h / 512, h % 512) is Some <==> (l0(
        m0,
        root,
        h / 512,
        h % 512,
    ) is Some || (p0 < p + 1 && p0 / 512 <= h <= p / 512))) by {
        lemma_fundamental_div_mod(h, 512);
        lemma_fundamental_div_mod(p / 512, 512);
        if h != p / 512 {
            assert(h / 512 != p / 262144 || h % 512 != (p / 512) % 512);
            assert(l0(m3, root, h / 512, h % 512) == l0(m, root, h / 512, h % 512));
        }
    }
}

proof fn lemma_count_split(lo: int, mid: int, hi: int, f: spec_fn(int) -> bool)
    requires
        lo <= mid + 1,
        mid <= hi,
    ensures
        count_in(lo, hi, f) == count_in(lo, mid, f) + count_in(mid + 1, hi, f),
    decreases mid + 1 - lo,
{
    if lo <= mid {
        lemma_count_split(lo + 1, mid, hi, f);
    }
}

/// Mapping pages `a..=b` and then `b + 1..=c` makes as many table pages as
/// mapping `a..=c` at once.
proof fn lemma_need_concat(
    m: Map<usize, Seq<PageTableEntry>>,
    m1: Map<usize, Seq<PageTableEntry>>,
    root: usize,
    a: int,
    b: int,
    c: int,
)
    requires
        0 <= a <= b < c,
        c * 4096 <= MAXVA as int,
        dirs_made(m1, m, root, a, b + 1),
    ensures
        map_need(m, root, a, b) + map_need(m1, root, b + 1, c) == map_need(m, root, a, c),
{
    reveal(dirs_made);
    let u2 = 262144int;
    let f = missing_l1(m, root);
    let f1 = missing_l1(m1, root);
    lemma_count_split(a / u2, b / u2, c / u2, f);
    assert forall|g: int| b / u2 + 1 <= g <= c / u2 implies #[trigger] f1(g) == f(g) by {
        assert(l1(m1, root, g) is Some <==> l1(m, root, g) is Some);
    }
    lemma_count_ext(b / u2 + 1, c / u2, f1, f);
    if (b + 1) / u2 == b / u2 {
        assert(l1(m1, root, b / u2) is Some);
        assert(count_in(b / u2, c / u2, f1) == (if f1(b / u2) { 1nat } else { 0nat }) + count_in(
            b / u2 + 1,
            c / u2,
            f1,
        ));
    } else {
        assert((b + 1) / u2 == b / u2 + 1);
    }
    let e = missing_l0(m, root);
    let e1 = missing_l0(m1, root);
    lemma_count_split(a / 512, b / 512, c / 512, e);
    assert forall|h: int| b / 512 + 1 <= h <= c / 512 implies #[trigger] e1(h) == e(h) by {
        assert(l0(m1, root, h / 512, h % 512) is Some <==> l0(m, root, h / 512, h % 512) is Some);
    }
    lemma_count_ext(b / 512 + 1, c / 512, e1, e);
    if (b + 1) / 512 == b / 512 {
        assert(l0(m1, root, (b / 512) / 512, (b / 512) % 512) is Some);
        assert(count_in(b / 512, c / 512, e1) == (if e1(b / 512) { 1nat } else { 0nat }) + count_in(
            b / 512 + 1,
            c / 512,
            e1,
        ));
    } else {
        assert((b + 1) / 512 == b / 512 + 1);
    }
}

/// The first page of the kernel's physical memory.
pub open spec fn kernel_first_vpn() -> int {
    KERNBASE as int / 4096
}

/// The last page of the kernel's physical memory.
pub open spec fn kernel_last_vpn() -> int {
    (PHYSTOP - 1) as int / 4096
}

/// Before the first half of `kvmmake`: it can have the pages it needs.
proof fn lemma_kvmmake_first(
    m0: Map<usize, Seq<PageTableEntry>>,
    s0: AllPagesView,
    root: usize,
    k: int,
    e: int,
    top: int,
)
    requires
        0 <= k < e <= top,
        can_alloc(s0, map_need(m0, root, k, top)),
    ensures
        can_alloc(s0, map_need(m0, root, k, e - 1)),
{
    lemma_count_split(k / 262144, (e - 1) / 262144, top / 262144, missing_l1(m0, root));
    lemma_count_split(k / 512, (e - 1) / 512, top / 512, missing_l0(m0, root));
    let total = map_need(m0, root, k, top);
    let need1 = map_need(m0, root, k, e - 1);
    assert(need1 <= total);
    lemma_alloc_n_split(s0, need1, (total - need1) as nat);
}

/// Between the two halves of `kvmmake`: the second half can have the pages
/// it needs, and both halves together take what the whole range needs.
proof fn lemma_kvmmake_second(
    m0: Map<usize, Seq<PageTableEntry>>,
    m1: Map<usize, Seq<PageTableEntry>>,
    s0: AllPagesView,
    root: usize,
    k: int,
    e: int,
    top: int,
)
    requires
        0 <= k < e <= top,
        top * 4096 <= MAXVA as int,
        can_alloc(s0, map_need(m0, root, k, top)),
        dirs_made(m1, m0, root, k, e),
        forall|vb: usize|
            vb as int <= MAXVA as int && k <= vb as int / 4096 <= top ==> #[trigger] spec_translate(m0, root, vb)
                is None,
        forall|vb: usize|
            vb as int <= MAXVA as int && !(k <= vb as int / 4096 <= e - 1) ==> #[trigger] spec_translate(
                m1,
                root,
                vb,
            ) == spec_translate(m0, root, vb),
    ensures
        can_alloc(alloc_n(s0, map_need(m0, root, k, e - 1)), map_need(m1, root, e, top)),
        alloc_n(alloc_n(s0, map_need(m0, root, k, e - 1)), map_need(m1, root, e, top)) == alloc_n(
            s0,
            map_need(m0, root, k, top),
        ),
        forall|vb: usize|
            vb as int <= MAXVA as int && e <= vb as int / 4096 <= top ==> #[trigger] spec_translate(m1, root, vb)
                is None,
{
    lemma_need_concat(m0, m1, root, k, e - 1, top);
    lemma_alloc_n_split(s0, map_need(m0, root, k, e - 1), map_need(m1, root, e, top));
    assert forall|vb: usize|
        vb as int <= MAXVA as int && e <= vb as int / 4096 <= top implies #[trigger] spec_translate(
            m1,
            root,
            vb,
        ) is None by {
        assert(spec_translate(m1, root, vb) == spec_translate(m0, root, vb));
    }
}

/// After both halves of `kvmmake`: the whole range maps onto itself and the
/// rest is as it was.
proof fn lemma_kvmmake_translate(
    m0: Map<usize, Seq<PageTableEntry>>,
    m1: Map<usize, Seq<PageTableEntry>>,
    m2: Map<usize, Seq<PageTableEntry>>,
    root: usize,
    k: int,
    e: int,
    top: int,
    kb: usize,
    eb: usize,
    perm: usize,
)
    requires
        0 <= k < e <= top,
        kb as int == k * 4096,
        eb as int == e * 4096,
        forall|vb: usize|
            vb as int <= MAXVA as int && k <= vb as int / 4096 <= e - 1 ==> #[trigger] spec_translate(
                m1,
                root,
                vb,
            ) == Some(map_entry(kb, k, vb as int / 4096, perm)),
        forall|vb: usize|
            vb as int <= MAXVA as int && !(k <= vb as int / 4096 <= e - 1) ==> #[trigger] spec_translate(
                m1,
                root,
                vb,
            ) == spec_translate(m0, root, vb),
        forall|vb: usize|
            vb as int <= MAXVA as int && e <= vb as int / 4096 <= top ==> #[trigger] spec_translate(
                m2,
                root,
                vb,
            ) == Some(map_entry(eb, e, vb as int / 4096, perm)),
        forall|vb: usize|
            vb as int <= MAXVA as int && !(e <= vb as int / 4096 <= top) ==> #[trigger] spec_translate(
                m2,
                root,
                vb,
            ) == spec_translate(m1, root, vb),
    ensures
        forall|vb: usize|
            vb as int <= MAXVA as int && k <= vb as int / 4096 <= top ==> #[trigger] spec_translate(
                m2,
                root,
                vb,
            ) == Some(identity_entry(vb as int / 4096, perm)),
        forall|vb: usize|
            vb as int <= MAXVA as int && !(k <= vb as int / 4096 <= top) ==> #[trigger] spec_translate(
                m2,
                root,
                vb,
            ) == spec_translate(m0, root, vb),
{
    assert forall|vb: usize|
        vb as int <= MAXVA as int && k <= vb as int / 4096 <= top implies #[trigger] spec_translate(
            m2,
            root,
            vb,
        ) == Some(identity_entry(vb as int / 4096, perm)) by {
        if vb as int / 4096 < e {
            assert(spec_translate(m2, root, vb) == spec_translate(m1, root, vb));
            assert(spec_translate(m1, root, vb) == Some(map_entry(kb, k, vb as int / 4096, perm)));
        } else {
            assert(spec_translate(m2, root, vb) == Some(map_entry(eb, e, vb as int / 4096, perm)));
        }
    }
    assert forall|vb: usize|
        vb as int <= MAXVA as int && !(k <= vb as int / 4096 <= top) implies #[trigger] spec_translate(
            m2,
            root,
            vb,
        ) == spec_translate(m0, root, vb) by {
        assert(spec_translate(m2, root, vb) == spec_translate(m1, root, vb));
        assert(spec_translate(m1, root, vb) == spec_translate(m0, root, vb));
    }
}

/// The entry that maps page `q` onto itself with permission bits `perm`.
pub open spec fn identity_entry(q: int, perm: usize) -> PageTableEntry {
    PageTableEntry(spec_pte_encode((q * 4096) as usize, perm | 1usize))
}

/// What a mapping writes, a walk reads: an address that translates through
/// entry `e` has its level-0 table in place, and the entry that a walk to it
/// finds there is `e`.
pub proof fn lemma_translate_walk(m: Map<usize, Seq<PageTableEntry>>, root: usize, va: usize, e: PageTableEntry)
    requires
        spec_translate(m, root, va) == Some(e),
    ensures
        spec_walk(m, root, va) is Some,
        m[spec_walk(m, root, va).unwrap()][spec_idx(va, 0) as int] == e,
        valid(e),
{
}

/// Counting a predicate that holds throughout `lo..=hi` gives the length.
proof fn lemma_count_all(lo: int, hi: int, f: spec_fn(int) -> bool)
    requires
        lo <= hi + 1,
        forall|x: int| lo <= x <= hi ==> #[trigger] f(x),
    ensures
        count_in(lo, hi, f) == hi - lo + 1,
    decreases hi + 1 - lo,
{
    if lo <= hi {
        lemma_count_all(lo + 1, hi, f);
    }
}

/// A table with an empty root needs one level-1 table and 63 level-0
/// tables to map the kernel's physical memory.
pub proof fn lemma_kernel_need(m: Map<usize, Seq<PageTableEntry>>, root: usize)
    requires
        forall|k: int| 0 <= k < 512 ==> #[trigger] l1(m, root, k) is None,
    ensures
        map_need(m, root, kernel_first_vpn(), kernel_last_vpn()) == 64,
{
    let f = missing_l1(m, root);
    let e = missing_l0(m, root);
    assert(kernel_first_vpn() == 0x80200);
    assert(kernel_last_vpn() == 0x87fff);
    assert forall|x: int| 2 <= x <= 2 implies #[trigger] f(x) by {}
    lemma_count_all(2, 2, f);
    assert forall|x: int| 1025 <= x <= 1087 implies #[trigger] e(x) by {
        assert(l1(m, root, x / 512) is None);
    }
    lemma_count_all(1025, 1087, e);
}

/// Two addresses below `MAXVA` in the same page translate alike.
proof fn lemma_same_page_translate(m: Map<usize, Seq<PageTableEntry>>, root: usize, va: usize, vb: usize)
    requires
        va as int <= MAXVA as int,
        vb as int <= MAXVA as int,
        va as int / 4096 == vb as int / 4096,
    ensures
        spec_translate(m, root, va) == spec_translate(m, root, vb),
{
    lemma_va_idx(va);
    lemma_va_idx(vb);
}

/// Before page `p` of a run is walked: the walk needs no more pages than the
/// whole rest of the run, so it can have them.
proof fn lemma_map_loop_pre(
    m: Map<usize, Seq<PageTableEntry>>,
    s: AllPagesView,
    root: usize,
    p: int,
    l: int,
    cur: usize,
)
    requires
        0 <= p <= l,
        l * 4096 <= MAXVA as int,
        cur as int == p * 4096,
        can_alloc(s, map_need(m, root, p, l)),
    ensures
        walk_need(m, root, cur) == (if l1(m, root, p / 262144) is None {
            1nat
        } else {
            0nat
        }) + (if l0(m, root, p / 262144, (p / 512) % 512) is None {
            1nat
        } else {
            0nat
        }),
        walk_need(m, root, cur) <= map_need(m, root, p, l),
        can_alloc(s, walk_need(m, root, cur)),
{
    lemma_va_idx(cur);
    assert(cur as int / 4096 == p);
    let w = walk_need(m, root, cur);
    let need = map_need(m, root, p, l);
    lemma_div_denominator(p, 512, 512);
    let f = missing_l1(m, root);
    let e = missing_l0(m, root);
    assert(count_in(p / 262144, l / 262144, f) == (if f(p / 262144) { 1nat } else { 0nat })
        + count_in(p / 262144 + 1, l / 262144, f));
    assert(count_in(p / 512, l / 512, e) == (if e(p / 512) { 1nat } else { 0nat }) + count_in(
        p / 512 + 1,
        l / 512,
        e,
    ));
    assert(w <= need);
    lemma_alloc_n_split(s, w, (need - w) as nat);
}

/// After page `p` of a run is walked: the allocator has handed out what the
/// walk needed, which leaves the rest of the run what it needs.
proof fn lemma_map_loop_post(
    m: Map<usize, Seq<PageTableEntry>>,
    m2: Map<usize, Seq<PageTableEntry>>,
    m3: Map<usize, Seq<PageTableEntry>>,
    s: AllPagesView,
    s0: AllPagesView,
    root: usize,
    p: int,
    l: int,
    cur: usize,
    need0: nat,
)
    requires
        0 <= p <= l,
        l * 4096 <= MAXVA as int,
        cur as int == p * 4096,
        map_need(m, root, p, l) <= need0,
        can_alloc(s, map_need(m, root, p, l)),
        s == alloc_n(s0, (need0 - map_need(m, root, p, l)) as nat),
        walk_need(m, root, cur) == (if l1(m, root, p / 262144) is None {
            1nat
        } else {
            0nat
        }) + (if l0(m, root, p / 262144, (p / 512) % 512) is None {
            1nat
        } else {
            0nat
        }),
        spec_walk(m2, root, cur) is Some,
        forall|k: int|
            0 <= k < 512 && k != spec_idx(cur, 2) ==> #[trigger] l1(m2, root, k) == l1(m, root, k),
        forall|k: int, j: int|
            0 <= k < 512 && 0 <= j < 512 && (k != spec_idx(cur, 2) || j != spec_idx(cur, 1))
                ==> #[trigger] l0(m2, root, k, j) == l0(m, root, k, j),
        forall|k: int| 0 <= k < 512 ==> #[trigger] l1(m3, root, k) == l1(m2, root, k),
        forall|k: int, j: int|
            0 <= k < 512 && 0 <= j < 512 ==> #[trigger] l0(m3, root, k, j) == l0(m2, root, k, j),
    ensures
        p < l ==> {
            &&& map_need(m3, root, p + 1, l) <= need0
            &&& can_alloc(alloc_n(s, walk_need(m, root, cur)), map_need(m3, root, p + 1, l))
            &&& alloc_n(s, walk_need(m, root, cur)) == alloc_n(
                s0,
                (need0 - map_need(m3, root, p + 1, l)) as nat,
            )
        },
        p == l ==> alloc_n(s, walk_need(m, root, cur)) == alloc_n(s0, need0),
{
    lemma_va_idx(cur);
    assert(cur as int / 4096 == p);
    let w = walk_need(m, root, cur);
    let need = map_need(m, root, p, l);
    assert(spec_idx(cur, 2) == p / 262144);
    assert(spec_idx(cur, 1) == (p / 512) % 512);
    assert(l1(m3, root, p / 262144) is Some);
    assert(l0(m3, root, p / 262144, (p / 512) % 512) is Some);
    assert forall|g: int| 0 <= g < 512 && g != p / 262144 implies #[trigger] l1(m3, root, g) == l1(m, root, g) by {
        assert(l1(m3, root, g) == l1(m2, root, g));
    }
    assert forall|k: int, j: int|
        0 <= k < 512 && 0 <= j < 512 && (k != p / 262144 || j != (p / 512) % 512) implies #[trigger] l0(
            m3,
            root,
            k,
            j,
        ) == l0(m, root, k, j) by {
        assert(l0(m3, root, k, j) == l0(m2, root, k, j));
    }
    lemma_alloc_n_split(s0, (need0 - need) as nat, w);
    if p < l {
        lemma_need_step(m, m3, root, p, l);
        let rest = map_need(m3, root, p + 1, l);
        assert(need == w + rest);
        lemma_alloc_n_split(s, w, rest);
        assert((need0 - need) as nat + w == (need0 - rest) as nat);
    } else {
        lemma_need_last(m, root, p);
        assert(need == w);
        assert((need0 - need) as nat + w == need0);
    }
}

/// One page of `mappages` moves the mapped run up by one page.
proof fn lemma_map_loop_step(
    m0: Map<usize, Seq<PageTableEntry>>,
    m: Map<usize, Seq<PageTableEntry>>,
    m3: Map<usize, Seq<PageTableEntry>>,
    root: usize,
    pa0: usize,
    p0: int,
    p: int,
    l: int,
    perm: usize,
    cur: usize,
)
    requires
        p0 <= p <= l,
        cur as int / 4096 == p,
        cur as int <= MAXVA as int,
        mapped_run(m, root, pa0, p0, p, perm),
        unmapped_run(m, root, p, l),
        same_outside(m, m0, root, p0, l),
        spec_translate(m3, root, cur) == Some(map_entry(pa0, p0, p, perm)),
        forall|vb: usize|
            vb as int <= MAXVA as int && vb as int / 4096 != cur as int / 4096 ==> #[trigger] spec_translate(
                m3,
                root,
                vb,
            ) == spec_translate(m, root, vb),
    ensures
        mapped_run(m3, root, pa0, p0, p + 1, perm),
        unmapped_run(m3, root, p + 1, l),
        same_outside(m3, m0, root, p0, l),
{
    reveal(mapped_run);
    reveal(unmapped_run);
    reveal(same_outside);
    assert forall|vb: usize|
        vb as int <= MAXVA as int && p0 <= vb as int / 4096 < p + 1 implies #[trigger] spec_translate(
            m3,
            root,
            vb,
        ) == Some(map_entry(pa0, p0, vb as int / 4096, perm)) by {
        if vb as int / 4096 == p {
            lemma_same_page_translate(m3, root, cur, vb);
        }
    }
}

proof fn lemma_push_contains(s: Seq<usize>, p: usize)
    ensures
        forall|q: usize| #[trigger] s.push(p).contains(q) <==> (s.contains(q) || q == p),
{
    assert forall|q: usize| #[trigger] s.push(p).contains(q) <==> (s.contains(q) || q == p) by {
        if s.push(p).contains(q) {
            let k = choose|k: int| 0 <= k < s.push(p).len() && s.push(p)[k] == q;
            if k < s.len() {
                assert(s[k] == q);
            }
        }
        if s.contains(q) {
            let k = choose|k: int| 0 <= k < s.len() && s[k] == q;
            assert(s.push(p)[k] == q);
        }
        if q == p {
            assert(s.push(p)[s.len() as int] == q);
        }
    }
}

/// Adding a level-1 table at a free slot of the root keeps a page table
/// well formed.
#[verifier::rlimit(40)]
proof fn lemma_grow_root(
    m: Map<usize, Seq<PageTableEntry>>,
    root: usize,
    owned: Set<usize>,
    i: int,
    p: usize,
)
    requires
        tree_wf(m, root, owned),
        0 <= i < 512,
        !valid(m[root][i]),
        !owned.contains(p),
        p < last_page(),
    ensures
        ({
            let m2 = m.insert(p, zero_frame()).insert(root, m[root].update(i, dir_entry(p)));
            &&& tree_wf(m2, root, owned.insert(p))
            &&& l1(m2, root, i) == Some(p)
            &&& forall|k: int| 0 <= k < 512 && k != i ==> #[trigger] l1(m2, root, k) == l1(m, root, k)
            &&& forall|k: int, j: int|
                0 <= k < 512 && 0 <= j < 512 ==> #[trigger] l0(m2, root, k, j) == l0(m, root, k, j)
            &&& forall|t: usize| t != root && t != p ==> #[trigger] m2.contains_key(t) == m.contains_key(t) && m2[t] == m[t]
        }),
{
    let m2 = m.insert(p, zero_frame()).insert(root, m[root].update(i, dir_entry(p)));
    lemma_pte_encode_decode(((p * 4096) as int % pa_space()) as usize, 1);
    assert(child(dir_entry(p)) == p);
    assert(valid(dir_entry(p)));
    let o2 = owned.insert(p);
    assert forall|k: int| 0 <= k < 512 && k != i implies #[trigger] l1(m2, root, k) == l1(m, root, k) by {
        assert(m2[root][k] == m[root][k]);
    }
    assert forall|k: int, j: int| 0 <= k < 512 && 0 <= j < 512 implies #[trigger] l0(m2, root, k, j) == l0(m, root, k, j) by {
        if k == i {
            assert(m2[p][j] == PageTableEntry(0));
        } else {
            assert(l1(m2, root, k) == l1(m, root, k));
            if l1(m, root, k) is Some {
                let t = l1(m, root, k).unwrap();
                assert(m2[t] == m[t]);
            }
        }
    }
    assert(l1(m2, root, i) == Some(p));
    assert forall|k: int| 0 <= k < 512 && (#[trigger] l1(m2, root, k)) is Some implies {
        let t = l1(m2, root, k).unwrap();
        frame_ok(m2, t) && o2.contains(t) && t != root
    } by {
        if k != i {
            assert(l1(m2, root, k) == l1(m, root, k));
            let t = l1(m, root, k).unwrap();
            assert(m2[t] == m[t]);
        }
    }
    assert forall|k1: int, k2: int|
        0 <= k1 < 512 && 0 <= k2 < 512 && k1 != k2 && (#[trigger] l1(m2, root, k1)) is Some && (
        #[trigger] l1(m2, root, k2)) is Some implies l1(m2, root, k1) != l1(m2, root, k2) by {
        if k1 != i && k2 != i {
            assert(l1(m2, root, k1) == l1(m, root, k1));
            assert(l1(m2, root, k2) == l1(m, root, k2));
        } else if k1 == i {
            assert(l1(m2, root, k2) == l1(m, root, k2));
        } else {
            assert(l1(m2, root, k1) == l1(m, root, k1));
        }
    }
    assert forall|k: int, j: int|
        0 <= k < 512 && 0 <= j < 512 && (#[trigger] l0(m2, root, k, j)) is Some implies {
            let t = l0(m2, root, k, j).unwrap();
            frame_ok(m2, t) && o2.contains(t) && t != root
        } by {
        assert(l0(m2, root, k, j) == l0(m, root, k, j));
        let t = l0(m, root, k, j).unwrap();
        assert(m2[t] == m[t]);
    }
    assert forall|k: int, j: int, k2: int|
        0 <= k < 512 && 0 <= j < 512 && 0 <= k2 < 512 && (#[trigger] l0(m2, root, k, j)) is Some
            && (#[trigger] l1(m2, root, k2)) is Some implies l0(m2, root, k, j) != l1(m2, root, k2) by {
        assert(l0(m2, root, k, j) == l0(m, root, k, j));
        if k2 != i {
            assert(l1(m2, root, k2) == l1(m, root, k2));
        }
    }
    assert forall|k: int, j: int, k2: int, j2: int|
        0 <= k < 512 && 0 <= j < 512 && 0 <= k2 < 512 && 0 <= j2 < 512 && (k != k2 || j != j2)
            && (#[trigger] l0(m2, root, k, j)) is Some && (#[trigger] l0(m2, root, k2, j2)) is Some
            implies l0(m2, root, k, j) != l0(m2, root, k2, j2) by {
        assert(l0(m2, root, k, j) == l0(m, root, k, j));
        assert(l0(m2, root, k2, j2) == l0(m, root, k2, j2));
    }
}

/// Adding a level-0 table at a free slot of the level-1 table under root
/// entry `i` keeps a page table well formed.
#[verifier::rlimit(40)]
proof fn lemma_grow_l1(
    m: Map<usize, Seq<PageTableEntry>>,
    root: usize,
    owned: Set<usize>,
    i: int,
    j: int,
    p: usize,
)
    requires
        tree_wf(m, root, owned),
        0 <= i < 512,
        0 <= j < 512,
        l1(m, root, i) is Some,
        l0(m, root, i, j) is None,
        !owned.contains(p),
        p < last_page(),
    ensures
        ({
            let t1 = l1(m, root, i).unwrap();
            let m2 = m.insert(p, zero_frame()).insert(t1, m[t1].update(j, dir_entry(p)));
            &&& tree_wf(m2, root, owned.insert(p))
            &&& l0(m2, root, i, j) == Some(p)
            &&& forall|k: int| 0 <= k < 512 ==> #[trigger] l1(m2, root, k) == l1(m, root, k)
            &&& forall|k: int, j2: int|
                0 <= k < 512 && 0 <= j2 < 512 && (k != i || j2 != j) ==> #[trigger] l0(m2, root, k, j2)
                    == l0(m, root, k, j2)
            &&& forall|t: usize| t != t1 && t != p ==> #[trigger] m2.contains_key(t) == m.contains_key(t) && m2[t] == m[t]
        }),
{
    let t1 = l1(m, root, i).unwrap();
    let m2 = m.insert(p, zero_frame()).insert(t1, m[t1].update(j, dir_entry(p)));
    lemma_pte_encode_decode(((p * 4096) as int % pa_space()) as usize, 1);
    assert(child(dir_entry(p)) == p);
    assert(valid(dir_entry(p)));
    let o2 = owned.insert(p);
    assert(m2[root] == m[root]);
    assert forall|k: int| 0 <= k < 512 implies #[trigger] l1(m2, root, k) == l1(m, root, k) by {
        assert(m2[root][k] == m[root][k]);
    }
    assert forall|k: int, j2: int|
        0 <= k < 512 && 0 <= j2 < 512 && (k != i || j2 != j) implies #[trigger] l0(m2, root, k, j2)
            == l0(m, root, k, j2) by {
        assert(l1(m2, root, k) == l1(m, root, k));
        if l1(m, root, k) is Some {
            let t = l1(m, root, k).unwrap();
            if k == i {
                assert(m2[t][j2] == m[t][j2]);
            } else {
                assert(t != t1);
                assert(m2[t] == m[t]);
            }
        }
    }
    assert(l1(m2, root, i) == Some(t1));
    assert(m2[t1][j] == dir_entry(p));
    assert(l0(m2, root, i, j) == Some(p));
    assert forall|k: int| 0 <= k < 512 && (#[trigger] l1(m2, root, k)) is Some implies {
        let t = l1(m2, root, k).unwrap();
        frame_ok(m2, t) && o2.contains(t) && t != root
    } by {
        assert(l1(m2, root, k) == l1(m, root, k));
        let t = l1(m, root, k).unwrap();
        if t != t1 {
            assert(m2[t] == m[t]);
        }
    }
    assert forall|k1: int, k2: int|
        0 <= k1 < 512 && 0 <= k2 < 512 && k1 != k2 && (#[trigger] l1(m2, root, k1)) is Some && (
        #[trigger] l1(m2, root, k2)) is Some implies l1(m2, root, k1) != l1(m2, root, k2) by {
        assert(l1(m2, root, k1) == l1(m, root, k1));
        assert(l1(m2, root, k2) == l1(m, root, k2));
    }
    assert forall|k: int, j2: int|
        0 <= k < 512 && 0 <= j2 < 512 && (#[trigger] l0(m2, root, k, j2)) is Some implies {
            let t = l0(m2, root, k, j2).unwrap();
            frame_ok(m2, t) && o2.contains(t) && t != root
        } by {
        if k != i || j2 != j {
            assert(l0(m2, root, k, j2) == l0(m, root, k, j2));
            let t = l0(m, root, k, j2).unwrap();
            assert(l1(m, root, i) is Some);
            assert(t != t1);
            assert(m2[t] == m[t]);
        }
    }
    assert forall|k: int, j2: int, k2: int|
        0 <= k < 512 && 0 <= j2 < 512 && 0 <= k2 < 512 && (#[trigger] l0(m2, root, k, j2)) is Some
            && (#[trigger] l1(m2, root, k2)) is Some implies l0(m2, root, k, j2) != l1(m2, root, k2) by {
        assert(l1(m2, root, k2) == l1(m, root, k2));
        if k != i || j2 != j {
            assert(l0(m2, root, k, j2) == l0(m, root, k, j2));
        }
    }
    assert forall|k: int, j2: int, k2: int, j3: int|
        0 <= k < 512 && 0 <= j2 < 512 && 0 <= k2 < 512 && 0 <= j3 < 512 && (k != k2 || j2 != j3)
            && (#[trigger] l0(m2, root, k, j2)) is Some && (#[trigger] l0(m2, root, k2, j3)) is Some
            implies l0(m2, root, k, j2) != l0(m2, root, k2, j3) by {
        if k != i || j2 != j {
            assert(l0(m2, root, k, j2) == l0(m, root, k, j2));
        }
        if k2 != i || j3 != j {
            assert(l0(m2, root, k2, j3) == l0(m, root, k2, j3));
        }
    }
}

/// Writing an entry of a level-0 table changes no directory and keeps the
/// page table well formed.
proof fn lemma_leaf_write(
    m: Map<usize, Seq<PageTableEntry>>,
    root: usize,
    owned: Set<usize>,
    k: int,
    j: int,
    i: int,
    e: PageTableEntry,
)
    requires
        tree_wf(m, root, owned),
        0 <= k < 512,
        0 <= j < 512,
        0 <= i < 512,
        l0(m, root, k, j) is Some,
    ensures
        ({
            let t = l0(m, root, k, j).unwrap();
            let m2 = m.insert(t, m[t].update(i, e));
            &&& tree_wf(m2, root, owned)
            &&& forall|k2: int| 0 <= k2 < 512 ==> #[trigger] l1(m2, root, k2) == l1(m, root, k2)
            &&& forall|k2: int, j2: int|
                0 <= k2 < 512 && 0 <= j2 < 512 ==> #[trigger] l0(m2, root, k2, j2) == l0(m, root, k2, j2)
        }),
{
    let t = l0(m, root, k, j).unwrap();
    let m2 = m.insert(t, m[t].update(i, e));
    assert(m2[root] == m[root]);
    assert forall|k2: int| 0 <= k2 < 512 implies #[trigger] l1(m2, root, k2) == l1(m, root, k2) by {}
    assert forall|k2: int, j2: int| 0 <= k2 < 512 && 0 <= j2 < 512 implies #[trigger] l0(m2, root, k2, j2)
        == l0(m, root, k2, j2) by {
        if l1(m, root, k2) is Some {
            let t1 = l1(m, root, k2).unwrap();
            assert(l0(m, root, k, j) != l1(m, root, k2));
            assert(m2[t1] == m[t1]);
        }
    }
    assert forall|k2: int| 0 <= k2 < 512 && (#[trigger] l1(m2, root, k2)) is Some implies {
        let t2 = l1(m2, root, k2).unwrap();
        frame_ok(m2, t2) && owned.contains(t2) && t2 != root
    } by {
        assert(l1(m2, root, k2) == l1(m, root, k2));
    }
    assert forall|k2: int, j2: int|
        0 <= k2 < 512 && 0 <= j2 < 512 && (#[trigger] l0(m2, root, k2, j2)) is Some implies {
            let t2 = l0(m2, root, k2, j2).unwrap();
            frame_ok(m2, t2) && owned.contains(t2) && t2 != root
        } by {
        assert(l0(m2, root, k2, j2) == l0(m, root, k2, j2));
    }
}

/// The effect of one step of mapping: once `va`'s level-0 entry holds `e`,
/// `va` translates through `e`, and every address in another page below
/// `MAXVA` translates as before.
proof fn lemma_map_step(
    m: Map<usize, Seq<PageTableEntry>>,
    m3: Map<usize, Seq<PageTableEntry>>,
    root: usize,
    owned: Set<usize>,
    va: usize,
    e: PageTableEntry,
)
    requires
        tree_wf(m3, root, owned),
        va as int <= MAXVA as int,
        spec_walk(m3, root, va) is Some,
        m3[spec_walk(m3, root, va).unwrap()][spec_idx(va, 0) as int] == e,
        valid(e),
        forall|k: int, j: int|
            0 <= k < 512 && 0 <= j < 512 && (k != spec_idx(va, 2) || j != spec_idx(va, 1))
                ==> #[trigger] l0(m3, root, k, j) == l0(m, root, k, j),
        forall|k: int, j: int|
            0 <= k < 512 && 0 <= j < 512 && (#[trigger] l0(m, root, k, j)) is Some && l0(m, root, k, j)
                != spec_walk(m3, root, va) ==> m3[l0(m, root, k, j).unwrap()] == m[l0(
                m,
                root,
                k,
                j,
            ).unwrap()],
        spec_walk(m, root, va) is Some ==> spec_walk(m3, root, va) == spec_walk(m, root, va),
        spec_walk(m, root, va) is Some ==> forall|x: int|
            0 <= x < 512 && x != spec_idx(va, 0) ==> #[trigger] m3[spec_walk(m3, root, va).unwrap()][x]
                == m[spec_walk(m3, root, va).unwrap()][x],
        spec_walk(m, root, va) is None ==> forall|x: int|
            0 <= x < 512 && x != spec_idx(va, 0) ==> !valid(
                #[trigger] m3[spec_walk(m3, root, va).unwrap()][x],
            ),
    ensures
        spec_translate(m3, root, va) == Some(e),
        forall|vb: usize|
            vb as int <= MAXVA as int && vb as int / 4096 != va as int / 4096 ==> #[trigger] spec_translate(
                m3,
                root,
                vb,
            ) == spec_translate(m, root, vb),
{
    let t = spec_walk(m3, root, va).unwrap();
    lemma_va_idx(va);
    assert forall|vb: usize|
        vb as int <= MAXVA as int && vb as int / 4096 != va as int / 4096 implies #[trigger] spec_translate(
            m3,
            root,
            vb,
        ) == spec_translate(m, root, vb) by {
        lemma_va_idx(vb);
        let k = spec_idx(vb, 2) as int;
        let j = spec_idx(vb, 1) as int;
        let x = spec_idx(vb, 0) as int;
        if k != spec_idx(va, 2) || j != spec_idx(va, 1) {
            assert(l0(m3, root, k, j) == l0(m, root, k, j));
            if l0(m, root, k, j) is Some {
                assert(l0(m3, root, k, j) != l0(m3, root, spec_idx(va, 2) as int, spec_idx(va, 1) as int));
            }
        } else {
            if x == spec_idx(va, 0) {
                lemma_idx_injective(va, vb);
            }
        }
    }
}

impl Kvm {
    /// The root table page is one the allocator can hand out, so it lies
    /// below the top of memory.
    #[verifier::type_invariant]
    spec fn inv(self) -> bool {
        self.pagetable.page() < last_page()
    }

    /// The root table page.
    pub closed spec fn root(&self) -> usize {
        self.pagetable.page()
    }

    /// The table pages made below the root, in the order they were made.
    pub closed spec fn tables(&self) -> Seq<usize> {
        self.paddr@.map_values(|g: PageGurd| g.page())
    }

    /// Every page this table holds a handle on.
    pub open spec fn owned(&self) -> Set<usize> {
        Set::new(|p: usize| p == self.root() || self.tables().contains(p))
    }

    /// The table is well formed in the memory of allocator `a`, and the
    /// allocator counts every page the table holds as in use.
    pub open spec fn wf(&self, a: &PageAllocer) -> bool {
        &&& a.wf()
        &&& tree_wf(a.frames(), self.root(), self.owned())
        &&& forall|p: usize| #[trigger] self.owned().contains(p) ==> a.pages().alloced.contains_key(p)
    }

    /// A kernel page table with an empty root table.
    pub fn new(a: &mut PageAllocer) -> (r: Self)
        requires
            old(a).wf(),
            old(a).pages().current < old(a).pages().end,
        ensures
            r.wf(final(a)),
            r.root() == spec_alloc(old(a).pages()).1,
            r.tables() == Seq::<usize>::empty(),
            final(a).pages() == spec_alloc(old(a).pages()).0,
            final(a).frames() == old(a).frames().insert(r.root(), zero_frame()),
            forall|vb: usize| #[trigger] spec_translate(final(a).frames(), r.root(), vb) is None,
            forall|k: int| 0 <= k < 512 ==> #[trigger] l1(final(a).frames(), r.root(), k) is None,
    {
        proof {
            lemma_alloc_keeps_wf(old(a).pages());
        }
        let page = a.alloc_page();
        assert(page.page() < last_page());
        let r = Self { pagetable: page, paddr: Vec::new() };
        proof {
            let m = a.frames();
            let root = r.root();
            assert(r.tables() =~= Seq::<usize>::empty());
            assert(forall|k: int| 0 <= k < 512 ==> #[trigger] l1(m, root, k) is None);
            assert(forall|k: int, j: int| 0 <= k < 512 && 0 <= j < 512 ==> #[trigger] l0(m, root, k, j) is None);
            assert forall|p: usize| #[trigger] r.owned().contains(p) implies a.pages().alloced.contains_key(p) by {
                assert(p == root);
            }
        }
        r
    }

    /// Keeps a handle on a table page.
    fn save_page(&mut self, page: PageGurd)
        ensures
            final(self).root() == old(self).root(),
            final(self).tables() == old(self).tables().push(page.page()),
    {
        proof {
            use_type_invariant(&*self);
        }
        let mut paddr: Vec<PageGurd> = Vec::new();
        std::mem::swap(&mut paddr, &mut self.paddr);
        paddr.push(page);
        self.paddr = paddr;
        proof {
            assert(self.tables() =~= old(self).tables().push(page.page()));
        }
    }

    /// Follows entry `i` of table `t` one level down, making a table there
    /// when it is missing and `alloc` asks for it.
    fn descend(&mut self, a: &mut PageAllocer, t: usize, i: usize, alloc: bool) -> (r: Result<usize, VMError>)
        requires
            old(a).wf(),
            frame_ok(old(a).frames(), t),
            old(a).pages().alloced.contains_key(t),
            i < 512,
            alloc && !valid(old(a).frames()[t][i as int]) ==> old(a).pages().current < old(a).pages().end,
        ensures
            valid(old(a).frames()[t][i as int]) ==> {
                &&& r == Ok::<usize, VMError>(child(old(a).frames()[t][i as int]))
                &&& final(a).pages() == old(a).pages()
                &&& final(a).frames() == old(a).frames()
                &&& final(self).root() == old(self).root()
                &&& final(self).tables() == old(self).tables()
            },
            !valid(old(a).frames()[t][i as int]) && !alloc ==> {
                &&& r == Err::<usize, VMError>(VMError::NotAlloc)
                &&& final(a).pages() == old(a).pages()
                &&& final(a).frames() == old(a).frames()
                &&& final(self).root() == old(self).root()
                &&& final(self).tables() == old(self).tables()
            },
            !valid(old(a).frames()[t][i as int]) && alloc ==> {
                let (s2, p) = spec_alloc(old(a).pages());
                &&& r == Ok::<usize, VMError>(p)
                &&& p < last_page()
                &&& !old(a).pages().alloced.contains_key(p)
                &&& final(a).wf()
                &&& final(a).pages() == s2
                &&& final(a).frames() == old(a).frames().insert(p, zero_frame()).insert(
                    t,
                    old(a).frames()[t].update(i as int, dir_entry(p)),
                )
                &&& final(self).root() == old(self).root()
                &&& final(self).tables() == old(self).tables().push(p)
            },
    {
        let e = a.mem().read(t, i);
        if e.is_v() {
            let pa = e.to_pa();
            return Ok(PPageNum::from(pa).0);
        }
        if !alloc {
            return Err(VMError::NotAlloc);
        }
        proof {
            lemma_alloc_keeps_wf(old(a).pages());
        }
        let page = a.alloc_page();
        let pa: PAddress = page.ppn().to_pa();
        let mut e2 = e;
        e2.set(pa.0, PTE_V);
        a.write_pte(t, i, e2);
        let next = PPageNum::from(pa).0;
        proof {
            lemma_pte_encode_decode(pa.0, 1);
        }
        self.save_page(page);
        Ok(next)
    }

    /// Finds the level-0 entry for `va`: the table that holds it and its
    /// index. Missing directories on the way are made from fresh zeroed
    /// pages when `alloc` is set, else the walk fails with `NotAlloc`.
    #[verifier::rlimit(40)]
    pub fn walk(&mut self, a: &mut PageAllocer, va: usize, alloc: bool, perm: usize) -> (r: Result<
        (PPageNum, usize),
        VMError,
    >)
        requires
            old(self).wf(old(a)),
            va as int <= MAXVA as int,
            alloc ==> can_alloc(old(a).pages(), walk_need(old(a).frames(), old(self).root(), va)),
        ensures
            final(self).wf(final(a)),
            final(self).root() == old(self).root(),
            !alloc ==> {
                &&& final(a).pages() == old(a).pages()
                &&& final(a).frames() == old(a).frames()
                &&& final(self).tables() == old(self).tables()
                &&& r == match spec_walk(old(a).frames(), old(self).root(), va) {
                    Some(t) => Ok::<(PPageNum, usize), VMError>((PPageNum(t), spec_idx(va, 0))),
                    None => Err(VMError::NotAlloc),
                }
            },
            alloc ==> {
                let m = old(a).frames();
                let m2 = final(a).frames();
                let root = old(self).root();
                &&& spec_walk(m2, root, va) is Some
                &&& r == Ok::<(PPageNum, usize), VMError>(
                    (PPageNum(spec_walk(m2, root, va).unwrap()), spec_idx(va, 0)),
                )
                &&& final(a).pages() == alloc_n(old(a).pages(), walk_need(m, root, va))
                &&& m2 == walk_frames(m, root, va, old(a).pages())
                &&& final(self).tables() == old(self).tables() + walk_new_tables(
                    m,
                    root,
                    va,
                    old(a).pages(),
                )
                &&& old(self).owned().subset_of(final(self).owned())
                &&& frames_kept_outside(m2, m, final(self).owned())
                &&& spec_walk(m, root, va) is Some ==> m2 == m
                &&& spec_walk(m, root, va) is None ==> m2[spec_walk(m2, root, va).unwrap()]
                    == zero_frame()
                &&& forall|k: int|
                    0 <= k < 512 && k != spec_idx(va, 2) ==> #[trigger] l1(m2, root, k) == l1(m, root, k)
                &&& forall|k: int, j: int|
                    0 <= k < 512 && 0 <= j < 512 && (k != spec_idx(va, 2) || j != spec_idx(va, 1))
                        ==> #[trigger] l0(m2, root, k, j) == l0(m, root, k, j)
                &&& forall|k: int, j: int|
                    0 <= k < 512 && 0 <= j < 512 && (#[trigger] l0(m, root, k, j)) is Some ==> m2[l0(
                        m,
                        root,
                        k,
                        j,
                    ).unwrap()] == m[l0(m, root, k, j).unwrap()]
            },
    {
        let ghost m = a.frames();
        let ghost s = a.pages();
        let ghost root = self.root();
        let ghost owned = self.owned();
        proof {
            reveal(walk_frames);
            reveal(walk_new_tables);
            reveal(frames_kept_outside);
        }
        let i2 = get_idx(va, 2);
        let i1 = get_idx(va, 1);
        let i0 = get_idx(va, 0);
        let t = self.pagetable.ppn().0;
        proof {
            assert(owned.contains(root));
            if alloc && !valid(m[root][i2 as int]) {
                assert(walk_need(m, root, va) == 2);
            }
        }
        let t1 = match self.descend(a, t, i2, alloc) {
            Ok(t1) => t1,
            Err(e) => {
                return Err(e);
            },
        };
        let ghost m1 = a.frames();
        let ghost s1 = a.pages();
        proof {
            if valid(m[root][i2 as int]) {
                assert(l1(m, root, i2 as int) == Some(t1));
                assert(frame_ok(m, t1));
                if alloc && l0(m, root, i2 as int, i1 as int) is None {
                    assert(walk_need(m, root, va) == 1);
                    assert(can_alloc(s, 1));
                    assert(s.current < s.end);
                }
            } else {
                lemma_grow_root(m, root, owned, i2 as int, t1);
                lemma_push_contains(old(self).tables(), t1);
                assert(self.owned() =~= owned.insert(t1));
                assert(m1[t1] == zero_frame());
                assert(!valid(m1[t1][i1 as int]));
                if alloc {
                    assert(can_alloc(s, 2));
                    assert(can_alloc(s1, 1));
                    assert(s1.current < s1.end);
                }
            }
        }
        let t0 = match self.descend(a, t1, i1, alloc) {
            Ok(t0) => t0,
            Err(e) => {
                proof {
                    assert(l1(m, root, i2 as int) == Some(t1));
                    assert(l0(m, root, i2 as int, i1 as int) is None);
                }
                return Err(e);
            },
        };
        proof {
            let m2 = a.frames();
            if valid(m[root][i2 as int]) {
                assert(l1(m, root, i2 as int) == Some(t1));
                if valid(m[t1][i1 as int]) {
                    assert(l0(m, root, i2 as int, i1 as int) == Some(t0));
                } else {
                    lemma_grow_l1(m, root, owned, i2 as int, i1 as int, t0);
                    lemma_push_contains(old(self).tables(), t0);
                    assert(self.owned() =~= owned.insert(t0));
                    assert(alloc_n(a.pages(), 0) == a.pages());
                    assert(a.pages() == alloc_n(s, 1));
                }
            } else {
                let owned1 = owned.insert(t1);
                lemma_grow_l1(m1, root, owned1, i2 as int, i1 as int, t0);
                lemma_push_contains(old(self).tables().push(t1), t0);
                assert(self.owned() =~= owned1.insert(t0));
                assert(alloc_n(a.pages(), 0) == a.pages());
                assert(alloc_n(s1, 1) == a.pages());
                assert(alloc_n(s, 2) == a.pages());
                assert forall|k: int, j: int|
                    0 <= k < 512 && 0 <= j < 512 && (#[trigger] l0(m, root, k, j)) is Some implies m2[l0(
                        m,
                        root,
                        k,
                        j,
                    ).unwrap()] == m[l0(m, root, k, j).unwrap()] by {
                    let tt = l0(m, root, k, j).unwrap();
                    assert(l0(m1, root, k, j) == l0(m, root, k, j));
                    assert(l1(m1, root, k) == l1(m, root, k));
                }
            }
        }
        Ok((PPageNum(t0), i0))
    }

    /// Maps the pages from the one that holds `va` to the one that holds
    /// `va + sz - 1` onto consecutive physical pages from `pa`, with
    /// permission bits `perm`, making missing directories on the way.
    #[verifier::rlimit(60)]
    pub fn mappages(&mut self, a: &mut PageAllocer, va: VAddress, pa: PAddress, sz: usize, perm: usize) -> (r: Result<
        (),
        VMError,
    >)
        requires
            old(self).wf(old(a)),
            sz > 0,
            va.0 + sz <= usize::MAX,
            spec_pgrounddown(va.0 + sz - 1) <= MAXVA as int,
            pa.0 + (last_vpn(va, sz) - first_vpn(va)) * 4096 <= usize::MAX,
            forall|vb: usize|
                vb as int <= MAXVA as int && first_vpn(va) <= vb as int / 4096 <= last_vpn(va, sz) ==> #[trigger] spec_translate(old(a).frames(), old(self).root(), vb) is None,
            can_alloc(
                old(a).pages(),
                map_need(old(a).frames(), old(self).root(), first_vpn(va), last_vpn(va, sz)),
            ),
        ensures
            r == Ok::<(), VMError>(()),
            final(self).wf(final(a)),
            final(self).root() == old(self).root(),
            final(a).pages() == alloc_n(
                old(a).pages(),
                map_need(old(a).frames(), old(self).root(), first_vpn(va), last_vpn(va, sz)),
            ),
            forall|vb: usize|
                vb as int <= MAXVA as int && first_vpn(va) <= vb as int / 4096 <= last_vpn(va, sz) ==> #[trigger] spec_translate(final(a).frames(), old(self).root(), vb)
                    == Some(map_entry(pa.0, first_vpn(va), vb as int / 4096, perm)),
            forall|vb: usize|
                vb as int <= MAXVA as int && !(first_vpn(va) <= vb as int / 4096 <= last_vpn(va, sz)) ==> #[trigger] spec_translate(final(a).frames(), old(self).root(), vb)
                    == spec_translate(old(a).frames(), old(self).root(), vb),
            forall|vb: usize|
                vb as int <= MAXVA as int && va.0 as int / 4096 <= vb as int / 4096 <= (va.0 + sz
                    - 1) as int / 4096 ==> #[trigger] spec_translate(final(a).frames(), old(self).root(), vb)
                    == Some(map_entry(pa.0, va.0 as int / 4096, vb as int / 4096, perm)),
            forall|vb: usize|
                vb as int <= MAXVA as int && (vb as int / 4096 < va.0 as int / 4096 || (va.0 + sz
                    - 1) as int / 4096 < vb as int / 4096) ==> #[trigger] spec_translate(
                    final(a).frames(),
                    old(self).root(),
                    vb,
                ) == spec_translate(old(a).frames(), old(self).root(), vb),
            dirs_made(final(a).frames(), old(a).frames(), old(self).root(), first_vpn(va), last_vpn(va, sz) + 1),
            old(self).owned().subset_of(final(self).owned()),
            frames_kept_outside(final(a).frames(), old(a).frames(), final(self).owned()),
    {
        let ghost m0 = a.frames();
        let ghost s0 = a.pages();
        let ghost root = self.root();
        let ghost p0 = va.0 as int / 4096;
        let ghost l = (va.0 + sz - 1) as int / 4096;
        let ghost need0 = map_need(m0, root, p0, l);
        let ghost owned0 = self.owned();
        let mut cur = pgrounddown(va.0);
        let last = pgrounddown(va.0 + sz - 1);
        let mut pa_cur = pa.0;
        proof {
            assert(alloc_n(s0, 0) == s0);
            reveal(frames_kept_outside);
            reveal(dirs_made);
            reveal(mapped_run);
            reveal(unmapped_run);
            reveal(same_outside);
        }
        loop
            invariant_except_break
                0 <= p0 <= cur as int / 4096 <= l,
                cur as int % 4096 == 0,
                last as int == l * 4096,
                cur as int <= last as int,
                pa_cur as int == pa.0 + (cur as int / 4096 - p0) * 4096,
                pa.0 + (l - p0) * 4096 <= usize::MAX,
                l * 4096 <= MAXVA as int,
                self.wf(a),
                self.root() == root,
                map_need(a.frames(), root, cur as int / 4096, l) <= need0,
                can_alloc(a.pages(), map_need(a.frames(), root, cur as int / 4096, l)),
                a.pages() == alloc_n(s0, (need0 - map_need(a.frames(), root, cur as int / 4096, l)) as nat),
                mapped_run(a.frames(), root, pa.0, p0, cur as int / 4096, perm),
                unmapped_run(a.frames(), root, cur as int / 4096, l),
                same_outside(a.frames(), m0, root, p0, l),
                dirs_made(a.frames(), m0, root, p0, cur as int / 4096),
                owned0.subset_of(self.owned()),
                frames_kept_outside(a.frames(), m0, self.owned()),
            ensures
                self.wf(a),
                self.root() == root,
                a.pages() == alloc_n(s0, need0),
                mapped_run(a.frames(), root, pa.0, p0, l + 1, perm),
                same_outside(a.frames(), m0, root, p0, l),
                dirs_made(a.frames(), m0, root, p0, l + 1),
                owned0.subset_of(self.owned()),
                frames_kept_outside(a.frames(), m0, self.owned()),
            decreases l - cur as int / 4096,
        {
            let ghost m = a.frames();
            let ghost s = a.pages();
            let ghost o = self.owned();
            let ghost p = cur as int / 4096;
            let ghost need = map_need(m, root, p, l);
            let ghost w = walk_need(m, root, cur);
            proof {
                lemma_map_loop_pre(m, s, root, p, l, cur);
            }
            let res = self.walk(a, cur, true, perm);
            let (t0, i0) = match res {
                Ok(loc) => loc,
                Err(e) => {
                    proof {
                        // Enough pages are left for every missing directory.
                        assert(false);
                    }
                    return Err(e);
                },
            };
            let ghost m2 = a.frames();
            let e = a.mem().read(t0.0, i0);
            proof {
                // The pages still to map translate to nothing, so the entry
                // found is not in use: `mappages` never remaps a page.
                reveal(unmapped_run);
                assert(spec_translate(m, root, cur) is None);
                assert(!valid(e));
            }
            let mut e2 = e;
            e2.set(pa_cur, perm | PTE_V);
            a.write_pte(t0.0, i0, e2);
            proof {
                let m3 = a.frames();
                let owned = self.owned();
                lemma_kept_trans(m0, m, m2, o, owned, t0.0, m2[t0.0].update(i0 as int, e2));
                lemma_leaf_write(m2, root, owned, spec_idx(cur, 2) as int, spec_idx(cur, 1) as int, i0 as int, e2);
                lemma_map_entry_valid(pa_cur, perm);
                assert(e2 == map_entry(pa.0, p0, p, perm));
                lemma_map_step(m, m3, root, owned, cur, e2);
                lemma_map_loop_step(m0, m, m3, root, pa.0, p0, p, l, perm, cur);
                lemma_map_loop_post(m, m2, m3, s, s0, root, p, l, cur, need0);
                lemma_va_idx(cur);
                assert forall|g: int| 0 <= g < 512 && g != p / 262144 implies #[trigger] l1(m3, root, g) == l1(m, root, g) by {
                    assert(l1(m3, root, g) == l1(m2, root, g));
                }
                assert forall|k: int, j: int|
                    0 <= k < 512 && 0 <= j < 512 && (k != p / 262144 || j != (p / 512) % 512) implies #[trigger] l0(
                        m3,
                        root,
                        k,
                        j,
                    ) == l0(m, root, k, j) by {
                    assert(l0(m3, root, k, j) == l0(m2, root, k, j));
                }
                lemma_dirs_step(m0, m, m3, root, p0, p);
            }
            if cur == last {
                break;
            }
            cur = cur + PGSIZE;
            pa_cur = pa_cur + PGSIZE;
        }
        proof {
            reveal(mapped_run);
            reveal(same_outside);
        }
        Ok(())
    }

    /// Maps the kernel's physical memory onto itself, readable, writable
    /// and executable: from `KERNBASE` to the end of the kernel text at
    /// `etext`, then from `etext` to `PHYSTOP`.
    #[verifier::rlimit(60)]
    pub fn kvmmake(&mut self, a: &mut PageAllocer, etext: usize)
        requires
            old(self).wf(old(a)),
            KERNBASE < etext < PHYSTOP,
            etext % 4096 == 0,
            forall|vb: usize|
                vb as int <= MAXVA as int && kernel_first_vpn() <= vb as int / 4096 <= kernel_last_vpn()
                    ==> #[trigger] spec_translate(old(a).frames(), old(self).root(), vb) is None,
            can_alloc(
                old(a).pages(),
                map_need(old(a).frames(), old(self).root(), kernel_first_vpn(), kernel_last_vpn()),
            ),
        ensures
            final(self).wf(final(a)),
            final(self).root() == old(self).root(),
            final(a).pages() == alloc_n(
                old(a).pages(),
                map_need(old(a).frames(), old(self).root(), kernel_first_vpn(), kernel_last_vpn()),
            ),
            forall|vb: usize|
                vb as int <= MAXVA as int && kernel_first_vpn() <= vb as int / 4096 <= kernel_last_vpn()
                    ==> #[trigger] spec_translate(final(a).frames(), old(self).root(), vb) == Some(
                    identity_entry(vb as int / 4096, PTE_R | PTE_X | PTE_W),
                ),
            forall|vb: usize|
                vb as int <= MAXVA as int && !(kernel_first_vpn() <= vb as int / 4096 <= kernel_last_vpn()) ==> #[trigger] spec_translate(final(a).frames(), old(self).root(), vb)
                    == spec_translate(old(a).frames(), old(self).root(), vb),
            old(self).owned().subset_of(final(self).owned()),
            frames_kept_outside(final(a).frames(), old(a).frames(), final(self).owned()),
    {
        let ghost m0 = a.frames();
        let ghost s0 = a.pages();
        let ghost root = self.root();
        let ghost k = KERNBASE as int / 4096;
        let ghost e = etext as int / 4096;
        let ghost top = (PHYSTOP - 1) as int / 4096;
        let perm = PTE_R | PTE_X | PTE_W;
        let va1 = VAddress::from(KERNBASE);
        let pa1 = PAddress::from(KERNBASE);
        proof {
            assert(KERNBASE as int % pa_space() == KERNBASE as int);
            assert(KERNBASE as int % 0x80_0000_0000 == KERNBASE as int);
            assert(va1.0 == KERNBASE);
            assert(pa1.0 == KERNBASE);
            assert(first_vpn(va1) == k);
            assert(last_vpn(va1, (etext - KERNBASE) as usize) == e - 1);
            lemma_kvmmake_first(m0, s0, root, k, e, top);
        }
        let _ = self.mappages(a, va1, pa1, etext - KERNBASE, perm);
        let ghost m1 = a.frames();
        let ghost o1 = self.owned();
        let va2 = VAddress::from(etext);
        let pa2 = PAddress::from(etext);
        proof {
            assert(etext as int % pa_space() == etext as int);
            assert(etext as int % 0x80_0000_0000 == etext as int);
            assert(va2.0 == etext);
            assert(pa2.0 == etext);
            assert(first_vpn(va2) == e);
            assert(last_vpn(va2, (PHYSTOP - etext) as usize) == top);
            lemma_kvmmake_second(m0, m1, s0, root, k, e, top);
        }
        let _ = self.mappages(a, va2, pa2, PHYSTOP - etext, perm);
        proof {
            lemma_kvmmake_translate(m0, m1, a.frames(), root, k, e, top, KERNBASE, etext, perm);
            let m2 = a.frames();
            lemma_kept_trans(m0, m1, m2, o1, self.owned(), root, m2[root]);
        }
    }

    /// The value of the `satp` register that selects this table: Sv39 mode
    /// in the top four bits, the root table's page number below.
    pub fn as_satp(&self) -> (r: usize)
        requires
            usize::BITS == 64,
        ensures
            r as int == 8 * 0x1000_0000_0000_0000 + self.root(),
    {
        proof {
            use_type_invariant(self);
        }
        let pa = self.pagetable.ppn().to_pa().0;
        let root = self.pagetable.ppn().0;
        let sv_39: u64 = 8;
        let pa64 = pa as u64;
        assert(pa64 == root * 4096);
        let r64 = (sv_39 << 60u64) | (pa64 >> 12u64);
        assert(r64 == 0x8000_0000_0000_0000u64 + pa64 / 4096) by (bit_vector)
            requires
                r64 == (sv_39 << 60u64) | (pa64 >> 12u64),
                sv_39 == 8,
                pa64 < 0x100_0000_0000_0000u64;
        assert(usize::MAX == 0xffff_ffff_ffff_ffff);
        let r = r64 as usize;
        r
    }
}

/// The allocator never hands out a page that the kernel table holds: the
/// next page it gives is not one of the table's pages.
pub proof fn lemma_table_pages_not_handed_out(kvm: &Kvm, a: &PageAllocer)
    requires
        kvm.wf(a),
        a.pages().current < a.pages().end,
    ensures
        !kvm.owned().contains(spec_alloc(a.pages()).1),
{
    lemma_alloc_keeps_wf(a.pages());
}

} // verus!
