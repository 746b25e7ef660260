//! The physical page allocator: a bump pointer over the pages above the
//! kernel image, a stack of returned pages, and a count of the handles that
//! are out for each page in use.
use vstd::prelude::*;
use std::collections::BTreeMap;
use crate::lock::SpinLock;
use crate::memlayout::PHYSTOP;
use crate::riscv::{pgroundup, spec_pgroundup, PGSIZE};
use super::pages::{PPageNum, PhysMem, zero_frame};

verus! {

/// The abstract state of the allocator.
pub struct AllPagesView {
    /// The next page that has never been handed out.
    pub current: usize,
    /// The bump pointer may not pass this page.
    pub end: usize,
    /// Pages handed back, most recent last.
    pub free: Seq<usize>,
    /// Pages in use, each with the number of handles that are out for it.
    pub alloced: Map<usize, usize>,
}

/// The physical page allocator.
pub struct AllPages {
    current: PPageNum,
    end: PPageNum,
    free: Vec<PPageNum>,
    alloced: BTreeMap<usize, usize>,
}

/// A handle on an allocated page. The allocator counts the handles that are
/// out for each page; the page is handed back once the last one is released.
/// Only the allocator makes handles, so each one it counts is one it gave.
pub struct PageGurd {
    inner: PPageNum,
}

impl PageGurd {
    fn new(inner: PPageNum) -> (r: Self)
        ensures
            r.page() == inner.0,
    {
        Self { inner }
    }

    /// The page this handle is on.
    pub closed spec fn page(&self) -> usize {
        self.inner.0
    }

    /// The page this handle is on.
    pub fn ppn(&self) -> (r: PPageNum)
        ensures
            r.0 == self.page(),
    {
        self.inner
    }
}

impl View for AllPages {
    type V = AllPagesView;

    closed spec fn view(&self) -> AllPagesView {
        AllPagesView {
            current: self.current.0,
            end: self.end.0,
            free: self.free@.map_values(|p: PPageNum| p.0),
            alloced: self.alloced@,
        }
    }
}

/// The first page the allocator hands out, for a kernel image that ends at
/// `ekernel`.
pub open spec fn first_page(ekernel: usize) -> usize {
    (spec_pgroundup(ekernel as int) / 4096) as usize
}

/// The page the bump pointer stops at: 100 pages below the top of memory.
pub open spec fn last_page() -> usize {
    ((PHYSTOP - 100 * 4096) / 4096) as usize
}

/// The state after handing out one page.
pub open spec fn spec_alloc(s: AllPagesView) -> (AllPagesView, usize) {
    if s.free.len() > 0 {
        let p = s.free.last();
        (AllPagesView { free: s.free.drop_last(), alloced: s.alloced.insert(p, 1), ..s }, p)
    } else {
        let p = s.current;
        (AllPagesView { current: (s.current + 1) as usize, alloced: s.alloced.insert(p, 1), ..s }, p)
    }
}

/// The state after one handle on page `p` is released: the last handle puts
/// the page back on the free stack.
pub open spec fn spec_dealloc(s: AllPagesView, p: usize) -> AllPagesView {
    if !s.alloced.contains_key(p) {
        s
    } else if s.alloced[p] <= 1 {
        AllPagesView { free: s.free.push(p), alloced: s.alloced.remove(p), ..s }
    } else {
        AllPagesView { alloced: s.alloced.insert(p, (s.alloced[p] - 1) as usize), ..s }
    }
}

/// The state after `k` more handles are given out on page `p`.
pub open spec fn share_n(s: AllPagesView, p: usize, k: nat) -> AllPagesView
    decreases k,
{
    if k == 0 {
        s
    } else {
        let t = share_n(s, p, (k - 1) as nat);
        AllPagesView { alloced: t.alloced.insert(p, (t.alloced[p] + 1) as usize), ..t }
    }
}

/// The state after `k` handles on page `p` are released, one after another.
pub open spec fn release_n(s: AllPagesView, p: usize, k: nat) -> AllPagesView
    decreases k,
{
    if k == 0 {
        s
    } else {
        spec_dealloc(release_n(s, p, (k - 1) as nat), p)
    }
}

/// The state after handing out `k` pages in a row.
pub open spec fn alloc_n(s: AllPagesView, k: nat) -> AllPagesView
    decreases k,
{
    if k == 0 {
        s
    } else {
        alloc_n(spec_alloc(s).0, (k - 1) as nat)
    }
}

/// Whether `k` pages can be handed out in a row: handing out a page panics
/// when the bump pointer has reached its end, even with pages on the free
/// stack.
pub open spec fn can_alloc(s: AllPagesView, k: nat) -> bool
    decreases k,
{
    k == 0 || (s.current < s.end && can_alloc(spec_alloc(s).0, (k - 1) as nat))
}

/// Handing out `x` pages and then `y` more is handing out `x + y` pages;
/// when `x + y` pages can be handed out, the first `x` can, and `y` more
/// can after them.
pub proof fn lemma_alloc_n_split(s: AllPagesView, x: nat, y: nat)
    ensures
        alloc_n(alloc_n(s, x), y) == alloc_n(s, x + y),
        can_alloc(s, x + y) ==> can_alloc(s, x) && can_alloc(alloc_n(s, x), y),
    decreases x,
{
    if x > 0 {
        lemma_alloc_n_split(spec_alloc(s).0, (x - 1) as nat, y);
        assert((x + y - 1) as nat == (x - 1) as nat + y);
    }
}

/// Handing out pages keeps the invariant.
pub proof fn lemma_alloc_n_keeps_wf(s: AllPagesView, k: nat)
    requires
        s.wf(),
        can_alloc(s, k),
    ensures
        alloc_n(s, k).wf(),
    decreases k,
{
    if k > 0 {
        lemma_alloc_keeps_wf(s);
        lemma_alloc_n_keeps_wf(spec_alloc(s).0, (k - 1) as nat);
    }
}

/// When `k` pages can be handed out in a row: the free stack serves first,
/// the bump pointer the rest, and every handout needs the bump pointer below
/// its end.
pub proof fn lemma_can_alloc_closed_form(s: AllPagesView, k: nat)
    ensures
        can_alloc(s, k) <==> (k == 0 || (k <= s.free.len() && s.current < s.end) || (k
            > s.free.len() && s.current + (k - s.free.len()) <= s.end)),
    decreases k,
{
    if k > 0 {
        lemma_can_alloc_closed_form(spec_alloc(s).0, (k - 1) as nat);
    }
}

/// Releasing a handle panics on a page above the bump pointer that is on
/// the free stack.
pub open spec fn dealloc_panics(s: AllPagesView, p: usize) -> bool {
    p > s.current && s.free.contains(p)
}

impl AllPagesView {
    /// The allocator's invariant: the bump pointer stops below the top of
    /// memory, every page it knows of lies below the bump pointer, the free stack holds no page twice, no page is both free and
    /// in use, and a page in use has at least one handle out.
    pub open spec fn wf(self) -> bool {
        &&& self.end <= last_page()
        &&& forall|i: int| 0 <= i < self.free.len() ==> #[trigger] self.free[i] < self.current
        &&& self.free.no_duplicates()
        &&& forall|p: usize| #[trigger] self.alloced.contains_key(p) ==> p < self.current
            && self.alloced[p] >= 1 && !self.free.contains(p)
    }
}

/// Handing out a page keeps the invariant, and the page handed out was
/// neither in use nor free before, and is not free after.
pub proof fn lemma_alloc_keeps_wf(s: AllPagesView)
    requires
        s.wf(),
        s.current < s.end,
    ensures
        spec_alloc(s).0.wf(),
        !s.alloced.contains_key(spec_alloc(s).1),
        !spec_alloc(s).0.free.contains(spec_alloc(s).1),
        spec_alloc(s).0.alloced[spec_alloc(s).1] == 1,
{
    let (t, p) = spec_alloc(s);
    if s.free.len() > 0 {
        let f = s.free;
        assert(f[f.len() - 1] == p);
        assert forall|i: int| 0 <= i < t.free.len() implies #[trigger] t.free[i] != p by {
            assert(t.free[i] == f[i]);
        }
        assert forall|q: usize| #[trigger] t.alloced.contains_key(q) implies q < t.current
            && t.alloced[q] >= 1 && !t.free.contains(q) by {
            if q != p {
                if t.free.contains(q) {
                    let k = choose|k: int| 0 <= k < t.free.len() && t.free[k] == q;
                    assert(f[k] == q);
                }
            }
        }
    } else {
        assert forall|q: usize| #[trigger] t.alloced.contains_key(q) implies q < t.current
            && t.alloced[q] >= 1 && !t.free.contains(q) by {}
    }
}

/// Releasing a handle keeps the invariant, and on a valid allocator it never
/// panics.
pub proof fn lemma_dealloc_keeps_wf(s: AllPagesView, p: usize)
    requires
        s.wf(),
    ensures
        !dealloc_panics(s, p),
        spec_dealloc(s, p).wf(),
{
    if s.free.contains(p) {
        let k = choose|k: int| 0 <= k < s.free.len() && s.free[k] == p;
        assert(s.free[k] < s.current);
    }
    let t = spec_dealloc(s, p);
    if s.alloced.contains_key(p) && s.alloced[p] <= 1 {
        assert forall|i: int| 0 <= i < t.free.len() implies #[trigger] t.free[i] < t.current by {
            if i < s.free.len() {
                assert(t.free[i] == s.free[i]);
            }
        }
        assert forall|q: usize| #[trigger] t.alloced.contains_key(q) implies q < t.current
            && t.alloced[q] >= 1 && !t.free.contains(q) by {
            assert(s.alloced.contains_key(q));
            if t.free.contains(q) {
                let k = choose|k: int| 0 <= k < t.free.len() && t.free[k] == q;
                if k < s.free.len() {
                    assert(s.free[k] == q);
                }
            }
        }
        assert(t.free.no_duplicates()) by {
            assert forall|i: int, j: int| 0 <= i < t.free.len() && 0 <= j < t.free.len() && i
                != j implies t.free[i] != t.free[j] by {
                if i < s.free.len() && j < s.free.len() {
                } else if i < s.free.len() {
                    assert(t.free[j] == p);
                    assert(s.free[i] == t.free[i]);
                } else {
                    assert(t.free[i] == p);
                    assert(s.free[j] == t.free[j]);
                }
            }
        }
    }
}

/// A page handed out from the free stack and released through its only
/// handle leaves the allocator as it was; a page taken from the bump pointer
/// ends up on the free stack, with the bump pointer one page further on.
pub proof fn lemma_alloc_then_dealloc(s: AllPagesView)
    requires
        s.wf(),
        s.current < s.end,
    ensures
        s.free.len() > 0 ==> spec_dealloc(spec_alloc(s).0, spec_alloc(s).1) == s,
        s.free.len() == 0 ==> spec_dealloc(spec_alloc(s).0, spec_alloc(s).1) == (AllPagesView {
            current: (s.current + 1) as usize,
            free: seq![s.current],
            ..s
        }),
{
    let (t, p) = spec_alloc(s);
    lemma_alloc_keeps_wf(s);
    let u = spec_dealloc(t, p);
    assert(u.alloced =~= s.alloced);
    if s.free.len() > 0 {
        assert(u.free =~= s.free);
    } else {
        assert(u.free =~= seq![s.current]);
    }
}

/// Releasing one of `n >= 2` handles on a page leaves `n - 1` counted and
/// the free stack as it was; releasing the last handle takes the page out of
/// use and puts it on top of the free stack. Nothing else changes.
pub proof fn lemma_release_one(s: AllPagesView, p: usize)
    requires
        s.alloced.contains_key(p),
        s.alloced[p] >= 1,
    ensures
        s.alloced[p] >= 2 ==> spec_dealloc(s, p).alloced.contains_key(p) && spec_dealloc(
            s,
            p,
        ).alloced[p] + 1 == s.alloced[p] && spec_dealloc(s, p).free == s.free,
        s.alloced[p] == 1 ==> !spec_dealloc(s, p).alloced.contains_key(p) && spec_dealloc(
            s,
            p,
        ).free == s.free.push(p),
        forall|q: usize|
            q != p ==> (#[trigger] spec_dealloc(s, p).alloced.contains_key(q)
                == s.alloced.contains_key(q) && spec_dealloc(s, p).alloced[q] == s.alloced[q]),
        spec_dealloc(s, p).current == s.current && spec_dealloc(s, p).end == s.end,
{
}

proof fn lemma_share_n(s: AllPagesView, p: usize, k: nat)
    requires
        s.alloced.contains_key(p),
        s.alloced[p] + k <= usize::MAX,
    ensures
        share_n(s, p, k) == (AllPagesView {
            alloced: s.alloced.insert(p, (s.alloced[p] + k) as usize),
            ..s
        }),
    decreases k,
{
    if k > 0 {
        lemma_share_n(s, p, (k - 1) as nat);
        let t = share_n(s, p, (k - 1) as nat);
        assert(t.alloced.insert(p, (t.alloced[p] + 1) as usize) =~= s.alloced.insert(
            p,
            (s.alloced[p] + k) as usize,
        ));
    } else {
        assert(s.alloced.insert(p, s.alloced[p]) =~= s.alloced);
    }
}

proof fn lemma_release_n(s: AllPagesView, p: usize, k: nat, j: nat)
    requires
        s.alloced.contains_key(p),
        s.alloced[p] == 1,
        1 + k <= usize::MAX,
        j <= k,
    ensures
        release_n(share_n(s, p, k), p, j) == (AllPagesView {
            alloced: s.alloced.insert(p, (1 + k - j) as usize),
            ..s
        }),
    decreases j,
{
    lemma_share_n(s, p, k);
    if j > 0 {
        lemma_release_n(s, p, k, (j - 1) as nat);
        let t = release_n(share_n(s, p, k), p, (j - 1) as nat);
        assert(t.alloced.insert(p, (t.alloced[p] - 1) as usize) =~= s.alloced.insert(
            p,
            (1 + k - j) as usize,
        ));
    } else {
        assert(s.alloced.insert(p, (1 + k) as usize) =~= share_n(s, p, k).alloced);
    }
}

/// A page in use with one handle, on which `k` more handles are given out,
/// stays in use through the first `k` releases, each leaving one handle
/// fewer counted and the free stack untouched; only the release after them
/// puts it back on the free stack.
pub proof fn lemma_share_then_release(s: AllPagesView, p: usize, k: nat)
    requires
        s.alloced.contains_key(p),
        s.alloced[p] == 1,
        1 + k <= usize::MAX,
    ensures
        forall|j: nat|
            j <= k ==> (#[trigger] release_n(share_n(s, p, k), p, j)).alloced.contains_key(p)
                && release_n(share_n(s, p, k), p, j).alloced[p] == 1 + k - j && release_n(
                share_n(s, p, k),
                p,
                j,
            ).free == s.free,
        !release_n(share_n(s, p, k), p, k + 1).alloced.contains_key(p),
        release_n(share_n(s, p, k), p, k + 1).free == s.free.push(p),
{
    assert forall|j: nat| j <= k implies (#[trigger] release_n(share_n(s, p, k), p, j)).alloced.contains_key(p)
        && release_n(share_n(s, p, k), p, j).alloced[p] == 1 + k - j && release_n(
        share_n(s, p, k),
        p,
        j,
    ).free == s.free by {
        lemma_release_n(s, p, k, j);
    }
    lemma_release_n(s, p, k, k);
    let t = release_n(share_n(s, p, k), p, k);
    assert(release_n(share_n(s, p, k), p, k + 1) == spec_dealloc(t, p));
}

/// Moving the bump pointer to where `init` puts it keeps the invariant when
/// every page the allocator knows of lies below the new pointer.
pub proof fn lemma_init_keeps_wf(s: AllPagesView, ekernel: usize)
    requires
        s.wf(),
        forall|i: int| 0 <= i < s.free.len() ==> #[trigger] s.free[i] < first_page(ekernel),
        forall|p: usize| #[trigger] s.alloced.contains_key(p) ==> p < first_page(ekernel),
    ensures
        (AllPagesView { current: first_page(ekernel), end: last_page(), ..s }).wf(),
{
}

impl AllPages {
    /// An allocator with nothing to hand out yet.
    pub fn new() -> (r: Self)
        ensures
            r@ == (AllPagesView {
                current: 0,
                end: 0,
                free: Seq::empty(),
                alloced: Map::empty(),
            }),
            r@.wf(),
    {
        let r = Self {
            current: PPageNum(0),
            end: PPageNum(0),
            free: Vec::new(),
            alloced: BTreeMap::new(),
        };
        assert(r@.free =~= Seq::<usize>::empty());
        r
    }

    /// Sets the range of never-used pages to the pages from the end of the
    /// kernel image, which ends at `ekernel`, up to 100 pages below the top
    /// of memory.
    pub fn init(&mut self, ekernel: usize)
        requires
            ekernel + PGSIZE - 1 <= usize::MAX,
        ensures
            final(self)@ == (AllPagesView {
                current: first_page(ekernel),
                end: last_page(),
                ..old(self)@
            }),
    {
        let start = pgroundup(ekernel);
        self.current = PPageNum::from(start);
        self.end = PPageNum::from(PHYSTOP - 100 * PGSIZE);
    }

    /// Hands out a page: the most recently returned one, else the page at
    /// the bump pointer. The page gets one handle.
    pub fn alloc_page(&mut self) -> (page: PPageNum)
        requires
            old(self)@.current < old(self)@.end,
        ensures
            (final(self)@, page.0) == spec_alloc(old(self)@),
    {
        broadcast use vstd::std_specs::btree::group_btree_axioms;
        let page: Option<PPageNum> = self.free.pop();
        match page {
            None => {
                let now = self.current;
                self.current = self.current.add_one();
                self.alloced.insert(now.0, 1);
                proof {
                    assert(self@.free =~= old(self)@.free);
                }
                now
            },
            Some(now) => {
                self.alloced.insert(now.0, 1);
                proof {
                    assert(self@.free =~= old(self)@.free.drop_last());
                }
                now
            },
        }
    }

    /// Releases one handle on `page`; the last handle puts the page back on
    /// the free stack.
    pub fn dealloc(&mut self, page: PPageNum)
        requires
            !dealloc_panics(old(self)@, page.0),
        ensures
            final(self)@ == spec_dealloc(old(self)@, page.0),
            old(self)@.alloced.contains_key(page.0) && old(self)@.alloced[page.0] >= 2 ==> final(self)@.alloced[page.0] + 1 == old(self)@.alloced[page.0] && final(self)@.free == old(self)@.free,
            old(self)@.alloced.contains_key(page.0) && old(self)@.alloced[page.0] == 1 ==> !final(self)@.alloced.contains_key(page.0) && final(self)@.free == old(self)@.free.push(page.0),
    {
        broadcast use vstd::std_specs::btree::group_btree_axioms;
        if page.0 > self.current.0 {
            let found = self.free_contains(page);
            assert(!found);
        }
        match self.alloced.get(&page.0) {
            None => {},
            Some(n) => {
                let n = *n;
                if n <= 1 {
                    self.alloced.remove(&page.0);
                    self.free.push(page);
                    proof {
                        assert(self@.free =~= old(self)@.free.push(page.0));
                        assert(self@.alloced =~= old(self)@.alloced.remove(page.0));
                    }
                } else {
                    self.alloced.insert(page.0, n - 1);
                }
            },
        }
    }

    /// Whether `page` is on the free stack.
    fn free_contains(&self, page: PPageNum) -> (r: bool)
        ensures
            r == self@.free.contains(page.0),
    {
        let mut i: usize = 0;
        while i < self.free.len()
            invariant
                i <= self.free@.len(),
                forall|j: int| 0 <= j < i ==> self.free@[j].0 != page.0,
            decreases self.free@.len() - i,
        {
            if self.free[i].0 == page.0 {
                assert(self@.free[i as int] == page.0);
                return true;
            }
            i = i + 1;
        }
        proof {
            if self@.free.contains(page.0) {
                let k = choose|k: int| 0 <= k < self@.free.len() && self@.free[k] == page.0;
                assert(self.free@[k].0 == page.0);
            }
        }
        false
    }

    /// Whether `k` pages can be handed out in a row without a panic.
    pub fn available(&self, k: usize) -> (r: bool)
        ensures
            r == can_alloc(self@, k as nat),
    {
        proof {
            lemma_can_alloc_closed_form(self@, k as nat);
        }
        let f = self.free.len();
        if k == 0 {
            true
        } else if k <= f {
            self.current.0 < self.end.0
        } else {
            self.current.0 <= self.end.0 && k - f <= self.end.0 - self.current.0
        }
    }

    /// Gives out one more handle on `page`, which is in use.
    pub fn share(&mut self, page: PPageNum)
        requires
            old(self)@.alloced.contains_key(page.0),
            old(self)@.alloced[page.0] < usize::MAX,
        ensures
            final(self)@ == (AllPagesView {
                alloced: old(self)@.alloced.insert(page.0, (old(self)@.alloced[page.0] + 1) as usize),
                ..old(self)@
            }),
    {
        broadcast use vstd::std_specs::btree::group_btree_axioms;
        let n = *self.alloced.get(&page.0).unwrap();
        self.alloced.insert(page.0, n + 1);
    }
}


/// The allocator behind its lock, together with the physical frames it
/// hands out.
pub struct PageAllocer {
    allocer: SpinLock<AllPages>,
    mem: PhysMem,
}

impl PageAllocer {
    /// The state of the allocator.
    pub closed spec fn pages(&self) -> AllPagesView {
        self.allocer.value()@
    }

    /// The contents of physical memory.
    pub closed spec fn frames(&self) -> Map<usize, Seq<super::pages::PageTableEntry>> {
        self.mem@
    }

    /// The allocator's invariant holds and every frame holds 512 entries.
    pub open spec fn wf(&self) -> bool {
        &&& self.pages().wf()
        &&& forall|p: usize| #[trigger] self.frames().contains_key(p) ==> self.frames()[p].len()
            == 512
    }

    /// An allocator with nothing to hand out, over empty memory.
    pub fn new() -> (r: Self)
        ensures
            r.pages() == (AllPagesView {
                current: 0,
                end: 0,
                free: Seq::empty(),
                alloced: Map::empty(),
            }),
            r.frames() == Map::<usize, Seq<super::pages::PageTableEntry>>::empty(),
            r.wf(),
    {
        Self { allocer: SpinLock::new(AllPages::new()), mem: PhysMem::new() }
    }

    /// Hands out a page, cleared to zero.
    pub fn alloc_page(&mut self) -> (g: PageGurd)
        requires
            old(self).pages().current < old(self).pages().end,
        ensures
            (final(self).pages(), g.page()) == spec_alloc(old(self).pages()),
            final(self).frames() == old(self).frames().insert(g.page(), zero_frame()),
    {
        let page = self.allocer.get_mut().alloc_page();
        self.mem.zero_page(page.0);
        PageGurd { inner: page }
    }

    /// Releases the handle `page`; the last handle on a page hands it back.
    pub fn dealloc(&mut self, page: PageGurd)
        requires
            !dealloc_panics(old(self).pages(), page.page()),
        ensures
            final(self).pages() == spec_dealloc(old(self).pages(), page.page()),
            final(self).frames() == old(self).frames(),
            old(self).pages().alloced.contains_key(page.page()) && old(self).pages().alloced[page.page()]
                >= 2 ==> final(self).pages().alloced[page.page()] + 1 == old(self).pages().alloced[page.page()]
                && final(self).pages().free == old(self).pages().free,
            old(self).pages().alloced.contains_key(page.page()) && old(self).pages().alloced[page.page()]
                == 1 ==> !final(self).pages().alloced.contains_key(page.page()) && final(self).pages().free == old(self).pages().free.push(page.page()),
    {
        self.allocer.get_mut().dealloc(page.inner);
    }

    /// Another handle on the page behind `g`.
    pub fn clone_gurd(&mut self, g: &PageGurd) -> (r: PageGurd)
        requires
            old(self).pages().alloced.contains_key(g.page()),
            old(self).pages().alloced[g.page()] < usize::MAX,
        ensures
            r.page() == g.page(),
            final(self).pages() == (AllPagesView {
                alloced: old(self).pages().alloced.insert(
                    g.page(),
                    (old(self).pages().alloced[g.page()] + 1) as usize,
                ),
                ..old(self).pages()
            }),
            final(self).frames() == old(self).frames(),
    {
        self.allocer.get_mut().share(g.inner);
        PageGurd::new(g.inner)
    }

    /// Sets the range of never-used pages for a kernel image that ends at
    /// `ekernel`.
    pub fn init(&mut self, ekernel: usize)
        requires
            ekernel + PGSIZE - 1 <= usize::MAX,
        ensures
            final(self).pages() == (AllPagesView {
                current: first_page(ekernel),
                end: last_page(),
                ..old(self).pages()
            }),
            final(self).frames() == old(self).frames(),
            old(self).wf() && (forall|i: int|
                0 <= i < old(self).pages().free.len() ==> #[trigger] old(self).pages().free[i]
                    < first_page(ekernel)) && (forall|p: usize|
                #[trigger] old(self).pages().alloced.contains_key(p) ==> p < first_page(ekernel))
                ==> final(self).wf(),
    {
        self.allocer.get_mut().init(ekernel);
        proof {
            let s0 = old(self).pages();
            if s0.wf() && (forall|i: int| 0 <= i < s0.free.len() ==> #[trigger] s0.free[i]
                < first_page(ekernel)) && (forall|p: usize| #[trigger] s0.alloced.contains_key(p)
                ==> p < first_page(ekernel)) {
                lemma_init_keeps_wf(s0, ekernel);
            }
        }
    }

    /// Whether `k` pages can be handed out in a row without a panic.
    pub fn available(&self, k: usize) -> (r: bool)
        ensures
            r == can_alloc(self.pages(), k as nat),
    {
        self.allocer.get().available(k)
    }

    /// Physical memory.
    pub fn mem(&self) -> (r: &PhysMem)
        ensures
            r@ == self.frames(),
    {
        &self.mem
    }

    /// Writes entry `idx` of page `ppn`.
    pub fn write_pte(&mut self, ppn: usize, idx: usize, e: super::pages::PageTableEntry)
        requires
            old(self).frames().contains_key(ppn),
            idx < old(self).frames()[ppn].len(),
        ensures
            final(self).frames() == old(self).frames().insert(
                ppn,
                old(self).frames()[ppn].update(idx as int, e),
            ),
            final(self).pages() == old(self).pages(),
    {
        self.mem.write(ppn, idx, e);
    }
}

/// Sets up the page allocator for a kernel image that ends at `ekernel`.
pub fn page_init(allocer: &mut PageAllocer, ekernel: usize)
    requires
        ekernel + PGSIZE - 1 <= usize::MAX,
    ensures
        final(allocer).pages() == (AllPagesView {
            current: first_page(ekernel),
            end: last_page(),
            ..old(allocer).pages()
        }),
        final(allocer).frames() == old(allocer).frames(),
            old(allocer).wf() && (forall|i: int|
                0 <= i < old(allocer).pages().free.len() ==> #[trigger] old(allocer).pages().free[i]
                    < first_page(ekernel)) && (forall|p: usize|
                #[trigger] old(allocer).pages().alloced.contains_key(p) ==> p < first_page(ekernel))
                ==> final(allocer).wf(),
{
    allocer.init(ekernel);
}

} // verus!
