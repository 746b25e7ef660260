//! Per-CPU interrupt bookkeeping: while a CPU holds locks its interrupts
//! stay off, and they come back on once the outermost lock is released if
//! they were on when it was taken.
use vstd::prelude::*;

verus! {

/// The number of CPUs.
pub const NCPU: usize = 3;

/// One CPU: whether interrupts were on before the outermost lock was taken,
/// and how many interrupt locks it holds.
#[derive(Clone, Copy, PartialEq, Eq, Structural, Debug)]
pub struct Cpu {
    pub intena: bool,
    pub noff: usize,
}

/// The CPU after it takes an interrupt lock while interrupts were `was_on`.
pub open spec fn spec_locked(c: Cpu, was_on: bool) -> Cpu {
    Cpu { intena: if c.noff == 0 { was_on } else { c.intena }, noff: (c.noff + 1) as usize }
}

/// The CPU after it releases an interrupt lock.
pub open spec fn spec_unlock(c: Cpu) -> Cpu {
    Cpu { noff: (c.noff - 1) as usize, ..c }
}

/// Whether releasing an interrupt lock turns interrupts back on.
pub open spec fn spec_unlock_turns_on(c: Cpu) -> bool {
    c.noff - 1 == 0 && c.intena
}

impl Cpu {
    /// A CPU that holds no lock.
    pub fn new() -> (r: Self)
        ensures
            r == (Cpu { intena: true, noff: 0 }),
    {
        Self { intena: true, noff: 0 }
    }

    /// Takes an interrupt lock; `was_on` is whether interrupts were on before
    /// the caller turned them off.
    fn locked(&mut self, was_on: bool)
        requires
            old(self).noff < usize::MAX,
        ensures
            *final(self) == spec_locked(*old(self), was_on),
    {
        if self.noff == 0 {
            self.intena = was_on;
        }
        self.noff = self.noff + 1;
    }

    /// Releases an interrupt lock; `intr_now` is whether interrupts are on,
    /// which they must not be. Returns whether to turn them back on.
    fn unlock(&mut self, intr_now: bool) -> (turn_on: bool)
        requires
            !intr_now,
            old(self).noff >= 1,
        ensures
            *final(self) == spec_unlock(*old(self)),
            turn_on == spec_unlock_turns_on(*old(self)),
    {
        self.noff = self.noff - 1;
        self.noff == 0 && self.intena
    }
}

/// Taking an interrupt lock and releasing it leaves the CPU as it was,
/// except that a lock taken with none held records whether interrupts were
/// on; the release turns interrupts back on exactly when no other lock is
/// held and they were on when it was taken.
pub proof fn lemma_lock_unlock(c: Cpu, was_on: bool)
    requires
        c.noff < usize::MAX,
    ensures
        spec_unlock(spec_locked(c, was_on)) == (Cpu {
            intena: if c.noff == 0 { was_on } else { c.intena },
            ..c
        }),
        spec_unlock_turns_on(spec_locked(c, was_on)) == (c.noff == 0 && was_on),
        c.noff > 0 ==> spec_unlock(spec_locked(c, was_on)) == c,
{
}

/// The CPU after `k` nested interrupt locks are taken, the first while
/// interrupts were `was_on`; each later one finds them off.
pub open spec fn spec_locked_n(c: Cpu, was_on: bool, k: nat) -> Cpu
    decreases k,
{
    if k == 0 {
        c
    } else {
        spec_locked(spec_locked_n(c, was_on, (k - 1) as nat), if k == 1 { was_on } else { false })
    }
}

/// The CPU after `j` interrupt locks are released.
pub open spec fn spec_unlocked_n(c: Cpu, j: nat) -> Cpu
    decreases j,
{
    if j == 0 {
        c
    } else {
        spec_unlock(spec_unlocked_n(c, (j - 1) as nat))
    }
}

proof fn lemma_locked_n(c: Cpu, was_on: bool, k: nat)
    requires
        c.noff + k <= usize::MAX,
    ensures
        spec_locked_n(c, was_on, k).noff == c.noff + k,
        k >= 1 ==> spec_locked_n(c, was_on, k).intena == if c.noff == 0 {
            was_on
        } else {
            c.intena
        },
    decreases k,
{
    if k > 0 {
        lemma_locked_n(c, was_on, (k - 1) as nat);
    }
}

proof fn lemma_unlocked_n(c: Cpu, j: nat)
    requires
        j <= c.noff,
    ensures
        spec_unlocked_n(c, j).noff == c.noff - j,
        spec_unlocked_n(c, j).intena == c.intena,
    decreases j,
{
    if j > 0 {
        lemma_unlocked_n(c, (j - 1) as nat);
    }
}

/// `k` nested interrupt locks, taken and then released in reverse order:
/// while `j` of them are held the CPU counts `j` more locks; no release but
/// the last turns interrupts back on, and the last does so exactly when the
/// CPU held no lock before and interrupts were on when the first was taken;
/// afterwards the count is back where it was, and a CPU that held no lock
/// remembers whether interrupts were on.
pub proof fn lemma_nested_locks(c: Cpu, was_on: bool, k: nat)
    requires
        k >= 1,
        c.noff + k <= usize::MAX,
    ensures
        forall|j: nat| j <= k ==> (#[trigger] spec_locked_n(c, was_on, j)).noff == c.noff + j,
        forall|j: nat|
            j <= k ==> (#[trigger] spec_unlocked_n(spec_locked_n(c, was_on, k), j)).noff == c.noff
                + k - j,
        forall|j: nat|
            j + 1 < k ==> !spec_unlock_turns_on(
                #[trigger] spec_unlocked_n(spec_locked_n(c, was_on, k), j),
            ),
        spec_unlock_turns_on(spec_unlocked_n(spec_locked_n(c, was_on, k), (k - 1) as nat)) == (
        c.noff == 0 && was_on),
        spec_unlocked_n(spec_locked_n(c, was_on, k), k) == (Cpu {
            intena: if c.noff == 0 {
                was_on
            } else {
                c.intena
            },
            noff: c.noff,
        }),
{
    let top = spec_locked_n(c, was_on, k);
    lemma_locked_n(c, was_on, k);
    assert forall|j: nat| j <= k implies (#[trigger] spec_locked_n(c, was_on, j)).noff == c.noff
        + j by {
        lemma_locked_n(c, was_on, j);
    }
    assert forall|j: nat| j <= k implies (#[trigger] spec_unlocked_n(top, j)).noff == c.noff + k
        - j by {
        lemma_unlocked_n(top, j);
    }
    assert forall|j: nat| j + 1 < k implies !spec_unlock_turns_on(
        #[trigger] spec_unlocked_n(top, j),
    ) by {
        lemma_unlocked_n(top, j);
    }
    lemma_unlocked_n(top, (k - 1) as nat);
    lemma_unlocked_n(top, k);
}

/// The interrupt lock of one CPU; releasing it is `Cpus::intr_unlock`.
pub struct IntrLockGurd {
    cpu: usize,
}

impl IntrLockGurd {
    /// The CPU whose lock this is.
    pub closed spec fn cpu(&self) -> usize {
        self.cpu
    }

    /// The CPU whose lock this is.
    pub fn id(&self) -> (r: usize)
        ensures
            r == self.cpu(),
    {
        self.cpu
    }
}

/// The CPUs of the machine.
pub struct Cpus {
    cpus: Vec<Cpu>,
}

impl View for Cpus {
    type V = Seq<Cpu>;

    closed spec fn view(&self) -> Seq<Cpu> {
        self.cpus@
    }
}

impl Cpus {
    /// `NCPU` CPUs that hold no lock.
    pub fn new() -> (r: Self)
        ensures
            r@.len() == NCPU,
            forall|i: int| 0 <= i < NCPU ==> #[trigger] r@[i] == (Cpu { intena: true, noff: 0 }),
    {
        let mut cpus: Vec<Cpu> = Vec::new();
        let mut i: usize = 0;
        while i < NCPU
            invariant
                i <= NCPU,
                cpus@.len() == i,
                forall|j: int| 0 <= j < i ==> #[trigger] cpus@[j] == (Cpu { intena: true, noff: 0 }),
            decreases NCPU - i,
        {
            cpus.push(Cpu::new());
            i = i + 1;
        }
        Self { cpus }
    }

    /// CPU `id`.
    pub fn get(&self, id: usize) -> (r: Cpu)
        requires
            id < self@.len(),
        ensures
            r == self@[id as int],
    {
        self.cpus[id]
    }

    /// Takes an interrupt lock on CPU `id`, whose interrupts were `was_on`
    /// before the caller turned them off.
    pub fn intr_lock(&mut self, id: usize, was_on: bool) -> (g: IntrLockGurd)
        requires
            id < old(self)@.len(),
            old(self)@[id as int].noff < usize::MAX,
        ensures
            g.cpu() == id,
            final(self)@ == old(self)@.update(id as int, spec_locked(old(self)@[id as int], was_on)),
    {
        let mut c = self.cpus[id];
        c.locked(was_on);
        self.cpus.set(id, c);
        IntrLockGurd { cpu: id }
    }

    /// Releases the interrupt lock `g`; `intr_now` is whether interrupts are
    /// on, which they must not be. Returns whether to turn them back on.
    pub fn intr_unlock(&mut self, g: IntrLockGurd, intr_now: bool) -> (turn_on: bool)
        requires
            g.cpu() < old(self)@.len(),
            !intr_now,
            old(self)@[g.cpu() as int].noff >= 1,
        ensures
            final(self)@ == old(self)@.update(g.cpu() as int, spec_unlock(old(self)@[g.cpu() as int])),
            turn_on == spec_unlock_turns_on(old(self)@[g.cpu() as int]),
    {
        let mut c = self.cpus[g.cpu];
        let on = c.unlock(intr_now);
        self.cpus.set(g.cpu, c);
        on
    }
}

} // verus!
