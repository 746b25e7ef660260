//! The spin lock protocol. Taking the lock first takes the CPU's interrupt
//! lock, then claims the lock for the CPU, spinning while another CPU holds
//! it; the guard that comes back holds the lock. Releasing it checks that
//! the CPU holds it, clears the owner and releases the interrupt lock.
use vstd::prelude::*;
use crate::process::cpu::{Cpus, IntrLockGurd, spec_locked, spec_unlock, spec_unlock_turns_on};

verus! {

/// A spin lock: the CPU that holds it, if any, and the data it guards.
pub struct SpinLock<T> {
    locked: Option<usize>,
    data: T,
}

/// What taking a spin lock hands back: the interrupt lock taken with it.
pub struct SpinLockGurd {
    intr_lock: IntrLockGurd,
}

impl SpinLockGurd {
    /// The CPU that took the lock.
    pub closed spec fn cpu(&self) -> usize {
        self.intr_lock.cpu()
    }

    /// Whether the CPU that took `lock` through this guard holds it.
    pub fn holding<T>(&self, lock: &SpinLock<T>) -> (r: bool)
        ensures
            r == (lock.owner() == Some(self.cpu())),
    {
        lock.holding(self.intr_lock.id())
    }
}

impl<T> SpinLock<T> {
    /// An unlocked lock around `data`.
    pub fn new(data: T) -> (r: Self)
        ensures
            r.owner() is None,
            r.value() == data,
    {
        SpinLock { locked: None, data }
    }

    /// The CPU that holds the lock.
    pub closed spec fn owner(&self) -> Option<usize> {
        self.locked
    }

    /// The guarded data.
    pub closed spec fn value(&self) -> T {
        self.data
    }

    /// Whether CPU `me` holds the lock.
    pub fn holding(&self, me: usize) -> (r: bool)
        ensures
            r == (self.owner() == Some(me)),
    {
        match self.locked {
            Some(o) => o == me,
            None => false,
        }
    }

    /// CPU `me`, whose interrupts were `intr_on` before the caller turned
    /// them off, takes its interrupt lock and claims the lock, spinning
    /// while another CPU holds it. Here one caller runs at a time, so no
    /// other CPU can release the lock meanwhile: the lock must be free.
    /// The guard that comes back holds the lock.
    pub fn locked(&mut self, cpus: &mut Cpus, me: usize, intr_on: bool) -> (g: SpinLockGurd)
        requires
            old(self).owner() is None,
            me < old(cpus)@.len(),
            old(cpus)@[me as int].noff < usize::MAX,
        ensures
            g.cpu() == me,
            final(self).owner() == Some(me),
            final(self).value() == old(self).value(),
            final(cpus)@ == old(cpus)@.update(me as int, spec_locked(old(cpus)@[me as int], intr_on)),
    {
        let intr_lock = cpus.intr_lock(me, intr_on);
        loop
            invariant
                self.owner() is None,
                self.value() == old(self).value(),
                intr_lock.cpu() == me,
                cpus@ == old(cpus)@.update(me as int, spec_locked(old(cpus)@[me as int], intr_on)),
            decreases 1int,
        {
            // Claim the lock if it is free, else spin and try again.
            if self.locked.is_none() {
                self.locked = Some(me);
                return SpinLockGurd { intr_lock };
            }
        }
    }

    /// Releases the lock that `gurd` took; `intr_now` is whether interrupts
    /// are on, which they must not be. Returns whether to turn interrupts
    /// back on.
    pub fn unlock(&mut self, cpus: &mut Cpus, gurd: SpinLockGurd, intr_now: bool) -> (turn_on: bool)
        requires
            old(self).owner() == Some(gurd.cpu()),
            gurd.cpu() < old(cpus)@.len(),
            !intr_now,
            old(cpus)@[gurd.cpu() as int].noff >= 1,
        ensures
            final(self).owner() is None,
            final(self).value() == old(self).value(),
            final(cpus)@ == old(cpus)@.update(
                gurd.cpu() as int,
                spec_unlock(old(cpus)@[gurd.cpu() as int]),
            ),
            turn_on == spec_unlock_turns_on(old(cpus)@[gurd.cpu() as int]),
    {
        self.locked = None;
        cpus.intr_unlock(gurd.intr_lock, intr_now)
    }

    /// The guarded data, read without taking the lock.
    pub fn get(&self) -> (r: &T)
        ensures
            *r == self.value(),
    {
        &self.data
    }

    /// The guarded data, reached without taking the lock: the caller's
    /// exclusive borrow of the whole lock stands for holding it.
    pub fn get_mut(&mut self) -> (r: &mut T)
        ensures
            *r == old(self).value(),
            final(self).value() == *final(r),
            final(self).owner() == old(self).owner(),
    {
        &mut self.data
    }
}

} // verus!
