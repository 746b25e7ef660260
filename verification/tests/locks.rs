use rvkernel::lock::{SpinLock, RwLock, OnceLock, Once, LazyLock, OnceState};
use rvkernel::process::cpu::{Cpus, Cpu, NCPU};

#[test]
fn interrupt_locks_nest() {
    let mut cpus = Cpus::new();
    assert_eq!(cpus.get(1), Cpu { intena: true, noff: 0 });
    let g1 = cpus.intr_lock(1, true);
    let g2 = cpus.intr_lock(1, false);
    assert_eq!(cpus.get(1), Cpu { intena: true, noff: 2 });
    assert!(!cpus.intr_unlock(g2, false));
    assert!(cpus.intr_unlock(g1, false));
    assert_eq!(cpus.get(1), Cpu { intena: true, noff: 0 });
    let g3 = cpus.intr_lock(0, false);
    assert!(!cpus.intr_unlock(g3, false));
    assert_eq!(NCPU, 3);
}

#[test]
fn spin_lock_claim_and_release() {
    let mut cpus = Cpus::new();
    let mut lock = SpinLock::new(5u32);
    let g = lock.locked(&mut cpus, 0, true);
    assert!(lock.holding(0));
    assert!(!lock.holding(1));
    assert!(g.holding(&lock));
    assert_eq!(cpus.get(0).noff, 1);
    *lock.get_mut() += 1;
    assert!(lock.unlock(&mut cpus, g, false));
    assert!(!lock.holding(0));
    assert_eq!(cpus.get(0).noff, 0);
    // Once released, another CPU takes it and holds it.
    let g1 = lock.locked(&mut cpus, 1, false);
    assert!(lock.holding(1));
    assert!(g1.holding(&lock));
    assert_eq!(*lock.get(), 6);
    assert!(!lock.unlock(&mut cpus, g1, false));
    assert_eq!(cpus.get(1).noff, 0);
}

#[test]
fn rwlock_readers_and_writer() {
    let mut l = RwLock::new(1u8);
    let r1 = l.try_read().unwrap();
    let r2 = l.read();
    assert!(l.try_write().is_none());
    l.drop_read(r1);
    l.drop_read(r2);
    // The failed writer left the writer flag set: readers are now kept out.
    assert!(l.try_read().is_none());
    let mut m = RwLock::new(2u8);
    let w = m.write();
    assert!(m.try_read().is_none());
    assert!(m.try_write().is_none());
    *m.write_data(&w) = 3;
    m.drop_write(w);
    let r = m.try_read().unwrap();
    assert_eq!(*m.read_data(&r), 3);
}

#[test]
fn rwlock_upgrade() {
    let mut l = RwLock::new(0u8);
    let r = l.read();
    let r2 = l.read();
    let r = match r.try_upgrade(&mut l) {
        Ok(_) => panic!("two readers: upgrade must fail"),
        Err(r) => r,
    };
    l.drop_read(r2);
    l.drop_read(r);
    let mut k = RwLock::new(0u8);
    let only = k.read();
    let _u = only.upgrade(&mut k);
    assert!(k.try_read().is_none());
}

#[test]
fn once_lock_is_set_once() {
    let mut c: OnceLock<u32> = OnceLock::new();
    assert!(c.get().is_none());
    assert_eq!(c.set(4), Ok(()));
    assert_eq!(c.set(5), Err(5));
    assert_eq!(c.get(), Some(&4));
    assert_eq!(*c.get_or_init(|| 9), 4);
    assert_eq!(c.take(), Some(4));
    assert!(c.get().is_none());
    assert_eq!(*c.get_or_init(|| 9), 9);
    assert_eq!(c.into_inner(), Some(9));
}

#[test]
fn once_lock_failed_init_can_retry() {
    let mut c: OnceLock<u32> = OnceLock::new();
    assert_eq!(c.get_or_try_init(|| Err::<u32, &str>("no")), Err("no"));
    assert!(c.get().is_none());
    assert_eq!(c.initialize(|| Ok::<u32, &str>(7)), Ok(()));
    assert_eq!(c.get_or_try_init(|| Err::<u32, &str>("late")), Ok(&7));
    assert_eq!(c.get_mut(), Some(&7));
}

#[test]
fn once_runs_to_completion_once() {
    let mut o = Once::new();
    assert!(!o.is_completed());
    o.call_once(|| {});
    assert!(o.is_completed());
    o.call_once(|| panic!("must not run twice"));
    let mut p = Once::new();
    p.call_once_force(|mut s: OnceState| {
        assert!(!s.is_poisoned());
        s.poison();
        s
    });
    assert!(!p.is_completed());
    p.call_once_force(|s: OnceState| {
        assert!(s.is_poisoned());
        s
    });
    assert!(p.is_completed());
}

#[test]
fn lazy_lock_computes_on_first_use() {
    let mut l = LazyLock::new(|| 40u32 + 2);
    assert!(l.get().is_none());
    assert_eq!(*LazyLock::force(&mut l), 42);
    assert_eq!(l.get(), Some(&42));
    assert_eq!(*LazyLock::force(&mut l), 42);
}

#[test]
fn nested_interrupt_locks_restore_the_cpu() {
    let mut cpus = Cpus::new();
    let g1 = cpus.intr_lock(2, true);
    let g2 = cpus.intr_lock(2, false);
    let g3 = cpus.intr_lock(2, false);
    assert_eq!(cpus.get(2), Cpu { intena: true, noff: 3 });
    assert!(!cpus.intr_unlock(g3, false));
    assert_eq!(cpus.get(2).noff, 2);
    assert!(!cpus.intr_unlock(g2, false));
    assert!(cpus.intr_unlock(g1, false));
    assert_eq!(cpus.get(2), Cpu { intena: true, noff: 0 });
    let h1 = cpus.intr_lock(2, false);
    let h2 = cpus.intr_lock(2, true);
    assert!(!cpus.intr_unlock(h2, false));
    assert!(!cpus.intr_unlock(h1, false));
    assert_eq!(cpus.get(2), Cpu { intena: false, noff: 0 });
}

#[test]
fn once_lock_from_and_clone() {
    let c: OnceLock<u32> = OnceLock::from(8);
    assert_eq!(c.get(), Some(&8));
    let d = c.clone();
    assert_eq!(d.get(), Some(&8));
    let e: OnceLock<u32> = OnceLock::new();
    assert!(e.clone().get().is_none());
}

#[test]
fn once_after_failed_run_only_forced_call_runs() {
    let mut o = Once::new();
    o.call_once_force(|mut s: OnceState| {
        s.poison();
        s
    });
    assert!(!o.is_completed());
    let mut seen = false;
    o.call_once_force(|s: OnceState| {
        seen = s.is_poisoned();
        s
    });
    assert!(seen);
    assert!(o.is_completed());
    let mut ran = false;
    o.call_once(|| ran = true);
    assert!(!ran);
}

#[test]
fn once_lock_equality_compares_contents() {
    let a: OnceLock<u32> = OnceLock::from(3);
    let b: OnceLock<u32> = OnceLock::from(3);
    let c: OnceLock<u32> = OnceLock::from(4);
    let e: OnceLock<u32> = OnceLock::new();
    assert!(a == b);
    assert!(a != c);
    assert!(a != e);
    assert!(e == OnceLock::new());
}
