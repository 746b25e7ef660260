//! A value computed on first use.
use vstd::prelude::*;
use super::once_lock::OnceLock;

verus! {

/// A value that `init` computes the first time it is asked for.
pub struct LazyLock<T, F> {
    cell: OnceLock<T>,
    init: Option<F>,
}

impl<T, F> LazyLock<T, F> {
    /// The value, once computed.
    pub closed spec fn value(&self) -> Option<T> {
        self.cell.value()
    }

    /// The code that computes the value, until it has run.
    pub closed spec fn pending(&self) -> Option<F> {
        self.init
    }

    /// A value that `f` computes on first use.
    pub fn new(f: F) -> (r: Self)
        ensures
            r.value() is None,
            r.pending() == Some(f),
    {
        Self { cell: OnceLock::new(), init: Some(f) }
    }

    /// The value, computed now if it was not yet. Asking for it when an
    /// earlier computation panicked panics; that needs `value()` and
    /// `pending()` both empty.
    pub fn force(this: &mut Self) -> (r: &T) where F: FnOnce() -> T
        requires
            old(this).value() is None ==> old(this).pending() is Some && old(
                this,
            ).pending().unwrap().requires(()),
        ensures
            final(this).value() == Some(*r),
            old(this).value() is Some ==> final(this).value() == old(this).value(),
            old(this).value() is None ==> old(this).pending().unwrap().ensures((), *r),
            old(this).value() is None ==> final(this).pending() is None,
            old(this).value() is Some ==> final(this).pending() == old(this).pending(),
    {
        if this.cell.get().is_none() {
            match this.init.take() {
                Some(f) => {
                    return this.cell.get_or_init(f);
                },
                None => {},
            }
        }
        this.cell.get().unwrap()
    }

    /// The value, if it has been computed.
    pub fn get(&self) -> (r: Option<&T>)
        ensures
            r == match self.value() {
                Some(v) => Some(&v),
                None => None::<&T>,
            },
    {
        self.cell.get()
    }
}

} // verus!
