//! One-time initialisation: `Once` runs a piece of code at most once to
//! completion, `OnceLock` holds a value that is set at most once.
use vstd::prelude::*;
use vstd::std_specs::convert::FromSpecImpl;
use vstd::std_specs::cmp::{PartialEqSpec, PartialEqSpecImpl};

verus! {

/// No initialisation has run yet.
const INCOMPLETE: u32 = 0;

/// An initialisation failed; the next one may try again if it ignores this.
const POISONED: u32 = 1;

/// Initialisation has completed.
const COMPLETE: u32 = 4;

/// Runs a piece of code at most once to completion.
pub struct Once {
    state: u32,
}

/// What an initialisation is told, and what it hands back: whether an
/// earlier one failed, and the state to leave behind.
pub struct OnceState {
    poisoned: bool,
    set_state_to: u32,
}

impl OnceState {
    #[verifier::type_invariant]
    spec fn inv(self) -> bool {
        self.set_state_to == POISONED || self.set_state_to == COMPLETE
    }

    /// Whether an earlier initialisation failed.
    pub closed spec fn spec_poisoned(&self) -> bool {
        self.poisoned
    }

    /// Whether this initialisation asks to be counted as failed.
    pub closed spec fn spec_fails(&self) -> bool {
        self.set_state_to == POISONED
    }

    /// The state an initialisation is handed.
    pub closed spec fn start(poisoned: bool) -> OnceState {
        OnceState { poisoned, set_state_to: COMPLETE }
    }

    fn new(poisoned: bool) -> (r: OnceState)
        ensures
            r == OnceState::start(poisoned),
    {
        OnceState { poisoned, set_state_to: COMPLETE }
    }

    /// Whether an earlier initialisation failed.
    pub fn is_poisoned(&self) -> (r: bool)
        ensures
            r == self.spec_poisoned(),
    {
        self.poisoned
    }

    /// Asks for this initialisation to be counted as failed.
    pub fn poison(&mut self)
        ensures
            final(self).spec_fails(),
            final(self).spec_poisoned() == old(self).spec_poisoned(),
    {
        self.set_state_to = POISONED;
    }

    fn set_state(&self) -> (r: u32)
        ensures
            r == self.set_state_to,
            r == POISONED || r == COMPLETE,
    {
        proof {
            use_type_invariant(self);
        }
        self.set_state_to
    }
}

/// What an initialisation is handed tells it whether an earlier one failed,
/// and does not yet ask to count as failed: handing it back unchanged
/// completes the run.
pub proof fn lemma_once_state_start(poisoned: bool)
    ensures
        OnceState::start(poisoned).spec_poisoned() == poisoned,
        !OnceState::start(poisoned).spec_fails(),
{
}

/// A run that completed did not fail.
pub proof fn lemma_completed_not_poisoned(o: &Once)
    ensures
        o.completed() ==> !o.poisoned(),
{
}

impl Once {
    #[verifier::type_invariant]
    spec fn inv(self) -> bool {
        self.state == INCOMPLETE || self.state == POISONED || self.state == COMPLETE
    }

    /// Whether the code has run to completion.
    pub closed spec fn completed(&self) -> bool {
        self.state == COMPLETE
    }

    /// Whether the last run failed.
    pub closed spec fn poisoned(&self) -> bool {
        self.state == POISONED
    }

    /// Nothing has run yet.
    pub fn new() -> (r: Self)
        ensures
            !r.completed(),
            !r.poisoned(),
    {
        Once { state: INCOMPLETE }
    }

    /// Whether the code has run to completion.
    pub fn is_completed(&self) -> (r: bool)
        ensures
            r == self.completed(),
    {
        self.state == COMPLETE
    }

    /// Runs `f` unless the code has already completed. A failed earlier run
    /// panics unless `ignore_posioning` is set; `f` learns whether there was
    /// one and hands back the state to leave.
    fn call<F: FnOnce(OnceState) -> OnceState>(&mut self, ignore_posioning: bool, f: F)
        requires
            old(self).poisoned() ==> ignore_posioning,
            !old(self).completed() ==> f.requires((OnceState::start(old(self).poisoned()),)),
        ensures
            old(self).completed() ==> final(self).completed() && !final(self).poisoned(),
            !old(self).completed() ==> exists|r: OnceState|
                #[trigger] f.ensures((OnceState::start(old(self).poisoned()),), r) && final(self).completed()
                    == !r.spec_fails() && final(self).poisoned() == r.spec_fails(),
    {
        proof {
            use_type_invariant(&*self);
        }
        let state = self.state;
        if state == COMPLETE {
            return;
        }
        let f_state = OnceState::new(state == POISONED);
        let r = f(f_state);
        self.state = r.set_state();
        assert(f.ensures((OnceState::start(old(self).poisoned()),), r));
    }

    /// Runs `f` once, unless the code has already completed. A failed
    /// earlier run makes this panic.
    pub fn call_once<F: FnOnce()>(&mut self, f: F)
        requires
            !old(self).poisoned(),
            !old(self).completed() ==> f.requires(()),
        ensures
            final(self).completed(),
            !final(self).poisoned(),
            !old(self).completed() ==> f.ensures((), ()),
    {
        if self.is_completed() {
            return;
        }
        let run = |s: OnceState| -> (r: OnceState)
            requires
                f.requires(()),
            ensures
                r == s,
                f.ensures((), ()),
        {
            f();
            s
        };
        self.call(false, run);
    }

    /// Runs `f` unless the code has already completed, also after a failed
    /// run; `f` learns whether there was one and may ask to count as failed
    /// itself.
    pub fn call_once_force<F: FnOnce(OnceState) -> OnceState>(&mut self, f: F)
        requires
            !old(self).completed() ==> f.requires((OnceState::start(old(self).poisoned()),)),
        ensures
            old(self).completed() ==> final(self).completed() && !final(self).poisoned(),
            !old(self).completed() ==> exists|r: OnceState|
                #[trigger] f.ensures((OnceState::start(old(self).poisoned()),), r) && final(self).completed()
                    == !r.spec_fails() && final(self).poisoned() == r.spec_fails(),
    {
        if self.is_completed() {
            return;
        }
        self.call(true, f);
    }
}

/// The contents and the result after setting a cell that holds `cur` to
/// `v`.
pub open spec fn spec_set<T>(cur: Option<T>, v: T) -> (Option<T>, Result<(), T>) {
    match cur {
        Some(c) => (Some(c), Err(v)),
        None => (Some(v), Ok(())),
    }
}

/// A cell is set at most once: after a first `set` succeeds, a second one
/// fails, hands its value back and leaves the first value in place.
pub proof fn lemma_set_once<T>(a: T, b: T)
    ensures
        spec_set(None, a) == (Some(a), Ok::<(), T>(())),
        spec_set(spec_set(None, a).0, b) == (Some(a), Err::<(), T>(b)),
{
}

/// A cell that is set at most once.
pub struct OnceLock<T> {
    once: Once,
    value: Option<T>,
}

impl<T> OnceLock<T> {
    #[verifier::type_invariant]
    spec fn inv(self) -> bool {
        self.value is Some <==> self.once.completed()
    }

    /// The value, once set.
    pub closed spec fn value(&self) -> Option<T> {
        self.value
    }

    /// Whether the last attempt to set the value failed.
    pub closed spec fn poisoned(&self) -> bool {
        self.once.poisoned()
    }

    /// An empty cell.
    pub fn new() -> (r: Self)
        ensures
            r.value() is None,
            !r.poisoned(),
    {
        Self { once: Once::new(), value: None }
    }

    /// Whether the value is set.
    fn is_initialize(&self) -> (r: bool)
        ensures
            r == self.value() is Some,
    {
        proof {
            use_type_invariant(self);
        }
        self.once.is_completed()
    }

    /// The value, if set.
    pub fn get(&self) -> (r: Option<&T>)
        ensures
            r == match self.value() {
                Some(v) => Some(&v),
                None => None::<&T>,
            },
    {
        if self.is_initialize() {
            self.value.as_ref()
        } else {
            None
        }
    }

    /// The value, if set.
    pub fn get_mut(&self) -> (r: Option<&T>)
        ensures
            r == match self.value() {
                Some(v) => Some(&v),
                None => None::<&T>,
            },
    {
        self.get()
    }

    /// Sets the value unless it is set already, in which case `value` comes
    /// back.
    pub fn set(&mut self, value: T) -> (r: Result<(), T>)
        ensures
            (final(self).value(), r) == spec_set(old(self).value(), value),
            old(self).value() is None ==> !final(self).poisoned(),
            old(self).value() is Some ==> final(self).poisoned() == old(self).poisoned(),
    {
        if self.is_initialize() {
            return Err(value);
        }
        self.put(value);
        Ok(())
    }

    fn put(&mut self, value: T)
        ensures
            *final(self) == (OnceLock { once: Once { state: COMPLETE }, value: Some(value) }),
    {
        *self = OnceLock { once: Once { state: COMPLETE }, value: Some(value) };
    }

    /// Runs `f` to set the value unless it is set already. A failure leaves
    /// the cell empty and counts as a failed run; the next attempt may try
    /// again.
    pub fn initialize<F: FnOnce() -> Result<T, E>, E>(&mut self, f: F) -> (r: Result<(), E>)
        requires
            old(self).value() is None ==> f.requires(()),
        ensures
            old(self).value() is Some ==> r is Ok && final(self).value() == old(self).value(),
            old(self).value() is None ==> exists|res: Result<T, E>|
                #[trigger] f.ensures((), res) && match res {
                    Ok(v) => r is Ok && final(self).value() == Some(v),
                    Err(e) => r == Err::<(), E>(e) && final(self).value() is None
                        && final(self).poisoned(),
                },
    {
        if self.is_initialize() {
            return Ok(());
        }
        let res = f();
        proof {
            assert(f.ensures((), res));
        }
        match res {
            Ok(value) => {
                self.put(value);
                Ok(())
            },
            Err(e) => {
                *self = OnceLock { once: Once { state: POISONED }, value: None };
                Err(e)
            },
        }
    }

    /// The value, set by running `f` first if it was not set.
    pub fn get_or_init<F: FnOnce() -> T>(&mut self, f: F) -> (r: &T)
        requires
            old(self).value() is None ==> f.requires(()),
        ensures
            final(self).value() == Some(*r),
            old(self).value() is Some ==> final(self).value() == old(self).value(),
            old(self).value() is None ==> f.ensures((), *r),
    {
        if !self.is_initialize() {
            let v = f();
            self.put(v);
        }
        proof {
            use_type_invariant(&*self);
        }
        self.value.as_ref().unwrap()
    }

    /// The value, set by running `f` first if it was not set; a failure of
    /// `f` comes back, leaves the cell empty and counts as a failed run.
    pub fn get_or_try_init<F: FnOnce() -> Result<T, E>, E>(&mut self, f: F) -> (r: Result<&T, E>)
        requires
            old(self).value() is None ==> f.requires(()),
        ensures
            old(self).value() is Some ==> final(self).value() == old(self).value() && r == Ok::<&T, E>(
                &old(self).value().unwrap(),
            ),
            old(self).value() is None ==> exists|res: Result<T, E>|
                #[trigger] f.ensures((), res) && match res {
                    Ok(v) => r == Ok::<&T, E>(&v) && final(self).value() == Some(v),
                    Err(e) => r == Err::<&T, E>(e) && final(self).value() is None
                        && final(self).poisoned(),
                },
    {
        if self.is_initialize() {
            proof {
                use_type_invariant(&*self);
            }
            return Ok(self.value.as_ref().unwrap());
        }
        match self.initialize(f) {
            Ok(()) => {},
            Err(e) => {
                return Err(e);
            },
        }
        proof {
            use_type_invariant(&*self);
        }
        Ok(self.value.as_ref().unwrap())
    }

    /// Takes the value out, leaving the cell empty.
    pub fn take(&mut self) -> (r: Option<T>)
        ensures
            r == old(self).value(),
            final(self).value() is None,
            old(self).value() is Some ==> !final(self).poisoned(),
            old(self).value() is None ==> final(self).poisoned() == old(self).poisoned(),
    {
        if self.is_initialize() {
            let mut me = Self::new();
            std::mem::swap(self, &mut me);
            let OnceLock { once, value } = me;
            value
        } else {
            None
        }
    }

    /// The value, if set.
    pub fn into_inner(self) -> (r: Option<T>)
        ensures
            r == self.value(),
    {
        let mut s = self;
        s.take()
    }
}

impl<T> Default for OnceLock<T> {
    fn default() -> (r: Self)
        ensures
            r.value() is None,
            !r.poisoned(),
    {
        Self::new()
    }
}

impl<T> From<T> for OnceLock<T> {
    fn from(value: T) -> (r: Self) {
        let mut cell = Self::new();
        cell.put(value);
        cell
    }
}

impl<T> FromSpecImpl<T> for OnceLock<T> {
    open spec fn obeys_from_spec() -> bool {
        true
    }

    closed spec fn from_spec(v: T) -> Self {
        OnceLock { once: Once { state: COMPLETE }, value: Some(v) }
    }
}

/// A cell made from a value holds that value.
pub proof fn lemma_from_value<T>(v: T)
    ensures
        <OnceLock<T> as vstd::std_specs::convert::FromSpec<T>>::from_spec(v).value() == Some(v),
        !<OnceLock<T> as vstd::std_specs::convert::FromSpec<T>>::from_spec(v).poisoned(),
{
}

impl<T: Clone> Clone for OnceLock<T> {
    /// An empty cell, or one that holds a clone of the value.
    fn clone(&self) -> (r: Self)
        ensures
            match self.value() {
                Some(v) => r.value() is Some && cloned(v, r.value().unwrap()),
                None => r.value() is None,
            },
            !r.poisoned(),
    {
        let mut cell = Self::new();
        match self.get() {
            Some(v) => {
                let c = v.clone();
                let res = cell.set(c);
                assert(res is Ok);
            },
            None => {},
        }
        cell
    }
}

impl<T: PartialEq> PartialEq for OnceLock<T> {
    /// Two cells are equal when both are empty or both hold equal values.
    fn eq(&self, other: &OnceLock<T>) -> (r: bool)
        ensures
            T::obeys_eq_spec() ==> (r <==> (self.value() is None && other.value() is None) || (
            self.value() is Some && other.value() is Some && self.value().unwrap().eq_spec(
                &other.value().unwrap(),
            ))),
    {
        self.get() == other.get()
    }
}

impl<T: PartialEq> PartialEqSpecImpl for OnceLock<T> {
    open spec fn obeys_eq_spec() -> bool {
        T::obeys_eq_spec()
    }

    open spec fn eq_spec(&self, other: &OnceLock<T>) -> bool {
        match (self.value(), other.value()) {
            (None, None) => true,
            (Some(x), Some(y)) => x.eq_spec(&y),
            _ => false,
        }
    }
}

impl<T: Eq> Eq for OnceLock<T> {
}

/// An empty cell equals exactly the empty cells, two cells that hold values
/// are equal exactly when the values are, and equality of cells is
/// symmetric whenever equality of the values is.
pub proof fn lemma_eq_cells<T: PartialEq>(a: OnceLock<T>, b: OnceLock<T>)
    ensures
        a.value() is None ==> (PartialEqSpec::eq_spec(&a, &b) <==> b.value() is None),
        b.value() is None ==> (PartialEqSpec::eq_spec(&a, &b) <==> a.value() is None),
        a.value() is Some && b.value() is Some ==> (PartialEqSpec::eq_spec(&a, &b)
            <==> PartialEqSpec::eq_spec(&a.value().unwrap(), &b.value().unwrap())),
        (forall|x: T, y: T|
            #[trigger] PartialEqSpec::eq_spec(&x, &y) == PartialEqSpec::eq_spec(&y, &x))
            ==> PartialEqSpec::eq_spec(&a, &b) == PartialEqSpec::eq_spec(&b, &a),
{
}

} // verus!
