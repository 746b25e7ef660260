//! The reader-writer lock protocol: a count of readers and a writer flag.
use vstd::prelude::*;

verus! {

/// A reader-writer lock around data of type `T`.
pub struct RwLock<T> {
    reader: usize,
    writer: bool,
    data: T,
}

/// Handed out to a reader; releasing it is `RwLock::drop_read`.
pub struct ReadGurd {
    _private: (),
}

/// Handed out to the writer; releasing it is `RwLock::drop_write`.
pub struct WriteGurd {
    _private: (),
}

/// The counters of a reader-writer lock.
pub struct RwState {
    pub reader: usize,
    pub writer: bool,
}

/// A reader's attempt: the reader count goes up (wrapping, as an atomic
/// add does), and back down when a writer holds the lock.
pub open spec fn spec_try_read(s: RwState) -> (RwState, bool) {
    if s.writer {
        (s, false)
    } else {
        (RwState { reader: if s.reader == usize::MAX { 0 } else { (s.reader + 1) as usize }, ..s }, true)
    }
}

/// A writer's attempt: it sets the writer flag if it was clear, and
/// succeeds when it set it and there are no readers. A writer that set the
/// flag while readers were in leaves the flag set.
pub open spec fn spec_try_write(s: RwState) -> (RwState, bool) {
    (RwState { writer: true, ..s }, !s.writer && s.reader == 0)
}

/// A reader's attempt to become the writer: it sets the writer flag if it
/// was clear, and succeeds when it set it and it is the only reader; then
/// its read hold is given up.
pub open spec fn spec_try_upgrade(s: RwState) -> (RwState, bool) {
    if !s.writer && s.reader == 1 {
        (RwState { writer: true, reader: 0 }, true)
    } else {
        (RwState { writer: true, ..s }, false)
    }
}

impl<T> RwLock<T> {
    /// The lock's counters.
    pub closed spec fn state(&self) -> RwState {
        RwState { reader: self.reader, writer: self.writer }
    }

    /// The guarded data.
    pub closed spec fn value(&self) -> T {
        self.data
    }

    /// A free lock around `data`.
    pub fn new(data: T) -> (r: Self)
        ensures
            r.state() == (RwState { reader: 0, writer: false }),
            r.value() == data,
    {
        Self { reader: 0, writer: false, data }
    }

    /// Tries to take a read hold.
    pub fn try_read(&mut self) -> (r: Option<ReadGurd>)
        ensures
            (final(self).state(), r is Some) == spec_try_read(old(self).state()),
            final(self).value() == old(self).value(),
    {
        self.reader = self.reader.wrapping_add(1);
        if self.writer {
            self.reader = self.reader.wrapping_sub(1);
            None
        } else {
            Some(ReadGurd { _private: () })
        }
    }

    /// Tries to take the write hold.
    pub fn try_write(&mut self) -> (r: Option<WriteGurd>)
        ensures
            (final(self).state(), r is Some) == spec_try_write(old(self).state()),
            final(self).value() == old(self).value(),
    {
        if !self.writer {
            self.writer = true;
            if self.reader == 0 {
                return Some(WriteGurd { _private: () });
            }
        }
        None
    }

    /// Takes a read hold, trying until it succeeds. No writer may hold the
    /// lock: nothing else runs here that could release it.
    pub fn read(&mut self) -> (r: ReadGurd)
        requires
            !old(self).state().writer,
        ensures
            final(self).state() == spec_try_read(old(self).state()).0,
            final(self).value() == old(self).value(),
    {
        loop
            invariant
                self.state() == old(self).state(),
                self.value() == old(self).value(),
                !self.state().writer,
            decreases 1int,
        {
            match self.try_read() {
                Some(gurd) => {
                    return gurd;
                },
                None => {},
            }
        }
    }

    /// Takes the write hold, trying until it succeeds. The lock must be
    /// free: nothing else runs here that could release it.
    pub fn write(&mut self) -> (r: WriteGurd)
        requires
            !old(self).state().writer,
            old(self).state().reader == 0,
        ensures
            final(self).state() == (RwState { writer: true, ..old(self).state() }),
            final(self).value() == old(self).value(),
    {
        loop
            invariant
                self.state() == old(self).state(),
                self.value() == old(self).value(),
                !self.state().writer,
                self.state().reader == 0,
            decreases 1int,
        {
            match self.try_write() {
                Some(gurd) => {
                    return gurd;
                },
                None => {},
            }
        }
    }

    /// Releases a read hold.
    pub fn drop_read(&mut self, gurd: ReadGurd)
        requires
            old(self).state().reader >= 1,
        ensures
            final(self).state() == (RwState {
                reader: (old(self).state().reader - 1) as usize,
                ..old(self).state()
            }),
            final(self).value() == old(self).value(),
    {
        self.reader = self.reader - 1;
    }

    /// Releases the write hold.
    pub fn drop_write(&mut self, gurd: WriteGurd)
        requires
            old(self).state().writer,
        ensures
            final(self).state() == (RwState { writer: false, ..old(self).state() }),
            final(self).value() == old(self).value(),
    {
        self.writer = false;
    }

    /// The data, through a read hold.
    pub fn read_data(&self, gurd: &ReadGurd) -> (r: &T)
        ensures
            *r == self.value(),
    {
        &self.data
    }

    /// The data, through the write hold.
    pub fn write_data(&mut self, gurd: &WriteGurd) -> (r: &mut T)
        ensures
            *r == old(self).value(),
            final(self).value() == *final(r),
            final(self).state() == old(self).state(),
    {
        &mut self.data
    }
}

impl ReadGurd {
    /// Tries to turn this read hold on `lock` into the write hold.
    pub fn try_upgrade<T>(self, lock: &mut RwLock<T>) -> (r: Result<ReadGurd, ReadGurd>)
        ensures
            (final(lock).state(), r is Ok) == spec_try_upgrade(old(lock).state()),
            final(lock).value() == old(lock).value(),
            r is Ok <==> (!old(lock).state().writer && old(lock).state().reader == 1),
            r is Err ==> final(lock).state().reader == old(lock).state().reader
                && final(lock).state().writer,
    {
        if !lock.writer {
            lock.writer = true;
            if lock.reader == 1 {
                lock.drop_read(self);
                return Ok(ReadGurd { _private: () });
            }
        }
        Err(self)
    }

    /// Turns this read hold on `lock` into the write hold, trying until it
    /// succeeds. It must be the only hold: nothing else runs here that could
    /// release another.
    pub fn upgrade<T>(self, lock: &mut RwLock<T>) -> (r: ReadGurd)
        requires
            !old(lock).state().writer,
            old(lock).state().reader == 1,
        ensures
            final(lock).state() == (RwState { writer: true, reader: 0 }),
            final(lock).value() == old(lock).value(),
    {
        let mut g = self;
        loop
            invariant
                lock.state() == old(lock).state(),
                lock.value() == old(lock).value(),
                !lock.state().writer,
                lock.state().reader == 1,
            decreases 1int,
        {
            g = match g.try_upgrade(lock) {
                Ok(gurd) => {
                    return gurd;
                },
                Err(e) => e,
            };
        }
    }
}

/// While the writer holds the lock, no reader and no other writer gets in;
/// while a reader holds it, no writer gets in.
pub proof fn lemma_rw_exclusion(s: RwState)
    ensures
        spec_try_write(s).1 ==> !spec_try_read(spec_try_write(s).0).1 && !spec_try_write(
            spec_try_write(s).0,
        ).1,
        spec_try_read(s).1 && spec_try_read(s).0.reader != 0 ==> !spec_try_write(spec_try_read(s).0).1,
{
}

/// A read hold taken and released, or the write hold taken and released,
/// leaves the lock as it was.
pub proof fn lemma_rw_release_restores(s: RwState)
    ensures
        spec_try_read(s).1 && s.reader < usize::MAX ==> (RwState {
            reader: (spec_try_read(s).0.reader - 1) as usize,
            ..spec_try_read(s).0
        }) == s,
        spec_try_write(s).1 ==> (RwState { writer: false, ..spec_try_write(s).0 }) == s,
{
}

/// What each attempt does to the counters. A reader gets in exactly when no
/// writer flag is set, and then counts one more reader; a refused reader
/// leaves the lock as it was. A writer gets in exactly when the lock is
/// free. An upgrade succeeds exactly when no writer flag is set and the
/// reader is the only one, and then leaves the lock held by the writer
/// alone; a failed upgrade counts the same readers as before and only sets
/// the writer flag.
pub proof fn lemma_rw_attempts(s: RwState)
    ensures
        spec_try_read(s).1 <==> !s.writer,
        spec_try_read(s).1 && s.reader < usize::MAX ==> spec_try_read(s).0.reader == s.reader + 1
            && !spec_try_read(s).0.writer,
        !spec_try_read(s).1 ==> spec_try_read(s).0 == s,
        spec_try_write(s).1 <==> (!s.writer && s.reader == 0),
        spec_try_write(s).0.reader == s.reader && spec_try_write(s).0.writer,
        spec_try_upgrade(s).1 <==> (!s.writer && s.reader == 1),
        spec_try_upgrade(s).1 ==> spec_try_upgrade(s).0 == (RwState { writer: true, reader: 0 }),
        !spec_try_upgrade(s).1 ==> spec_try_upgrade(s).0.reader == s.reader
            && spec_try_upgrade(s).0.writer,
{
}

} // verus!
