//! Lock protocols: spin lock, reader-writer lock, one-time initialisation.
use vstd::prelude::*;

pub mod mutex;
pub mod spin;
pub mod rwlock;
pub mod once_lock;
pub mod lazylock;

pub use self::spin::SpinLock;
pub use self::spin::SpinLockGurd;
pub use self::once_lock::OnceLock;
pub use self::once_lock::Once;
pub use self::once_lock::OnceState;
pub use self::lazylock::LazyLock;
pub use self::rwlock::RwLock;
pub use self::rwlock::ReadGurd;
pub use self::rwlock::WriteGurd;

verus! {

} // verus!
