//! A mutual-exclusion lock, not yet given operations.
use vstd::prelude::*;

verus! {

/// A lock flag and the data it guards.
pub struct Mutex<T> {
    locked: bool,
    data: T,
}

} // verus!
