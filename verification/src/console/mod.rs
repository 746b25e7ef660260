//! The console.
use vstd::prelude::*;

pub mod printf;

verus! {

} // verus!
