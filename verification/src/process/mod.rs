//! Per-CPU state.
use vstd::prelude::*;

pub mod cpu;

pub use cpu::Cpu;

verus! {

} // verus!
