//! A small RISC-V (Sv39) kernel core: physical page allocation, kernel page
//! tables, interrupt-nesting bookkeeping, lock protocols and SBI requests.
use vstd::prelude::*;

pub mod riscv;
pub mod kalloc;
pub mod lock;
pub mod memlayout;
pub mod vm;
pub mod process;
pub mod sbi;
pub mod console;
