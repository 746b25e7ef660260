//! Console output: each character goes out through its own SBI call.
use vstd::prelude::*;
use crate::sbi::{SbiCall, consele_putchar};

verus! {

/// The console writer.
pub struct Writer;

/// The call that writes code point `c`.
pub open spec fn putchar_call(c: char) -> SbiCall {
    SbiCall { sbi_type: 1, arg0: c as usize, arg1: 0, arg2: 0, arg3: 0 }
}

impl Writer {
    /// The calls that write `s`: one per character, in order.
    pub fn write_str(&mut self, s: &str) -> (r: Vec<SbiCall>)
        ensures
            r@.len() == s@.len(),
            forall|i: int| 0 <= i < s@.len() ==> #[trigger] r@[i] == putchar_call(s@[i]),
    {
        broadcast use vstd::string::axiom_spec_iter;
        let mut calls: Vec<SbiCall> = Vec::new();
        for c in it: s.chars()
            invariant
                it.seq() == s@,
                calls@.len() == it.index(),
                forall|i: int| 0 <= i < it.index() ==> #[trigger] calls@[i] == putchar_call(s@[i]),
        {
            calls.push(consele_putchar(c as usize));
        }
        calls
    }
}

} // verus!
