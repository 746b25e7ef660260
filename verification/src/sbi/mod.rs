//! Requests to the supervisor binary interface (SBI) firmware. Each
//! function here says which call to make; the caller performs it with the
//! `ecall` instruction.
use vstd::prelude::*;
use crate::process::cpu::NCPU;

verus! {

const SBI_SET_TIMER: usize = 0;

const SBI_CONSOLE_PUTCHAR: usize = 1;

const SBI_SHUTDOWN: usize = 8;

/// The hart state management extension.
const SBI_EXT_HSM: usize = 0x48534D;

const SBI_EXT_HSM_HART_START: usize = 0;

const SBI_EXT_HSM_HART_STOP: usize = 1;

const SBI_EXT_HSM_HART_GET_STATUS: usize = 2;

const SBI_EXT_HSM_HART_SUSPEND: usize = 3;

/// An SBI call: the extension (`a7`), three arguments (`a0` to `a2`) and
/// the function within the extension (`a6`).
#[derive(Clone, Copy, PartialEq, Eq, Structural, Debug)]
pub struct SbiCall {
    pub sbi_type: usize,
    pub arg0: usize,
    pub arg1: usize,
    pub arg2: usize,
    pub arg3: usize,
}

/// The call that starts hart `hart_id` at the kernel's entry point.
pub open spec fn spec_hart_start(hart_id: usize) -> SbiCall {
    SbiCall { sbi_type: 0x48534D, arg0: hart_id, arg1: 0x80200000, arg2: 64, arg3: 0 }
}

/// Writes character `c` to the console.
pub fn consele_putchar(c: usize) -> (r: SbiCall)
    ensures
        r == (SbiCall { sbi_type: 1, arg0: c, arg1: 0, arg2: 0, arg3: 0 }),
{
    SbiCall { sbi_type: SBI_CONSOLE_PUTCHAR, arg0: c, arg1: 0, arg2: 0, arg3: 0 }
}

/// Shuts the system down; the caller panics should the call return.
pub fn shutdown() -> (r: SbiCall)
    ensures
        r == (SbiCall { sbi_type: 8, arg0: 0, arg1: 0, arg2: 0, arg3: 0 }),
{
    SbiCall { sbi_type: SBI_SHUTDOWN, arg0: 0, arg1: 0, arg2: 0, arg3: 0 }
}

/// Starts hart `hart_id` at the kernel's entry point.
pub fn sbi_hsm_hart_start(hart_id: usize) -> (r: SbiCall)
    ensures
        r == spec_hart_start(hart_id),
{
    SbiCall { sbi_type: SBI_EXT_HSM, arg0: hart_id, arg1: 0x80200000, arg2: 64, arg3: SBI_EXT_HSM_HART_START }
}

/// Stops hart `hart_id`.
pub fn sbi_hsm_hart_stop(hart_id: usize) -> (r: SbiCall)
    ensures
        r == (SbiCall { sbi_type: 0x48534D, arg0: hart_id, arg1: 0, arg2: 64, arg3: 1 }),
{
    SbiCall { sbi_type: SBI_EXT_HSM, arg0: hart_id, arg1: 0, arg2: 64, arg3: SBI_EXT_HSM_HART_STOP }
}

/// Suspends hart `hart_id`.
pub fn sbi_hsm_hart_suspend(hart_id: usize) -> (r: SbiCall)
    ensures
        r == (SbiCall { sbi_type: 0x48534D, arg0: hart_id, arg1: 0, arg2: 64, arg3: 3 }),
{
    SbiCall { sbi_type: SBI_EXT_HSM, arg0: hart_id, arg1: 0, arg2: 64, arg3: SBI_EXT_HSM_HART_SUSPEND }
}

/// Asks for the status of hart `hart_id`.
pub fn sbi_hsm_hart_get_status(hart_id: usize) -> (r: SbiCall)
    ensures
        r == (SbiCall { sbi_type: 0x48534D, arg0: hart_id, arg1: 0, arg2: 64, arg3: 2 }),
{
    SbiCall { sbi_type: SBI_EXT_HSM, arg0: hart_id, arg1: 0, arg2: 64, arg3: SBI_EXT_HSM_HART_GET_STATUS }
}

/// Sets the timer to fire at `time_value`.
pub fn set_timer(time_value: usize) -> (r: SbiCall)
    ensures
        r == (SbiCall { sbi_type: 0, arg0: time_value, arg1: 0, arg2: 0, arg3: 0 }),
{
    SbiCall { sbi_type: SBI_SET_TIMER, arg0: time_value, arg1: 0, arg2: 0, arg3: 0 }
}

/// The calls that start every hart below `n` other than `tp`, in order of
/// hart number.
pub open spec fn spec_start_others(tp: usize, n: nat) -> Seq<SbiCall>
    decreases n,
{
    if n == 0 {
        Seq::empty()
    } else {
        let rest = spec_start_others(tp, (n - 1) as nat);
        if (n - 1) as usize != tp {
            rest.push(spec_hart_start((n - 1) as usize))
        } else {
            rest
        }
    }
}

/// Hart `tp` starts every hart below `n` but itself, each exactly once and
/// in increasing order of hart number, and never starts itself; every call
/// starts its hart at the kernel's entry point.
pub proof fn lemma_start_others(tp: usize, n: nat)
    requires
        n <= usize::MAX,
    ensures
        spec_start_others(tp, n).len() == if tp < n { n - 1 } else { n as int },
        forall|i: int|
            0 <= i < spec_start_others(tp, n).len() ==> {
                let c = #[trigger] spec_start_others(tp, n)[i];
                c.arg0 != tp && c.arg0 < n && c == spec_hart_start(c.arg0)
            },
        forall|i: int, j: int|
            0 <= i < j < spec_start_others(tp, n).len() ==> (#[trigger] spec_start_others(
                tp,
                n,
            )[i]).arg0 < (#[trigger] spec_start_others(tp, n)[j]).arg0,
        forall|h: usize|
            h < n && h != tp ==> #[trigger] spec_start_others(tp, n).contains(spec_hart_start(h)),
    decreases n,
{
    if n > 0 {
        let m = (n - 1) as nat;
        lemma_start_others(tp, m);
        let rest = spec_start_others(tp, m);
        let all = spec_start_others(tp, n);
        if (n - 1) as usize != tp {
            assert(all == rest.push(spec_hart_start(m as usize)));
            assert forall|h: usize| h < n && h != tp implies #[trigger] all.contains(
                spec_hart_start(h),
            ) by {
                if h < m {
                    assert(rest.contains(spec_hart_start(h)));
                    let k = choose|k: int| 0 <= k < rest.len() && rest[k] == spec_hart_start(h);
                    assert(all[k] == spec_hart_start(h));
                } else {
                    assert(all[rest.len() as int] == spec_hart_start(h));
                }
            }
        } else {
            assert forall|h: usize| h < n && h != tp implies #[trigger] all.contains(
                spec_hart_start(h),
            ) by {
                assert(rest.contains(spec_hart_start(h)));
            }
        }
    }
}

/// The calls that hart `tp` makes to start every other hart, in order of
/// hart number.
pub fn thread_start(tp: usize) -> (r: Vec<SbiCall>)
    ensures
        r@ == spec_start_others(tp, NCPU as nat),
        forall|i: int|
            0 <= i < r@.len() ==> (#[trigger] r@[i]).arg0 != tp && r@[i].arg0 < NCPU && r@[i]
                == spec_hart_start(r@[i].arg0),
        forall|i: int, j: int| 0 <= i < j < r@.len() ==> (#[trigger] r@[i]).arg0 < (#[trigger] r@[j]).arg0,
        forall|h: usize| h < NCPU && h != tp ==> #[trigger] r@.contains(spec_hart_start(h)),
{
    proof {
        lemma_start_others(tp, NCPU as nat);
    }
    let mut calls: Vec<SbiCall> = Vec::new();
    let mut i: usize = 0;
    while i < NCPU
        invariant
            i <= NCPU,
            calls@ == spec_start_others(tp, i as nat),
        decreases NCPU - i,
    {
        if i != tp {
            calls.push(sbi_hsm_hart_start(i));
        }
        i = i + 1;
    }
    calls
}

} // verus!
