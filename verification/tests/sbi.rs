use rvkernel::sbi::{consele_putchar, shutdown, sbi_hsm_hart_start, sbi_hsm_hart_stop,
    sbi_hsm_hart_suspend, sbi_hsm_hart_get_status, set_timer, thread_start, SbiCall};
use rvkernel::console::printf::Writer;

fn call(sbi_type: usize, arg0: usize, arg1: usize, arg2: usize, arg3: usize) -> SbiCall {
    SbiCall { sbi_type, arg0, arg1, arg2, arg3 }
}

#[test]
fn legacy_calls() {
    assert_eq!(consele_putchar(0x41), call(1, 0x41, 0, 0, 0));
    assert_eq!(shutdown(), call(8, 0, 0, 0, 0));
    assert_eq!(set_timer(1000), call(0, 1000, 0, 0, 0));
}

#[test]
fn hart_state_calls() {
    assert_eq!(sbi_hsm_hart_start(2), call(0x48534D, 2, 0x80200000, 64, 0));
    assert_eq!(sbi_hsm_hart_stop(1), call(0x48534D, 1, 0, 64, 1));
    assert_eq!(sbi_hsm_hart_get_status(1), call(0x48534D, 1, 0, 64, 2));
    assert_eq!(sbi_hsm_hart_suspend(0), call(0x48534D, 0, 0, 64, 3));
}

#[test]
fn thread_start_starts_the_other_harts() {
    assert_eq!(thread_start(0), vec![sbi_hsm_hart_start(1), sbi_hsm_hart_start(2)]);
    assert_eq!(thread_start(1), vec![sbi_hsm_hart_start(0), sbi_hsm_hart_start(2)]);
    assert_eq!(thread_start(7).len(), 3);
}

#[test]
fn writer_puts_each_character() {
    let mut w = Writer;
    assert_eq!(w.write_str("hi"), vec![consele_putchar('h' as usize), consele_putchar('i' as usize)]);
    assert_eq!(w.write_str(""), vec![]);
    assert_eq!(w.write_str("é").len(), 1);
}
