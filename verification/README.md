# rvkernel

The core of a small RISC-V (Sv39) kernel, verified with Verus.

- `src/` is the library. Each function has a contract and is verified.
  - `riscv`, `memlayout`: the architecture's constants and the machine's memory layout.
  - `kalloc`: page numbers, page table entries, physical frames (`pages`), the page
    allocator (`pagealloc`), and the bounds of the kernel heap.
  - `vm`: Sv39 page tables. The kernel table (`kvm`) walks, maps and builds the
    identity map of the kernel's memory.
  - `process::cpu`: interrupt-lock nesting per CPU.
  - `lock`: spin lock, reader-writer lock, `Once`, `OnceLock`, `LazyLock`.
  - `sbi`: the SBI calls the kernel makes. `console`: console output as SBI calls.
- `app/` is the program around it. It holds the entry point, the machine
  instructions (`ecall`, `tp`, `sstatus`, `satp`), the heap allocator from
  `slab_allocator_rs` and the kernel's global state (`kernel`), which takes the
  library's spin lock, per-CPU interrupt bookkeeping and `OnceLock` into use.
- `tests/` runs the library on concrete values.

Hardware state (atomics, interrupt bits, memory behind raw addresses) is not
modelled directly. The library models it as values that its functions take and
return: a `PhysMem` of page frames, a `Cpus` array, and lock states. The program
performs the real operations.
