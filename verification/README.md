# kernel

The logic of a small x86-64 kernel, verified with Verus: a bitmap frame allocator and the
placement of its data, the walk that maps a page, the ready queues and the load balancing of the
scheduler, thread creation, the descriptor tables, the timer of the local interrupt controller,
spin locks, and a console with ANSI colors.

- `src/` is the library. Each module states what its functions do in `requires` and `ensures`
  clauses over mathematical models. The modules `*_laws.rs` and `laws.rs` state what holds of a
  part as a whole, as proof functions.
- `app/` is what surrounds the library in a kernel: boot loader requests, memory at raw addresses,
  control registers, interrupts and assembly. It is not verified, and it is no bootable image: it
  is only type-checked against the library, and leans on std for its global cells, its boot-time
  lists and its panic hook.
- `tests/` runs the library on concrete values.

Where the library relies on code that is not verified, a function or type marked
`#[verifier::external_body]` says what it relies on: address checks and the global descriptor
table of the `x86_64` crate, and `core::array::from_fn`.
