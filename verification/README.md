# highway

Portable SIMD building blocks whose logic carries machine-checked contracts.

## Layout

- `src/lane.rs` — the lane types (`u8` … `i64`): width, signedness, bit
  pattern and numeric value, and the conversions between them.
- `src/backend/scalar.rs` — the scalar backend: one lane per vector, every
  integer operation of the SIMD interface with a contract over lane values or
  bit patterns, and the laws that relate them.
- `src/backend/crypto_soft.rs` — AES rounds (forward and inverse) and
  carry-less multiplication on 128-bit blocks, with the inverse laws of the
  round steps.
- `src/backend/blocks.rs` — the wide backends' crypto operations as sequences
  of independent 128-bit blocks.
- `src/backend/avx2.rs`, `src/backend/avx512.rs` — the decisions of the x86
  backends on plain values: mask words, and the lane algorithms used where the
  instruction sets have no single instruction (leading zeros by halving,
  saturating arithmetic from sign bits, pack ordering, chunked compress and
  expand, reductions by folding halves, paired-lane high products).
- `src/aligned.rs` — the allocation plan of the aligned allocator.
- `app/` — what talks to the machine: the `allocator_api2` allocator and the
  x86 register types, which move registers to and from memory and hand the
  lanes to the verified routines.
