# lib

A library for building and analysing a small SSA intermediate representation.
Every function is specified with `requires` / `ensures` and proved with Verus.

## Layout

- `src/bitseq.rs`, `src/ap_int.rs`: arbitrary-width integers as bit
  sequences, with their arithmetic.
- `src/known_bits.rs` and `src/known_bits_*_laws.rs`: the known-bits lattice.
  Its transfer functions are specified exactly, and their soundness laws are
  proved: every concrete result of an operation is admitted by the computed
  known bits.
- `src/fp_class.rs`, `src/known_fp_class.rs`: floating-point class sets, and
  the analysis of which classes a value of a module can belong to.
- `src/ir.rs`: the module arenas (types, struct bodies, values, blocks,
  functions, use lists) and their well-formedness invariant.
- `src/ir_builder.rs` and `src/ir_builder/`: the instruction builder and its
  folding strategies (`ConstantFolder`, `NoFolder`, and the `IRBuilderFolder`
  trait for your own).
- `src/iter.rs`: a block cursor that walks a snapshot of a block.
- `src/type_text.rs`: the textual form of types.
- `tests/`: executable tests.

## Checking

Run Verus on `src/lib.rs` to check the proofs. Run the tests with cargo.
