//! Verified known-bits and floating-point class analyses, and IR construction.

pub mod bitseq;
pub mod ap_int;
pub mod error;
pub mod known_bits;
pub mod known_bits_laws;
pub mod known_bits_shift_laws;
pub mod known_bits_signed_laws;
pub mod known_bits_mul_laws;
pub mod known_bits_sum_laws;
pub mod known_bits_rem_laws;
pub mod ir;
pub mod ir_builder;
pub mod iter;
pub mod fp_class;
pub mod known_fp_class;
pub mod known_fp_class_laws;
pub mod type_text;
