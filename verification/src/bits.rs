//! Bit-packed storage of fixed-width values.
//!
//! Two owned backends share one layout: a plain word vector
//! ([`bit_field_vec::BitFieldVec`]) and a hardware-atomic word vector
//! ([`atomic_bit_field_vec::AtomicBitFieldVec`]), convertible into one
//! another without renormalizing the stored bits. The word size is fixed at
//! 64 bits, and no borrowed-slice backend is offered: consumers that need a
//! borrowed view take the raw parts and rebuild, which the raw-part
//! contracts show is exact.

pub mod atomic_bit_field_vec;
pub mod bit_field_vec;
pub mod word_ops;
