//! Succinct data structures for compactly stored integer sequences.
//!
//! The core is a fixed-width bit-packed vector ([`bits::bit_field_vec::BitFieldVec`]):
//! a dense array of equal-bit-width unsigned values stored contiguously in
//! 64-bit words with no padding, with a variant backed by hardware-atomic
//! words for concurrent access. On top of it sit the generic access
//! abstractions the rest of the library composes with: indexed dictionaries
//! with monotone predecessor/successor search
//! ([`traits::indexed_dict`]) and rank/select primitives over bit vectors
//! ([`traits::rank_sel`]).

pub mod bits;
pub mod traits;
