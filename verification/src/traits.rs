//! Access abstractions for succinct structures.

pub mod indexed_dict;
pub mod rank_sel;
