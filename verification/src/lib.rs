//! Tie-break-aware maximum and minimum reduction over sequences.
//!
//! Plain maximum/minimum selection leaves open which element comes back when
//! several compare equal. This crate fixes two deterministic policies:
//! *first maximum* (among elements tied for the maximum, the earliest one in
//! the sequence wins) and *last minimum* (among elements tied for the minimum,
//! the latest one wins). Each policy comes in three flavours: the type's own
//! total order, a caller-supplied three-way comparator, and a caller-supplied
//! key function.

pub mod laws;
pub mod order;
pub mod reduce;

pub use reduce::IterFirstMaxExt;
pub use reduce::IterLastMinExt;

