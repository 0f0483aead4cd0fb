//! Searching a borrowed sequence: a linear scan and a binary search over a
//! sorted sequence.

pub mod binary_search;
pub mod linear_search;

pub use binary_search::binary_search;
pub use linear_search::linear_search;
