//! In-place comparison sorts over a caller-owned sequence.
//!
//! Every sort promises the same thing: the sequence afterwards holds
//! exactly the elements it held before, as a multiset, and is sorted in
//! ascending order whenever the element type's ordering behaves as a total
//! order ([`crate::order::lawful_partial_order`]), as the integer types'
//! orderings do. When that order also discerns values — comparing `Equal`
//! only when equal, as the integer orders do —
//! [`crate::order::lemma_sorted_permutation_unique`] pins the result down
//! completely: all four sorts produce the same arrangement of the input,
//! and sorting twice changes nothing.

mod bubble_sort;
mod insertion_sort;
mod quick_sort;
mod selection_sort;

pub use bubble_sort::bubble_sort;
pub use insertion_sort::insertion_sort;
pub use quick_sort::quick_sort;
pub use selection_sort::selection_sort;
