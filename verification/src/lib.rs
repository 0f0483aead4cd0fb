//! A small collection of classic data structures and algorithms, verified:
//! a singly linked list stored in an arena, linear and binary search, and
//! four comparison sorts.

pub mod data_structures;
pub mod order;
pub mod search;
pub mod sort;
