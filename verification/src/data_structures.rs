//! Container types: the singly linked list.

pub mod linked_list;

pub use linked_list::LinkedList;
pub use linked_list::ListIterator;
