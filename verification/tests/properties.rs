//! Scenario tests for the properties the library states: length
//! accounting, front stability, round trips, agreement of the searches,
//! and agreement and idempotence of the sorts.

use algorithms::data_structures::LinkedList;
use algorithms::data_structures::ListIterator;
use algorithms::search::binary_search;
use algorithms::search::linear_search;
use algorithms::sort::bubble_sort;
use algorithms::sort::insertion_sort;
use algorithms::sort::quick_sort;
use algorithms::sort::selection_sort;

#[test]
fn length_counts_inserts_minus_removes() {
    let mut list = LinkedList::<i32>::new();
    assert_eq!(list.length, 0);
    list.insert_first(10);
    list.insert_last(20);
    list.insert_first(30);
    assert_eq!(list.length, 3);
    assert_eq!(list.remove_first(), Some(30));
    assert_eq!(list.length, 2);
    assert_eq!(list.remove_ith(1), Some(20));
    assert_eq!(list.length, 1);
    // a failed removal does not count
    assert_eq!(list.remove_ith(5), None);
    assert_eq!(list.length, 1);
}

#[test]
fn front_stays_until_something_is_inserted_before_it() {
    let mut list = LinkedList::<i32>::new();
    list.insert_last(7);
    list.insert_first(42);
    assert_eq!(list.get(0), Some(42));
    list.insert_last(1);
    list.insert_last(2);
    assert_eq!(list.get(0), Some(42));
    list.remove_ith(2);
    assert_eq!(list.get(0), Some(42));
    list.insert_first(5);
    assert_eq!(list.get(0), Some(5));
}

#[test]
fn remove_first_on_empty_is_a_no_op() {
    let mut list = LinkedList::<i32>::new();
    assert_eq!(list.remove_first(), None);
    assert_eq!(list.length, 0);
    assert_eq!(list.get(0), None);
}

#[test]
fn insert_last_round_trip() {
    let mut list = LinkedList::<i32>::new();
    list.insert_last(1);
    list.insert_last(2);
    list.insert_last(3);
    assert_eq!(list.get(0), Some(1));
    assert_eq!(list.get(1), Some(2));
    assert_eq!(list.get(2), Some(3));
    assert_eq!(list.remove_ith(1), Some(2));
    assert_eq!(list.get(0), Some(1));
    assert_eq!(list.get(1), Some(3));
    assert_eq!(list.length, 2);
}

#[test]
fn freed_slots_are_reused() {
    let mut list = LinkedList::<i32>::new();
    for k in 0..16 {
        list.insert_last(k);
    }
    for _ in 0..8 {
        list.remove_ith(3);
    }
    for k in 0..8 {
        list.insert_first(100 + k);
    }
    assert_eq!(list.length, 16);
    assert_eq!(list.get(0), Some(107));
    assert_eq!(list.get(8), Some(0));
    assert_eq!(list.get(15), Some(15));
}

// Removing the last element through `remove_ith` moves the tail reference
// back to the predecessor, so a later `insert_last` appends a reachable
// node. The library fixes the tail up rather than leaving it on the
// removed node; this test pins that choice down.
#[test]
fn removing_the_tail_keeps_insert_last_working() {
    let mut list = LinkedList::<i32>::new();
    list.insert_last(1);
    list.insert_last(2);
    list.insert_last(3);
    assert_eq!(list.remove_ith(2), Some(3));
    list.insert_last(9);
    assert_eq!(list.length, 3);
    assert_eq!(list.get(2), Some(9));
}

#[test]
fn out_of_range_reads_return_nothing() {
    let mut list = LinkedList::<i32>::new();
    assert_eq!(list.get(0), None);
    assert_eq!(list.get_first(), None);
    list.insert_last(1);
    assert_eq!(list.get(1), None);
    assert_eq!(list.remove_ith(1), None);
    assert_eq!(list.length, 1);
}

#[test]
fn iterator_on_empty_list_is_done_immediately() {
    let list = LinkedList::<i32>::new();
    let mut iter = ListIterator::new(list);
    assert_eq!(iter.next(), None);
    assert_eq!(iter.next(), None);
}

#[test]
fn searches_agree_on_presence() {
    let unsorted: Vec<i64> = vec![9, 4, 4, 7, 1, 8];
    let mut sorted_copy = unsorted.clone();
    quick_sort(&mut sorted_copy);
    for probe in -1..11 {
        let linearly = linear_search(&probe, &unsorted).is_some();
        let binarily = binary_search(&probe, &sorted_copy).is_some();
        assert_eq!(linearly, binarily);
    }
}

#[test]
fn binary_search_concrete_results() {
    assert_eq!(binary_search(&5, &[1, 2, 3, 4, 5]), Some(4));
    assert_eq!(binary_search(&-1, &[1, 2, 3, 4, 5]), None);
}

#[test]
fn sorts_agree_and_are_idempotent() {
    let input: Vec<i64> = vec![5, 1, 2, 3, 4, 6];
    let mut a = input.clone();
    let mut b = input.clone();
    let mut c = input.clone();
    let mut d = input.clone();
    bubble_sort(&mut a);
    insertion_sort(&mut b);
    quick_sort(&mut c);
    selection_sort(&mut d);
    assert_eq!(a, [1, 2, 3, 4, 5, 6]);
    assert_eq!(a, b);
    assert_eq!(a, c);
    assert_eq!(a, d);
    bubble_sort(&mut a);
    insertion_sort(&mut b);
    quick_sort(&mut c);
    selection_sort(&mut d);
    assert_eq!(a, [1, 2, 3, 4, 5, 6]);
    assert_eq!(a, b);
    assert_eq!(a, c);
    assert_eq!(a, d);
}

#[test]
fn sorts_handle_duplicates() {
    let input: Vec<i64> = vec![3, -7, 3, 0, -7, 3];
    let expected = [-7, -7, 0, 3, 3, 3];
    let mut a = input.clone();
    let mut b = input.clone();
    let mut c = input.clone();
    let mut d = input.clone();
    bubble_sort(&mut a);
    insertion_sort(&mut b);
    quick_sort(&mut c);
    selection_sort(&mut d);
    assert_eq!(a, expected);
    assert_eq!(b, expected);
    assert_eq!(c, expected);
    assert_eq!(d, expected);
}

#[test]
fn single_element_is_already_sorted() {
    let mut arr: Vec<i64> = vec![42];
    quick_sort(&mut arr);
    assert_eq!(arr, [42]);
    bubble_sort(&mut arr);
    assert_eq!(arr, [42]);
}
