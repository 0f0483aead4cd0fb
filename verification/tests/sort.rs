use algorithms::sort::bubble_sort;
use algorithms::sort::insertion_sort;
use algorithms::sort::quick_sort;
use algorithms::sort::selection_sort;

#[test]
fn bubble_sort_sort_ascending() {
    let mut arr = vec![1, 2, 3];
    bubble_sort(&mut arr);
    assert_eq!(arr, [1, 2, 3]);
}

#[test]
fn bubble_sort_sort_descending() {
    let mut arr = vec![3, 2, 1];
    bubble_sort(&mut arr);
    assert_eq!(arr, [1, 2, 3]);
}

#[test]
fn bubble_sort_sort_descending_float() {
    let mut arr = vec![3.0, 2.0, 1.0];
    bubble_sort(&mut arr);
    assert_eq!(arr, [1.0, 2.0, 3.0]);
}

#[test]
fn bubble_sort_sort_empty() {
    let mut arr: Vec<i64> = vec![];
    bubble_sort(&mut arr);
    assert_eq!(arr, []);
}

#[test]
fn insertion_sort_sort_ascending() {
    let mut arr = vec![1, 2, 3];
    insertion_sort(&mut arr);
    assert_eq!(arr, [1, 2, 3]);
}

#[test]
fn insertion_sort_sort_descending() {
    let mut arr = vec![3, 2, 1];
    insertion_sort(&mut arr);
    assert_eq!(arr, [1, 2, 3]);
}

#[test]
fn insertion_sort_sort_descending_float() {
    let mut arr = vec![3.0, 2.0, 1.0];
    insertion_sort(&mut arr);
    assert_eq!(arr, [1.0, 2.0, 3.0]);
}

#[test]
fn insertion_sort_sort_empty() {
    let mut arr: Vec<i64> = vec![];
    insertion_sort(&mut arr);
    assert_eq!(arr, []);
}

#[test]
fn quick_sort_sort_ascending() {
    let mut arr = vec![1, 2, 3];
    quick_sort(&mut arr);
    assert_eq!(arr, [1, 2, 3]);
}

#[test]
fn quick_sort_sort_descending() {
    let mut arr = vec![3, 2, 1];
    quick_sort(&mut arr);
    assert_eq!(arr, [1, 2, 3]);
}

#[test]
fn quick_sort_sort_descending_float() {
    let mut arr = vec![3.0, 2.0, 1.0];
    quick_sort(&mut arr);
    assert_eq!(arr, [1.0, 2.0, 3.0]);
}

#[test]
fn quick_sort_sort_empty() {
    let mut arr: Vec<i64> = vec![];
    quick_sort(&mut arr);
    assert_eq!(arr, []);
}

#[test]
fn quick_sort_sort_random() {
    let mut arr = vec![5, 1, 2, 3, 4, 6];
    quick_sort(&mut arr);
    assert_eq!(arr, [1, 2, 3, 4, 5, 6]);
}

#[test]
fn selection_sort_sort_ascending() {
    let mut arr = vec![1, 2, 3];
    selection_sort(&mut arr);
    assert_eq!(arr, [1, 2, 3]);
}

#[test]
fn selection_sort_sort_descending() {
    let mut arr = vec![3, 2, 1];
    selection_sort(&mut arr);
    assert_eq!(arr, [1, 2, 3]);
}

#[test]
fn selection_sort_sort_descending_float() {
    let mut arr = vec![3.0, 2.0, 1.0];
    selection_sort(&mut arr);
    assert_eq!(arr, [1.0, 2.0, 3.0]);
}

#[test]
fn selection_sort_sort_empty() {
    let mut arr: Vec<i64> = vec![];
    selection_sort(&mut arr);
    assert_eq!(arr, []);
}

#[test]
fn selection_sort_sort_random() {
    let mut arr = vec![5, 1, 2, 3, 4, 6];
    selection_sort(&mut arr);
    assert_eq!(arr, [1, 2, 3, 4, 5, 6]);
}
