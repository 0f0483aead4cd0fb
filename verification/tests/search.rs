use algorithms::search;

#[test]
fn linear_search() {
    assert_eq!(search::linear_search(&5, &[1, 2, 3, 4, 5, 6]), Some(4));
}

#[test]
fn binary_search_search_ints() {
    let a = vec![1, 2, 3, 4, 5];
    assert_eq!(search::binary_search(&5, &a), Some(4));
    assert_eq!(search::binary_search(&-1, &a), None);
}

#[test]
fn binary_search_search_strings() {
    assert_eq!(search::binary_search(&"a", &["a", "b", "c", "d"]), Some(0));
    assert_eq!(search::binary_search(&"", &["a", "b", "c", "d"]), None);
}

#[test]
fn binary_search_search_not_found() {
    assert_eq!(search::binary_search(&10, &[1, 2, 3, 4, 5]), None);
}

#[test]
fn binary_search_search_empty() {
    let b = vec![];
    assert_eq!(search::binary_search(&5, &b), None);
    assert_eq!(search::binary_search(&-1, &b), None);
}

#[test]
fn linear_search_search_ints() {
    let a = vec![1, 2, 3, 4, 5];
    assert_eq!(search::linear_search(&5, &a), Some(4));
    assert_eq!(search::linear_search(&-1, &a), None);
}

#[test]
fn linear_search_search_strings() {
    assert_eq!(search::linear_search(&"a", &["a", "b", "c", "d"]), Some(0));
    assert_eq!(search::linear_search(&"", &["a", "b", "c", "d"]), None);
}

#[test]
fn linear_search_search_not_found() {
    assert_eq!(search::linear_search(&10, &[1, 2, 3, 4, 5]), None);
}

#[test]
fn linear_search_search_empty() {
    let b: Vec<i32> = vec![];
    assert_eq!(search::linear_search(&5, &b), None);
    assert_eq!(search::linear_search(&-1, &b), None);
}
