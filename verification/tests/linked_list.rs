use algorithms::data_structures::LinkedList;
use algorithms::data_structures::ListIterator;

#[test]
fn insert_first_ints() {
    let mut list = LinkedList::<i32>::new();
    list.insert_first(1);
    list.insert_last(2);

    match list.get_first() {
        None => panic!("Expect to have value at head"),
        Some(value) => assert_eq!(value, 1),
    }
}

#[test]
fn insert_last_ints() {
    let mut list = LinkedList::<i32>::new();
    list.insert_last(1);

    match list.get_first() {
        None => panic!("Expect to have value at head"),
        Some(value) => assert_eq!(value, 1),
    }
}

#[test]
fn insert_multi_operations() {
    let mut list = LinkedList::<i32>::new();
    list.insert_first(1); // 1
    list.insert_last(2); // 1 2
    list.insert_first(3); // 3 1 2
    list.insert_last(4); // 3 1 2 4
    list.insert_first(5); // 5 3 1 2 4

    assert_eq!(list.length, 5);

    match list.get_first() {
        None => panic!("Expect to have value"),
        Some(value) => assert_eq!(value, 5),
    }

    match list.get(1) {
        None => panic!("Expect to have value"),
        Some(value) => assert_eq!(value, 3),
    }

    match list.get(2) {
        None => panic!("Expect to have value"),
        Some(value) => assert_eq!(value, 1),
    }

    match list.get(3) {
        None => panic!("Expect to have value"),
        Some(value) => assert_eq!(value, 2),
    }

    match list.get(4) {
        None => panic!("Expect to have value"),
        Some(value) => assert_eq!(value, 4),
    }

    list.remove_first();
    match list.get(0) {
        None => panic!("Expect to have value"),
        Some(value) => assert_eq!(value, 3),
    }
    list.remove_first();
    match list.get(0) {
        None => panic!("Expect to have value"),
        Some(value) => assert_eq!(value, 1),
    }
    list.remove_first();
    match list.get(0) {
        None => panic!("Expect to have value"),
        Some(value) => assert_eq!(value, 2),
    }
    list.remove_first();
    match list.get(0) {
        None => panic!("Expect to have value"),
        Some(value) => assert_eq!(value, 4),
    }
    list.remove_first();
    if let Some(value) = list.get(0) {
        panic!("Do not expect to have value {value}")
    }
    assert_eq!(list.length, 0);
}

#[test]
fn insert_last_strings() {
    let mut list = LinkedList::<String>::new();
    list.insert_last("hello".to_string());

    match list.get_first() {
        None => panic!("Expect to have value at head"),
        Some(value) => assert_eq!(value, "hello"),
    }
}

#[test]
fn remove_ith() {
    let mut list = LinkedList::<i32>::new();
    list.insert_last(1);
    list.insert_last(2);
    list.insert_last(3);
    list.insert_last(4); // 1 2 3 4

    let r = list.remove_ith(2); // 1 2 4
    assert_eq!(r, Some(3));

    match list.get(2) {
        None => panic!("Expect to have value"),
        Some(value) => assert_eq!(value, 4),
    }

    let r = list.remove_ith(1); // 1 4
    assert_eq!(r, Some(2));

    match list.get(1) {
        None => panic!("Expect to have value"),
        Some(value) => assert_eq!(value, 4),
    }

    let r = list.remove_ith(1); // 1
    assert_eq!(r, Some(4));
    if let Some(value) = list.get(1) {
        panic!("Do not expect to have value {value}")
    }

    let r = list.remove_ith(0); // empty
    assert_eq!(r, Some(1));
    assert_eq!(list.length, 0);

    if let Some(value) = list.get(0) {
        panic!("Do not expect to have value {value}")
    }
}

#[test]
fn into_iterator() {
    let mut list = LinkedList::<String>::new();
    list.insert_last("hello".to_string());
    list.insert_last("world".to_string());

    let mut iter = ListIterator::new(list.clone());
    let mut values: Vec<String> = Vec::new();
    while let Some(v) = iter.next() {
        values.push(v);
    }
    assert_eq!(values, vec!["hello", "world"]);

    let mut iter = ListIterator::new(list);
    while let Some(v) = iter.next() {
        assert!(v == "hello" || v == "world");
    }
}
