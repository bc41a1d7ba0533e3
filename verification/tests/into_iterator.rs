use doubly_linked_list::list::DoublyLinkedList;

#[test]
fn iterator_steps_from_both_ends() {
    let mut list = DoublyLinkedList::new();
    list.push_front(1);
    list.push_front(2);
    list.push_front(3);
    let mut iter = list.into_iter();
    assert_eq!(iter.next(), Some(3));
    assert_eq!(iter.next_back(), Some(1));
    assert_eq!(iter.next(), Some(2));
    assert_eq!(iter.next_back(), None);
}

#[test]
fn for_loop_yields_in_order() {
    let mut list = DoublyLinkedList::new();
    list.push_back(1);
    list.push_back(2);
    list.push_back(3);
    let mut i = 1;
    for e in list {
        assert_eq!(e, i);
        i += 1;
    }
    assert_eq!(i, 4);
}

#[test]
fn front_back_front_back() {
    let mut list = DoublyLinkedList::new();
    list.push_back(1);
    list.push_back(2);
    list.push_back(3);
    let mut iter = list.into_iter();
    assert_eq!(iter.next(), Some(1));
    assert_eq!(iter.next_back(), Some(3));
    assert_eq!(iter.next(), Some(2));
    assert_eq!(iter.next_back(), None);
    assert_eq!(iter.next(), None);
}

#[test]
fn exhausted_iterator_stays_exhausted() {
    let list: DoublyLinkedList<i32> = DoublyLinkedList::new();
    let mut iter = list.into_iter();
    assert_eq!(iter.next(), None);
    assert_eq!(iter.next_back(), None);
    assert_eq!(iter.next(), None);
}

#[test]
fn round_trip_keeps_the_order() {
    let items = vec![5, 1, 4, 1, 5, 9, 2, 6];
    let mut list = DoublyLinkedList::new();
    for &x in &items {
        list.push_back(x);
    }
    let drained: Vec<i32> = list.into_iter().collect();
    assert_eq!(drained, items);
    let none: Vec<i32> = DoublyLinkedList::<i32>::new().into_iter().collect();
    assert_eq!(none, Vec::<i32>::new());
}

#[test]
fn backward_drain_reverses_the_order() {
    let items = vec![5, 1, 4, 1, 5, 9, 2, 6];
    let mut list = DoublyLinkedList::new();
    for &x in &items {
        list.push_back(x);
    }
    let mut iter = list.into_iter();
    let mut drained = Vec::new();
    while let Some(x) = iter.next_back() {
        drained.push(x);
    }
    assert_eq!(drained, vec![6, 2, 9, 5, 1, 4, 1, 5]);
    assert_eq!(iter.next(), None);
}

#[test]
fn from_iter_keeps_the_order() {
    let list = DoublyLinkedList::from_iter(vec![3, 1, 2].into_iter());
    assert_eq!(list.len(), 3);
    assert_eq!(list.get(0), Some(&3));
    assert_eq!(list.get(1), Some(&1));
    assert_eq!(list.get(2), Some(&2));
    assert_eq!(list.front(), Some(&3));
    assert_eq!(list.back(), Some(&2));
    let empty = DoublyLinkedList::from_iter(Vec::<i32>::new().into_iter());
    assert!(empty.is_empty());
    let counted = DoublyLinkedList::from_iter(0..4);
    let drained: Vec<i32> = counted.into_iter().collect();
    assert_eq!(drained, vec![0, 1, 2, 3]);
}

#[test]
fn from_array_keeps_the_order() {
    let list = DoublyLinkedList::from([7, 8, 9]);
    assert_eq!(list.len(), 3);
    assert_eq!(list.front(), Some(&7));
    assert_eq!(list.get(1), Some(&8));
    assert_eq!(list.back(), Some(&9));
    let drained: Vec<i32> = list.into_iter().collect();
    assert_eq!(drained, vec![7, 8, 9]);
    let empty: DoublyLinkedList<i32> = DoublyLinkedList::from([]);
    assert_eq!(empty.len(), 0);
}

#[test]
fn reversed_adapter_yields_back_to_front() {
    let list = DoublyLinkedList::from([1, 2, 3, 4]);
    let drained: Vec<i32> = list.into_iter().rev().collect();
    assert_eq!(drained, vec![4, 3, 2, 1]);
}

#[test]
fn steps_from_both_ends_meet_in_the_middle() {
    let list = DoublyLinkedList::from([1, 2, 3, 4, 5]);
    let mut iter = list.into_iter();
    assert_eq!(iter.next_back(), Some(5));
    assert_eq!(iter.next(), Some(1));
    assert_eq!(iter.next(), Some(2));
    assert_eq!(iter.next_back(), Some(4));
    assert_eq!(iter.next_back(), Some(3));
    assert_eq!(iter.next_back(), None);
    assert_eq!(iter.next(), None);
}
