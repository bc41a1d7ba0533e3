use doubly_linked_list::list::DoublyLinkedList;

fn built(items: &[i32]) -> DoublyLinkedList<i32> {
    let mut l = DoublyLinkedList::new();
    for &x in items {
        l.push_back(x);
    }
    l
}

fn contents(l: &DoublyLinkedList<i32>) -> Vec<i32> {
    let mut out = Vec::new();
    for i in 0..l.len() {
        out.push(*l.get(i).unwrap());
    }
    out
}

#[test]
fn test_new() {
    let l: DoublyLinkedList<i32> = DoublyLinkedList::new();
    assert_eq!(l.len(), 0);
}

#[test]
fn test_push_front() {
    let mut l: DoublyLinkedList<i32> = DoublyLinkedList::new();
    l.push_front(1);
    assert_eq!(l.len(), 1);
    assert_eq!(l.front(), Some(&1));
    assert_eq!(l.back(), Some(&1));
}

#[test]
fn test_push_back() {
    let mut l: DoublyLinkedList<i32> = DoublyLinkedList::new();
    l.push_back(1);
    assert_eq!(l.len(), 1);
    assert_eq!(l.front(), Some(&1));
    assert_eq!(l.back(), Some(&1));
}

#[test]
fn test_pop_front() {
    let mut l: DoublyLinkedList<i32> = DoublyLinkedList::new();
    l.push_back(1);
    l.push_back(2);
    assert_eq!(l.pop_front(), Some(1));
    assert_eq!(l.len(), 1);
    assert_eq!(l.front(), Some(&2));
    assert_eq!(l.back(), Some(&2));
}

#[test]
fn test_pop_back() {
    let mut l: DoublyLinkedList<i32> = DoublyLinkedList::new();
    l.push_back(1);
    l.push_back(2);
    assert_eq!(l.pop_back(), Some(2));
    assert_eq!(l.len(), 1);
    assert_eq!(l.front(), Some(&1));
    assert_eq!(l.back(), Some(&1));
}

#[test]
fn test_front_mut() {
    let mut l: DoublyLinkedList<i32> = DoublyLinkedList::new();
    l.push_back(1);
    l.push_back(2);
    l.front_mut().map(|x| *x = 3);
    l.back_mut().map(|x| *x = 4);
    assert_eq!(l.front_mut(), Some(&mut 3));
    assert_eq!(l.back_mut(), Some(&mut 4));
}

#[test]
fn len_follows_push_front() {
    let mut list = DoublyLinkedList::new();
    assert_eq!(list.len(), 0);
    list.push_front(1);
    assert_eq!(list.len(), 1);
}

#[test]
fn empty_list_has_nothing_to_pop() {
    let mut l: DoublyLinkedList<i32> = DoublyLinkedList::new();
    assert_eq!(l.len(), 0);
    assert!(l.is_empty());
    assert_eq!(l.pop_front(), None);
    assert_eq!(l.pop_back(), None);
    assert_eq!(l.len(), 0);
    assert_eq!(l.front(), None);
    assert_eq!(l.back(), None);
    assert_eq!(l.front_mut(), None);
    assert_eq!(l.back_mut(), None);
    assert_eq!(l.get(0), None);
    assert_eq!(l.get_mut(0), None);
}

#[test]
fn single_element_is_front_and_back() {
    let mut l = DoublyLinkedList::new();
    l.push_back(1);
    assert_eq!(l.len(), 1);
    assert!(!l.is_empty());
    assert_eq!(l.front(), Some(&1));
    assert_eq!(l.back(), Some(&1));
    assert_eq!(l.pop_back(), Some(1));
    assert_eq!(l.len(), 0);
    assert_eq!(l.front(), None);
    assert_eq!(l.back(), None);
}

#[test]
fn single_element_popped_from_front_empties_list() {
    let mut l = DoublyLinkedList::new();
    l.push_front(7);
    assert_eq!(l.pop_front(), Some(7));
    assert!(l.is_empty());
    assert_eq!(l.front(), None);
    assert_eq!(l.back(), None);
    l.push_back(8);
    assert_eq!(contents(&l), vec![8]);
}

#[test]
fn remove_in_the_middle_then_at_the_ends() {
    let mut l = built(&[1, 2, 3]);
    assert_eq!(l.remove(1), Ok(2));
    assert_eq!(l.len(), 2);
    assert_eq!(l.remove(1), Ok(3));
    assert_eq!(l.len(), 1);
    assert_eq!(l.remove(0), Ok(1));
    assert_eq!(l.len(), 0);
}

#[test]
fn remove_relinks_the_neighbours() {
    let mut l = built(&[10, 20, 30, 40, 50]);
    assert_eq!(l.remove(2), Ok(30));
    assert_eq!(contents(&l), vec![10, 20, 40, 50]);
    assert_eq!(l.remove(1), Ok(20));
    assert_eq!(contents(&l), vec![10, 40, 50]);
    assert_eq!(l.front(), Some(&10));
    assert_eq!(l.back(), Some(&50));
    assert_eq!(l.pop_back(), Some(50));
    assert_eq!(l.pop_back(), Some(40));
    assert_eq!(l.pop_back(), Some(10));
    assert_eq!(l.pop_back(), None);
}

#[test]
fn remove_out_of_bounds_is_refused() {
    let mut l = built(&[1, 2, 3]);
    assert_eq!(l.remove(3), Err(String::from("Index out of bounds")));
    assert_eq!(l.remove(usize::MAX), Err(String::from("Index out of bounds")));
    assert_eq!(contents(&l), vec![1, 2, 3]);
    let mut empty: DoublyLinkedList<i32> = DoublyLinkedList::new();
    assert_eq!(empty.remove(0), Err(String::from("Index out of bounds")));
    assert_eq!(empty.len(), 0);
}

#[test]
fn insert_after_in_the_middle() {
    let mut l = built(&[1, 2, 4]);
    assert_eq!(l.insert_after(1, 3), Ok(()));
    assert_eq!(l.len(), 4);
    assert_eq!(contents(&l), vec![1, 2, 3, 4]);
}

#[test]
fn insert_after_the_last_is_a_push_back() {
    let mut l = built(&[1, 2]);
    assert_eq!(l.insert_after(1, 3), Ok(()));
    assert_eq!(contents(&l), vec![1, 2, 3]);
    assert_eq!(l.back(), Some(&3));
    let mut single = built(&[5]);
    assert_eq!(single.insert_after(0, 6), Ok(()));
    assert_eq!(contents(&single), vec![5, 6]);
}

#[test]
fn insert_before_in_the_middle() {
    let mut l = built(&[1, 3, 4]);
    assert_eq!(l.insert_before(1, 2), Ok(()));
    assert_eq!(l.len(), 4);
    assert_eq!(contents(&l), vec![1, 2, 3, 4]);
    assert_eq!(l.insert_before(3, 9), Ok(()));
    assert_eq!(contents(&l), vec![1, 2, 3, 9, 4]);
}

#[test]
fn insert_before_the_first_is_a_push_front() {
    let mut l = built(&[2, 3]);
    assert_eq!(l.insert_before(0, 1), Ok(()));
    assert_eq!(contents(&l), vec![1, 2, 3]);
    assert_eq!(l.front(), Some(&1));
}

#[test]
fn insert_out_of_bounds_is_refused() {
    let mut l = built(&[1, 2]);
    assert_eq!(l.insert_after(2, 9), Err(String::from("Index out of bounds")));
    assert_eq!(l.insert_before(2, 9), Err(String::from("Index out of bounds")));
    assert_eq!(l.insert_after(usize::MAX, 9), Err(String::from("Index out of bounds")));
    assert_eq!(contents(&l), vec![1, 2]);
    let mut empty: DoublyLinkedList<i32> = DoublyLinkedList::new();
    assert_eq!(empty.insert_after(0, 1), Err(String::from("Index out of bounds")));
    assert_eq!(empty.insert_before(0, 1), Err(String::from("Index out of bounds")));
    assert!(empty.is_empty());
}

#[test]
fn get_reads_every_index_from_either_half() {
    let l = built(&[10, 11, 12, 13, 14, 15, 16]);
    for i in 0..7 {
        assert_eq!(l.get(i), Some(&(10 + i as i32)));
    }
    assert_eq!(l.get(7), None);
    assert_eq!(l.get(usize::MAX), None);
    let single = built(&[4]);
    assert_eq!(single.get(0), Some(&4));
    assert_eq!(single.get(1), None);
}

#[test]
fn get_mut_changes_one_element() {
    let mut l = built(&[1, 2, 3, 4]);
    *l.get_mut(2).unwrap() = 30;
    *l.get_mut(0).unwrap() = 10;
    assert_eq!(contents(&l), vec![10, 2, 30, 4]);
    assert_eq!(l.get_mut(4), None);
    assert_eq!(l.len(), 4);
}

#[test]
fn back_mut_changes_the_last_element() {
    let mut l = built(&[1, 2, 3]);
    *l.back_mut().unwrap() = 9;
    *l.front_mut().unwrap() = 7;
    assert_eq!(contents(&l), vec![7, 2, 9]);
}

#[test]
fn push_front_reverses_the_call_order() {
    let mut l = DoublyLinkedList::new();
    l.push_front(1);
    l.push_front(2);
    l.push_front(3);
    assert_eq!(contents(&l), vec![3, 2, 1]);
}

#[test]
fn length_counts_pushes_less_successful_pops() {
    let mut l = DoublyLinkedList::new();
    let mut pushes = 0usize;
    let mut pops = 0usize;
    assert_eq!(l.pop_back(), None);
    assert_eq!(l.pop_front(), None);
    for i in 0..10 {
        if i % 2 == 0 {
            l.push_back(i);
        } else {
            l.push_front(i);
        }
        pushes += 1;
        assert_eq!(l.len(), pushes - pops);
    }
    for i in 0..14 {
        let popped = if i % 3 == 0 { l.pop_front() } else { l.pop_back() };
        if popped.is_some() {
            pops += 1;
        }
        assert_eq!(l.len(), pushes - pops);
    }
    assert_eq!(pushes, 10);
    assert_eq!(pops, 10);
    assert_eq!(l.len(), 0);
    l.push_back(1);
    assert_eq!(l.len(), 1);
}

#[test]
fn mixed_operations_keep_the_order() {
    let mut l = DoublyLinkedList::new();
    l.push_back(2);
    l.push_front(1);
    l.push_back(3);
    assert_eq!(l.pop_front(), Some(1));
    l.push_back(4);
    l.push_front(0);
    assert_eq!(contents(&l), vec![0, 2, 3, 4]);
    assert_eq!(l.remove(2), Ok(3));
    assert_eq!(l.insert_after(0, 1), Ok(()));
    assert_eq!(l.insert_before(3, 3), Ok(()));
    assert_eq!(contents(&l), vec![0, 1, 2, 3, 4]);
    assert_eq!(l.pop_back(), Some(4));
    assert_eq!(l.pop_front(), Some(0));
    assert_eq!(contents(&l), vec![1, 2, 3]);
    assert_eq!(l.front(), Some(&1));
    assert_eq!(l.back(), Some(&3));
}

#[test]
fn one_node_per_element() {
    let mut l = DoublyLinkedList::new();
    assert_eq!(l.node_count(), 0);
    for i in 0..6 {
        l.push_back(i);
        assert_eq!(l.node_count(), l.len());
    }
    assert_eq!(l.remove(2), Ok(2));
    assert_eq!(l.node_count(), 5);
    assert_eq!(l.pop_front(), Some(0));
    assert_eq!(l.pop_back(), Some(5));
    assert_eq!(l.node_count(), 3);
    assert_eq!(l.insert_after(0, 9), Ok(()));
    assert_eq!(l.node_count(), 4);
    assert_eq!(contents(&l), vec![1, 9, 3, 4]);
}

#[test]
fn clear_releases_every_node() {
    let mut l = built(&[1, 2, 3, 4, 5]);
    assert_eq!(l.clear(), 5);
    assert_eq!(l.len(), 0);
    assert_eq!(l.node_count(), 0);
    assert_eq!(l.front(), None);
    assert_eq!(l.back(), None);
    assert_eq!(l.clear(), 0);
    let mut empty: DoublyLinkedList<i32> = DoublyLinkedList::new();
    assert_eq!(empty.clear(), 0);
    assert_eq!(empty.node_count(), 0);
    l.push_back(6);
    assert_eq!(contents(&l), vec![6]);
}

#[test]
fn elements_need_not_be_copyable() {
    let mut l: DoublyLinkedList<String> = DoublyLinkedList::new();
    l.push_back(String::from("b"));
    l.push_front(String::from("a"));
    l.push_back(String::from("c"));
    l.get_mut(1).unwrap().push('!');
    assert_eq!(l.remove(1), Ok(String::from("b!")));
    assert_eq!(l.pop_front(), Some(String::from("a")));
    assert_eq!(l.pop_front(), Some(String::from("c")));
    assert_eq!(l.pop_front(), None);
}

#[test]
fn long_run_agrees_with_a_vector() {
    let mut l: DoublyLinkedList<i32> = DoublyLinkedList::new();
    let mut model: Vec<i32> = Vec::new();
    let mut seed: u64 = 12345;
    for step in 0..4000 {
        seed = seed.wrapping_mul(6364136223846793005).wrapping_add(1442695040888963407);
        let choice = (seed >> 33) % 9;
        let value = step as i32;
        let index = ((seed >> 13) % 12) as usize;
        match choice {
            0 => {
                l.push_front(value);
                model.insert(0, value);
            }
            1 => {
                l.push_back(value);
                model.push(value);
            }
            2 => {
                let expected = if model.is_empty() { None } else { Some(model.remove(0)) };
                assert_eq!(l.pop_front(), expected);
            }
            3 => {
                assert_eq!(l.pop_back(), model.pop());
            }
            4 => {
                if index < model.len() {
                    assert_eq!(l.insert_after(index, value), Ok(()));
                    model.insert(index + 1, value);
                } else {
                    assert_eq!(
                        l.insert_after(index, value),
                        Err(String::from("Index out of bounds"))
                    );
                }
            }
            5 => {
                if index < model.len() {
                    assert_eq!(l.insert_before(index, value), Ok(()));
                    model.insert(index, value);
                } else {
                    assert_eq!(
                        l.insert_before(index, value),
                        Err(String::from("Index out of bounds"))
                    );
                }
            }
            6 => {
                if index < model.len() {
                    assert_eq!(l.remove(index), Ok(model.remove(index)));
                } else {
                    assert_eq!(l.remove(index), Err(String::from("Index out of bounds")));
                }
            }
            7 => {
                assert_eq!(l.get(index), model.get(index));
            }
            _ => {
                if let Some(x) = l.get_mut(index) {
                    *x = -value;
                }
                if let Some(x) = model.get_mut(index) {
                    *x = -value;
                }
            }
        }
        assert_eq!(l.len(), model.len());
        assert_eq!(l.node_count(), model.len());
        assert_eq!(l.front(), model.first());
        assert_eq!(l.back(), model.last());
        assert_eq!(contents(&l), model);
    }
    let forward: Vec<i32> = l.into_iter().collect();
    assert_eq!(forward, model);
}
