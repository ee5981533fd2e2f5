use linked_list::LinkedList;

#[test]
fn new_list_is_empty() {
    let list = LinkedList::<i32>::new();
    assert_eq!(0, list.length());
    assert!(list.get(0).is_none());
    assert!(list.get(-1).is_none());
    assert!(list.get(7).is_none());
}

#[test]
fn add_keeps_insertion_order() {
    let mut list = LinkedList::<i32>::new();
    let vals = vec![10, 20, 30, 40, 50];
    for &v in &vals {
        list.add(v);
    }
    assert_eq!(5, list.length());
    for (i, &v) in vals.iter().enumerate() {
        assert_eq!(v, *list.get(i as i32).unwrap());
    }
}

#[test]
fn get_out_of_range_is_none() {
    let mut list = LinkedList::<i32>::new();
    list.add(1);
    list.add(2);
    list.add(3);
    assert!(list.get(-1).is_none());
    assert!(list.get(3).is_none());
    assert!(list.get(100).is_none());
    assert!(list.get(i32::MIN).is_none());
    assert!(list.get(i32::MAX).is_none());
}

#[test]
fn merge_sorted_lists() {
    let mut list_a = LinkedList::<i32>::new();
    for v in [1, 3, 5] {
        list_a.add(v);
    }
    let mut list_b = LinkedList::<i32>::new();
    for v in [2, 2, 6] {
        list_b.add(v);
    }
    let merged = LinkedList::merge(list_a, list_b);
    assert_eq!(6, merged.length());
    for (i, v) in [1, 2, 2, 3, 5, 6].into_iter().enumerate() {
        assert_eq!(v, *merged.get(i as i32).unwrap());
    }
}

#[test]
fn merge_with_empty_list() {
    let mut list_a = LinkedList::<i32>::new();
    for v in [4, 8, 15] {
        list_a.add(v);
    }
    let list_b = LinkedList::<i32>::new();
    let merged = LinkedList::merge(list_a, list_b);
    assert_eq!(3, merged.length());
    for (i, v) in [4, 8, 15].into_iter().enumerate() {
        assert_eq!(v, *merged.get(i as i32).unwrap());
    }

    let list_c = LinkedList::<i32>::new();
    let mut list_d = LinkedList::<i32>::new();
    for v in [16, 23, 42] {
        list_d.add(v);
    }
    let merged2 = LinkedList::merge(list_c, list_d);
    assert_eq!(3, merged2.length());
    for (i, v) in [16, 23, 42].into_iter().enumerate() {
        assert_eq!(v, *merged2.get(i as i32).unwrap());
    }
}

#[test]
fn reverse_inverts_order() {
    let mut list = LinkedList::<i32>::new();
    let vals = vec![2, 3, 5, 11, 9, 7];
    for &v in &vals {
        list.add(v);
    }
    list.reverse();
    for (i, &v) in vals.iter().rev().enumerate() {
        assert_eq!(v, *list.get(i as i32).unwrap());
    }
}

#[test]
fn reverse_twice_restores_order() {
    let mut list = LinkedList::<i32>::new();
    let vals = vec![2, 3, 5, 11, 9, 7];
    for &v in &vals {
        list.add(v);
    }
    list.reverse();
    list.reverse();
    assert_eq!(6, list.length());
    for (i, &v) in vals.iter().enumerate() {
        assert_eq!(v, *list.get(i as i32).unwrap());
    }
}

#[test]
fn reverse_empty_and_single() {
    let mut empty = LinkedList::<i32>::new();
    empty.reverse();
    assert_eq!(0, empty.length());
    assert!(empty.get(0).is_none());

    let mut single = LinkedList::<i32>::new();
    single.add(99);
    single.reverse();
    assert_eq!(1, single.length());
    assert_eq!(99, *single.get(0).unwrap());
    assert!(single.get(1).is_none());
}

#[test]
fn render_numeric_values() {
    let mut list = LinkedList::<i32>::new();
    assert_eq!("", list.render());
    list.add(1);
    assert_eq!("1", list.render());
    list.add(2);
    list.add(3);
    assert_eq!("1, 2, 3", list.render());
}

#[test]
fn render_negative_and_extreme_values() {
    let mut list = LinkedList::<i32>::new();
    list.add(-5);
    list.add(0);
    list.add(1234567890);
    list.add(i32::MIN);
    list.add(i32::MAX);
    assert_eq!("-5, 0, 1234567890, -2147483648, 2147483647", list.render());
}

#[test]
fn render_string_values() {
    let mut list = LinkedList::<String>::new();
    assert_eq!("", list.render());
    list.add("alpha".to_string());
    list.add("beta".to_string());
    assert_eq!("alpha, beta", list.render());
}

#[test]
fn render_does_not_mutate() {
    let mut list = LinkedList::<i32>::new();
    for v in [6, 1, 6] {
        list.add(v);
    }
    let before = list.render();
    let again = list.render();
    assert_eq!(before, again);
    assert_eq!(3, list.length());
    assert_eq!(6, *list.get(0).unwrap());
    assert_eq!(1, *list.get(1).unwrap());
    assert_eq!(6, *list.get(2).unwrap());
}

#[test]
fn default_list_is_empty() {
    let list = LinkedList::<i32>::default();
    assert_eq!(0, list.length());
    assert!(list.get(0).is_none());
}

#[test]
fn merge_of_unsorted_inputs_follows_the_walk() {
    let mut list_a = LinkedList::<i32>::new();
    for v in [3, 1] {
        list_a.add(v);
    }
    let mut list_b = LinkedList::<i32>::new();
    list_b.add(2);
    let merged = LinkedList::merge(list_a, list_b);
    assert_eq!(3, merged.length());
    for (i, v) in [2, 3, 1].into_iter().enumerate() {
        assert_eq!(v, *merged.get(i as i32).unwrap());
    }
}
