use linked_list::LinkedList;

#[test]
fn create_numeric_list() {
    let mut list = LinkedList::<i32>::new();
    list.add(1);
    list.add(2);
    list.add(3);
    println!("Linked List is {}", list.render());
    assert_eq!(3, list.length());
}

#[test]
fn create_string_list() {
    let mut list_str = LinkedList::<String>::new();
    list_str.add("A".to_string());
    list_str.add("B".to_string());
    list_str.add("C".to_string());
    println!("Linked List is {}", list_str.render());
    assert_eq!(3, list_str.length());
}
