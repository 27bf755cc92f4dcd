use stackvm::list::LinkedList;

#[test]
fn it_works() {
    let mut list = LinkedList::<i32>::new();
    list.push(2);
    list.push(5);

    assert_eq!(list.pop(), Some(5));
    assert_eq!(list.pop(), Some(2));
    assert_eq!(list.pop(), None);
}

#[test]
fn pop_on_empty_stays_empty() {
    let mut list = LinkedList::<i32>::new();
    assert_eq!(list.pop(), None);
    assert_eq!(list.pop(), None);
}

#[test]
fn push_and_pop_are_last_in_first_out() {
    let mut list = LinkedList::<String>::new();
    list.push(String::from("first"));
    list.push(String::from("second"));
    list.push(String::from("third"));
    assert_eq!(list.pop(), Some(String::from("third")));
    list.push(String::from("fourth"));
    assert_eq!(list.pop(), Some(String::from("fourth")));
    assert_eq!(list.pop(), Some(String::from("second")));
    assert_eq!(list.pop(), Some(String::from("first")));
    assert_eq!(list.pop(), None);
}
