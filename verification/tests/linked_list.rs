use rust_algo::collections::LinkedList;
use rust_algo::collections::Node;

fn create_linkedlist() -> LinkedList<i32> {
    let mut list: LinkedList<i32> = LinkedList::new();
    list.push_front(1);
    list.push_front(2);
    list.push_front(3);
    list.push_front(4);

    list
}

#[test]
fn push_and_pop_back_list() {
    let mut list: LinkedList<i32> = LinkedList::new();
    assert_eq!(list.is_empty(), true);

    list.push_back(1);
    list.push_back(2);
    list.push_back(3);
    list.push_back(4);

    assert_eq!(list.is_empty(), false);
    assert_eq!(list.length, 4);

    assert_eq!(list.pop_back(), Some(4));
    assert_eq!(list.pop_back(), Some(3));
    assert_eq!(list.pop_back(), Some(2));
    assert_eq!(list.pop_back(), Some(1));
    assert_eq!(list.pop_back(), None);
}

#[test]
fn push_and_pop_front_list() {
    let mut list: LinkedList<i32> = LinkedList::new();
    assert_eq!(list.is_empty(), true);

    list.push_front(1);
    list.push_front(2);
    list.push_front(3);
    list.push_front(4);

    assert_eq!(list.is_empty(), false);
    assert_eq!(list.length, 4);

    assert_eq!(list.pop_front(), Some(4));
    assert_eq!(list.pop_front(), Some(3));
    assert_eq!(list.pop_front(), Some(2));
    assert_eq!(list.pop_front(), Some(1));
    assert_eq!(list.pop_front(), None);
}

#[test]
fn clear_and_drop_list() {
    let mut list: LinkedList<i32> = LinkedList::new();

    list.push_front(1);
    list.push_front(2);
    list.clear();
    assert_eq!(list.length, 0);
    assert_eq!(list.pop_front(), None);
}

#[test]
fn index_of_element_list() {
    let mut list = create_linkedlist();
    list.add(5);
    list.add(6);
    list.add(8);

    assert_eq!(list.index_of(6), 5);
    assert_eq!(list.index_of(8), 6);
    assert_eq!(list.index_of(88), -1);
    assert_eq!(list.index_of(5), 4);

    list.clear();
    assert_eq!(list.index_of(6), -1);
}

#[test]
fn node_probe_equality() {
    let node: Node<u32> = Node::new(25);
    assert_eq!(node.value, 25);
    assert_eq!(node.next, None);
    assert_eq!(node.prev, None);

    // links take no part in the comparison: an unlinked probe node equals a
    // linked node holding the same value
    let mut linked: Node<u32> = Node::new(25);
    linked.next = Some(3);
    linked.prev = Some(1);
    let probe: Node<u32> = Node::new(25);
    assert!(probe == linked);
    let other: Node<u32> = Node::new(26);
    assert!(probe != other);
}

#[test]
fn mixed_push_length() {
    let mut list: LinkedList<i32> = LinkedList::new();
    list.push_front(1);
    list.push_back(2);
    list.push_front(3);
    list.push_back(4);
    list.push_front(5);
    assert_eq!(list.length, 5);
    assert_eq!(list.len(), 5);
    assert_eq!(list.size(), 5);
}

#[test]
fn push_back_pop_back_single() {
    let mut list: LinkedList<i32> = LinkedList::new();
    list.push_back(9);
    assert_eq!(list.pop_back(), Some(9));
    assert_eq!(list.is_empty(), true);
    assert_eq!(list.length, 0);
    assert_eq!(list.pop_back(), None);
}

#[test]
fn round_trip_orders() {
    let mut list: LinkedList<i32> = LinkedList::new();
    list.push_back(1);
    list.push_back(2);
    list.push_back(3);
    list.push_back(4);
    assert_eq!(list.pop_back(), Some(4));
    assert_eq!(list.pop_back(), Some(3));
    assert_eq!(list.pop_back(), Some(2));
    assert_eq!(list.pop_back(), Some(1));
    assert_eq!(list.pop_back(), None);

    let mut list2: LinkedList<i32> = LinkedList::new();
    list2.push_back(1);
    list2.push_back(2);
    list2.push_back(3);
    list2.push_back(4);
    assert_eq!(list2.pop_front(), Some(1));
    assert_eq!(list2.pop_front(), Some(2));
    assert_eq!(list2.pop_front(), Some(3));
    assert_eq!(list2.pop_front(), Some(4));
    assert_eq!(list2.pop_front(), None);
}

#[test]
fn is_empty_iff_len_zero() {
    let mut list: LinkedList<i32> = LinkedList::new();
    assert_eq!(list.is_empty(), list.len() == 0);
    list.push_back(1);
    assert_eq!(list.is_empty(), list.len() == 0);
    list.push_front(2);
    assert_eq!(list.is_empty(), list.len() == 0);
    list.pop_back();
    assert_eq!(list.is_empty(), list.len() == 0);
    list.pop_front();
    assert_eq!(list.is_empty(), list.len() == 0);
    assert!(list.is_empty());
}

#[test]
fn index_of_empty_list() {
    let list: LinkedList<i32> = LinkedList::new();
    assert_eq!(list.index_of(7), -1);
    assert_eq!(list.index_of(0), -1);
    assert_eq!(list.index_of(-3), -1);
}

#[test]
fn index_of_first_match() {
    let mut list: LinkedList<i32> = LinkedList::new();
    list.push_back(5);
    list.push_back(3);
    list.push_back(5);
    assert_eq!(list.index_of(5), 0);
    assert_eq!(list.index_of(3), 1);
    list.clear();
    assert_eq!(list.index_of(5), -1);
    assert_eq!(list.index_of(3), -1);
}

#[test]
fn clear_twice_is_clear_once() {
    let mut list: LinkedList<i32> = LinkedList::new();
    list.push_back(1);
    list.push_back(2);
    list.clear();
    list.clear();
    assert_eq!(list.length, 0);
    assert_eq!(list.pop_front(), None);
    assert_eq!(list.pop_back(), None);
}

#[test]
fn scenario_push_front_order() {
    let mut list = create_linkedlist();
    assert_eq!(list.length, 4);
    assert_eq!(list.index_of(4), 0);
    assert_eq!(list.index_of(3), 1);
    assert_eq!(list.index_of(2), 2);
    assert_eq!(list.index_of(1), 3);
    assert_eq!(list.pop_front(), Some(4));
    assert_eq!(list.pop_front(), Some(3));
    assert_eq!(list.pop_front(), Some(2));
    assert_eq!(list.pop_front(), Some(1));
    assert_eq!(list.pop_front(), None);
}

#[test]
fn scenario_index_of_basic() {
    let mut list: LinkedList<i32> = LinkedList::new();
    list.push_back(1);
    list.push_back(2);
    list.push_back(3);
    assert_eq!(list.index_of(2), 1);
    assert_eq!(list.index_of(99), -1);
}

#[test]
fn scenario_clear_probe() {
    let mut list: LinkedList<i32> = LinkedList::new();
    list.push_front(1);
    list.push_front(2);
    list.clear();
    assert_eq!(list.length, 0);
    assert_eq!(list.pop_front(), None);
    assert_eq!(list.index_of(1), -1);
}

#[test]
fn interleaved_ends() {
    let mut list: LinkedList<i32> = LinkedList::new();
    list.push_back(2);
    list.push_front(1);
    list.push_back(3);
    assert_eq!(list.pop_front(), Some(1));
    assert_eq!(list.pop_front(), Some(2));
    assert_eq!(list.pop_front(), Some(3));
    assert_eq!(list.pop_front(), None);
}

#[test]
fn add_appends_at_back() {
    let mut list: LinkedList<i32> = LinkedList::new();
    list.add(1);
    list.add(2);
    assert_eq!(list.length, 2);
    assert_eq!(list.pop_back(), Some(2));
    assert_eq!(list.pop_front(), Some(1));
}
