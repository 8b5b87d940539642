use scaproust::proto::priolist::Priolist;

#[test]
fn insert_does_not_activate() {
    let mut priolist = Priolist::new();
    let eid = 0;

    priolist.insert(eid, 8);
    assert!(priolist.next().is_none());
}

#[test]
fn can_insert_and_remove() {
    let mut priolist = Priolist::new();
    let eid = 0;

    priolist.insert(eid, 8);
    assert!(priolist.is_empty() == false);

    priolist.remove(&eid);
    assert!(priolist.is_empty() == true);
}

#[test]
fn activate_makes_next_available() {
    let mut priolist = Priolist::new();
    let eid = 0;

    priolist.insert(eid, 8);
    priolist.activate(&eid);
    assert_eq!(Some(&eid), priolist.next());
}

#[test]
fn activate_does_not_change_existing_next() {
    let mut priolist = Priolist::new();
    let first = 0;
    let second = 1;

    priolist.insert(first, 8);
    priolist.insert(second, 8);
    priolist.activate(&first);
    priolist.activate(&second);
    assert_eq!(Some(&first), priolist.next());
}

#[test]
fn next_can_move_forward() {
    let mut priolist = Priolist::new();
    let first = 0;
    let second = 1;

    priolist.insert(first, 8);
    priolist.insert(second, 8);
    priolist.activate(&first);
    priolist.activate(&second);
    assert_eq!(Some(&first), priolist.next());
    assert_eq!(Some(&second), priolist.next());
}

#[test]
fn next_can_wrap() {
    let mut priolist = Priolist::new();
    let one = 0;
    let two = 1;
    let three = 2;
    let four = 3;

    priolist.insert(one, 8);
    priolist.insert(two, 8);
    priolist.insert(three, 8);
    priolist.insert(four, 8);

    priolist.activate(&three);
    priolist.activate(&four);
    priolist.activate(&one);
    priolist.activate(&two);
    assert_eq!(Some(&three), priolist.next());
    assert_eq!(Some(&four), priolist.next());
    assert_eq!(Some(&one), priolist.next());
    assert_eq!(Some(&two), priolist.next());
}

#[test]
fn next_deactivates() {
    let mut priolist = Priolist::new();
    let eid = 0;

    priolist.insert(eid, 8);
    priolist.activate(&eid);
    assert_eq!(Some(&eid), priolist.next());
    assert_eq!(None, priolist.next());
}

#[test]
fn next_can_skip_lower_priorities() {
    let mut priolist = Priolist::new();
    let one = 0;
    let two = 1;
    let three = 2;
    let four = 3;

    priolist.insert(one, 0);
    priolist.insert(two, 8);
    priolist.insert(three, 0);
    priolist.insert(four, 8);

    priolist.activate(&three);
    priolist.activate(&four);
    priolist.activate(&one);
    priolist.activate(&two);

    assert_eq!(Some(&three), priolist.next());
    assert_eq!(Some(&one), priolist.next());
}

#[test]
fn remove_current_can_make_next_unavailable() {
    let mut priolist = Priolist::new();
    let one = 0;
    let two = 1;
    let three = 2;
    let four = 3;

    priolist.insert(one, 0);
    priolist.insert(two, 8);
    priolist.insert(three, 0);
    priolist.insert(four, 8);

    priolist.activate(&three);
    priolist.remove(&three);
    assert_eq!(None, priolist.next());
}

#[test]
fn remove_current_can_move_forward() {
    let mut priolist = Priolist::new();
    let one = 0;
    let two = 1;
    let three = 2;
    let four = 3;

    priolist.insert(one, 8);
    priolist.insert(two, 8);
    priolist.insert(three, 8);
    priolist.insert(four, 8);

    priolist.activate(&three);
    priolist.activate(&four);
    priolist.remove(&three);
    assert_eq!(Some(&four), priolist.next());
}

#[test]
fn remove_current_can_wrap() {
    let mut priolist = Priolist::new();
    let one = 0;
    let two = 1;
    let three = 2;
    let four = 3;

    priolist.insert(one, 8);
    priolist.insert(two, 8);
    priolist.insert(three, 8);
    priolist.insert(four, 8);

    priolist.activate(&three);
    priolist.activate(&two);
    priolist.remove(&three);
    assert_eq!(Some(&two), priolist.next());
}

#[test]
fn remove_can_skip_lower_priorities() {
    let mut priolist = Priolist::new();
    let one = 0;
    let two = 1;
    let three = 2;
    let four = 3;

    priolist.insert(one, 0);
    priolist.insert(two, 8);
    priolist.insert(three, 0);
    priolist.insert(four, 8);

    priolist.activate(&three);
    priolist.activate(&one);
    priolist.activate(&two);
    priolist.activate(&four);
    priolist.remove(&three);
    assert_eq!(Some(&one), priolist.next());

    priolist.activate(&three);
    priolist.activate(&four);
    priolist.activate(&one);
    priolist.activate(&two);
}

#[test]
fn activate_higher_priority_changes_next() {
    let mut priolist = Priolist::new();
    let one = 0;
    let two = 1;
    let three = 2;
    let four = 3;

    priolist.insert(one, 8);
    priolist.insert(two, 4);
    priolist.insert(three, 0);
    priolist.insert(four, 8);

    priolist.activate(&one);
    priolist.activate(&four);
    assert_eq!(Some(&one), priolist.next());

    priolist.activate(&two);
    assert_eq!(Some(&two), priolist.next());

    priolist.activate(&three);
    assert_eq!(Some(&three), priolist.next());
}

#[test]
fn for_on_empty_range() {
    for _ in 1..1 {
        assert!(false, "Iteration should not have occured");
    }
}

#[test]
fn removing_the_last_current_item_then_reselecting_keeps_the_list_usable() {
    let mut priolist = Priolist::new();

    priolist.insert(0, 8);
    priolist.insert(1, 8);
    priolist.insert(2, 8);
    priolist.activate(&2);
    priolist.activate(&0);
    priolist.remove(&1);
    assert_eq!(2, priolist.len());
    assert_eq!(Some(&2), priolist.next());
    assert_eq!(Some(&0), priolist.next());
    assert_eq!(None, priolist.next());
}

#[test]
fn pop_peek_and_deactivate() {
    let mut priolist = Priolist::new();

    assert!(!priolist.peek());
    priolist.insert(5, 8);
    priolist.insert(6, 8);
    priolist.activate(&5);
    priolist.activate(&6);
    assert!(priolist.peek());
    priolist.deactivate(&5);
    assert_eq!(Some(6), priolist.pop());
    assert!(!priolist.peek());
    assert_eq!(None, priolist.pop());
}

#[test]
fn insert_keeps_the_current_item() {
    let mut priolist = Priolist::new();

    priolist.insert(1, 8);
    priolist.activate(&1);
    priolist.insert(2, 1);
    assert_eq!(2, priolist.len());
    assert_eq!(Some(1), priolist.pop());
}
