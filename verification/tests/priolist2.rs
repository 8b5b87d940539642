use scaproust::protocol::priolist2::PrioList;

#[test]
fn priolist2_when_created_list_is_empty() {
    let list = PrioList::new();
    let current = list.get();

    assert!(current.is_none());
}

#[test]
fn when_item_is_added_it_is_not_active() {
    let mut list = PrioList::new();
    let token = 1;

    list.insert(token, 8);

    assert!(list.get().is_none());
}

#[test]
fn when_2nd_item_is_added_it_is_not_active() {
    let mut list = PrioList::new();

    list.insert(1, 8);
    list.insert(2, 8);

    assert!(list.get().is_none());
}

#[test]
fn priolist2_find_activable_index_works() {
    let mut list = PrioList::new();

    list.insert(1, 8);
    assert_eq!(Some(0), list.find_activable_index(1));
    list.insert(2, 8);
    assert_eq!(Some(0), list.find_activable_index(1));
    assert_eq!(Some(1), list.find_activable_index(2));
    assert_eq!(None, list.find_activable_index(3));
}

#[test]
fn priolist2_when_single_item_is_activated_it_becomes_current() {
    let mut list = PrioList::new();
    let token = 1;

    list.insert(token, 8);
    list.activate(token);
    assert_eq!(Some(token), list.get());
}

#[test]
fn priolist2_when_item_zero_of_two_is_activated_it_becomes_current() {
    let mut list = PrioList::new();
    let token = 1;

    list.insert(token, 8);
    list.insert(2, 8);
    list.insert(3, 8);

    list.activate(token);
    assert_eq!(Some(token), list.get());
}

#[test]
fn priolist2_when_item_one_of_two_is_activated_it_becomes_current() {
    let mut list = PrioList::new();
    let token = 2;

    list.insert(1, 8);
    list.insert(token, 8);
    list.activate(token);
    assert_eq!(Some(token), list.get());
    list.insert(3, 8);
    list.activate(token);
}

#[test]
fn priolist2_when_activating_another_item_with_same_priority_it_does_not_become_current() {
    let mut list = PrioList::new();

    list.insert(10, 8);
    list.insert(20, 8);
    list.activate(20);
    assert_eq!(Some(20), list.get());
    list.activate(10);
    assert_eq!(Some(20), list.get());
}

#[test]
fn priolist2_when_activating_another_item_with_higher_priority_it_becomes_current() {
    let mut list = PrioList::new();

    list.insert(10, 8);
    list.insert(20, 2);

    list.activate(10);
    list.activate(20);
    assert_eq!(Some(20), list.get());
}

#[test]
fn priolist2_advance_empty_list_does_nothing() {
    let mut list = PrioList::new();

    list.advance();
    assert!(list.get().is_none());
}

#[test]
fn priolist2_advance_whith_single_item_does_nothing() {
    let mut list = PrioList::new();

    list.insert(10, 8);
    list.advance();
    assert!(list.get().is_none());
}

#[test]
fn advance_whith_single_active_item_loops() {
    let mut list = PrioList::new();

    list.insert(10, 8);
    list.activate(10);
    list.advance();
    assert_eq!(Some(10), list.get());
}

#[test]
fn priolist2_advance_can_move_forward() {
    let mut list = PrioList::new();

    list.insert(10, 8);
    list.insert(20, 8);

    list.activate(10);
    list.activate(20);
    list.activate(30);
    list.advance();
    assert_eq!(Some(20), list.get());
}

#[test]
fn advance_stays_on_the_last_active_item() {
    let mut list = PrioList::new();

    list.insert(10, 8);
    list.insert(20, 8);
    list.activate(10);
    list.activate(20);
    list.advance();
    list.advance();
    assert_eq!(Some(20), list.get());
    list.remove(20);
    assert_eq!(Some(20), list.get());
}
