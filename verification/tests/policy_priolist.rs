use scaproust::protocol::policy::priolist::PrioList;

fn insert_and_show(list: &mut PrioList, tok: usize, priority: u8) {
    list.insert(tok, priority);
    list.show(tok);
}

#[test]
fn priolist_when_created_list_is_empty() {
    let list = PrioList::new();
    let current = list.get();

    assert!(current.is_none());
}

#[test]
fn when_item_is_added_it_does_not_set_current() {
    let mut list = PrioList::new();

    list.insert(1, 8);

    assert!(list.get().is_none());
}

#[test]
fn when_2nd_item_is_added_it_does_not_set_current() {
    let mut list = PrioList::new();

    list.insert(1, 8);
    list.insert(2, 8);

    assert!(list.get().is_none());
}

#[test]
fn priolist_find_activable_index_works() {
    let mut list = PrioList::new();
    let tok_1 = 1;
    let tok_2 = 2;
    let tok_3 = 3;

    list.insert(tok_1, 8);
    assert_eq!(None, list.find_activable_index(&tok_1));
    list.show(tok_1);
    assert_eq!(Some(0), list.find_activable_index(&tok_1));

    list.insert(tok_2, 8);
    assert_eq!(Some(0), list.find_activable_index(&tok_1));
    assert_eq!(None, list.find_activable_index(&tok_2));
    list.show(tok_2);
    assert_eq!(Some(0), list.find_activable_index(&tok_1));
    assert_eq!(Some(1), list.find_activable_index(&tok_2));

    list.insert(tok_3, 8);
    assert_eq!(Some(0), list.find_activable_index(&tok_1));
    assert_eq!(Some(1), list.find_activable_index(&tok_2));
    assert_eq!(None, list.find_activable_index(&tok_3));

    list.show(tok_3);
    assert_eq!(Some(0), list.find_activable_index(&tok_1));
    assert_eq!(Some(1), list.find_activable_index(&tok_2));
    assert_eq!(Some(2), list.find_activable_index(&tok_3));
}

#[test]
fn priolist_when_single_item_is_activated_it_becomes_current() {
    let mut list = PrioList::new();
    let token = 1;

    list.insert(token, 8);
    list.activate(token);
    assert_eq!(None, list.get());

    list.show(token);
    list.activate(token);
    assert_eq!(Some(token), list.get());
}

#[test]
fn priolist_when_item_zero_of_two_is_activated_it_becomes_current() {
    let mut list = PrioList::new();
    let tok_1 = 1;
    let tok_2 = 2;
    let tok_3 = 3;

    insert_and_show(&mut list, tok_1, 8);
    insert_and_show(&mut list, tok_2, 8);
    insert_and_show(&mut list, tok_3, 8);

    list.activate(tok_1);
    assert_eq!(Some(tok_1), list.get());
}

#[test]
fn priolist_when_item_one_of_two_is_activated_it_becomes_current() {
    let mut list = PrioList::new();
    let tok_1 = 1;
    let tok_2 = 2;
    let tok_3 = 3;

    insert_and_show(&mut list, tok_1, 8);
    insert_and_show(&mut list, tok_2, 8);
    list.activate(tok_1);
    assert_eq!(Some(tok_1), list.get());
    insert_and_show(&mut list, tok_3, 8);
    list.activate(tok_1);
}

#[test]
fn priolist_when_activating_another_item_with_same_priority_it_does_not_become_current() {
    let mut list = PrioList::new();

    insert_and_show(&mut list, 10, 8);
    insert_and_show(&mut list, 20, 8);
    list.activate(20);
    assert_eq!(Some(20), list.get());
    list.activate(10);
    assert_eq!(Some(20), list.get());
}

#[test]
fn priolist_when_activating_another_item_with_higher_priority_it_becomes_current() {
    let mut list = PrioList::new();

    insert_and_show(&mut list, 10, 8);
    insert_and_show(&mut list, 20, 2);

    list.activate(10);
    list.activate(20);
    assert_eq!(Some(20), list.get());
}

#[test]
fn when_activating_another_item_with_lower_priority_it_does_not_becomes_current() {
    let mut list = PrioList::new();

    insert_and_show(&mut list, 10, 8);
    insert_and_show(&mut list, 20, 2);

    list.activate(20);
    assert_eq!(Some(20), list.get());

    list.activate(10);
    assert_eq!(Some(20), list.get());
}

#[test]
fn priolist_advance_empty_list_does_nothing() {
    let mut list = PrioList::new();

    list.advance();
    assert!(list.get().is_none());
}

#[test]
fn priolist_advance_whith_single_item_does_nothing() {
    let mut list = PrioList::new();

    list.insert(10, 8);
    list.advance();
    assert!(list.get().is_none());
}

#[test]
fn advance_with_single_active_item_loops() {
    let mut list = PrioList::new();
    let token = 10;

    insert_and_show(&mut list, token, 8);
    list.activate(token);
    list.advance();
    assert_eq!(Some(token), list.get());
}

#[test]
fn find_active_index_after_works() {
    let mut list = PrioList::new();

    insert_and_show(&mut list, 10, 8);
    insert_and_show(&mut list, 20, 8);
    insert_and_show(&mut list, 30, 8);

    assert_eq!(None, list.find_active_index_after(0, 8));
    assert_eq!(None, list.find_active_index_after(1, 8));
    assert_eq!(None, list.find_active_index_after(2, 8));

    list.activate(10);
    assert_eq!(None, list.find_active_index_after(0, 8));
    assert_eq!(None, list.find_active_index_after(1, 8));
    assert_eq!(None, list.find_active_index_after(2, 8));

    list.activate(20);
    assert_eq!(Some(1), list.find_active_index_after(0, 8));
    assert_eq!(None, list.find_active_index_after(1, 8));
    assert_eq!(None, list.find_active_index_after(2, 8));

    list.activate(30);
    assert_eq!(Some(1), list.find_active_index_after(0, 8));
    assert_eq!(Some(2), list.find_active_index_after(1, 8));
    assert_eq!(None, list.find_active_index_after(2, 8));
}

#[test]
fn find_active_index_before_works() {
    let mut list = PrioList::new();

    insert_and_show(&mut list, 10, 8);
    insert_and_show(&mut list, 20, 8);
    insert_and_show(&mut list, 30, 8);

    assert_eq!(None, list.find_active_index_before(0, 8));
    assert_eq!(None, list.find_active_index_before(1, 8));
    assert_eq!(None, list.find_active_index_before(2, 8));

    list.activate(30);
    assert_eq!(None, list.find_active_index_before(0, 8));
    assert_eq!(None, list.find_active_index_before(1, 8));
    assert_eq!(None, list.find_active_index_before(2, 8));

    list.activate(20);
    assert_eq!(None, list.find_active_index_before(0, 8));
    assert_eq!(None, list.find_active_index_before(1, 8));
    assert_eq!(Some(1), list.find_active_index_before(2, 8));

    list.activate(10);
    assert_eq!(None, list.find_active_index_before(0, 8));
    assert_eq!(Some(0), list.find_active_index_before(1, 8));
    assert_eq!(Some(0), list.find_active_index_before(2, 8));
}

#[test]
fn priolist_advance_can_move_forward() {
    let mut list = PrioList::new();

    insert_and_show(&mut list, 10, 8);
    insert_and_show(&mut list, 20, 8);
    insert_and_show(&mut list, 30, 8);

    list.activate(10);
    list.activate(20);
    list.activate(30);
    list.advance();
    assert_eq!(Some(20), list.get());
}

#[test]
fn advance_can_skip_lower_priority() {
    let mut list = PrioList::new();

    insert_and_show(&mut list, 10, 1);
    insert_and_show(&mut list, 20, 9);
    insert_and_show(&mut list, 30, 1);

    list.activate(10);
    list.activate(20);
    list.activate(30);
    list.advance();
    assert_eq!(Some(30), list.get());
}

#[test]
fn skip_hides_the_current_and_selects_a_lower_priority_one() {
    let mut list = PrioList::new();

    insert_and_show(&mut list, 10, 1);
    insert_and_show(&mut list, 20, 3);

    list.activate(10);
    list.activate(20);
    assert_eq!(Some(10), list.get());
    list.skip();
    assert_eq!(Some(20), list.get());
    list.activate(10);
    assert_eq!(Some(20), list.get());
    list.show(10);
    list.activate(10);
    assert_eq!(Some(10), list.get());
}

#[test]
fn deactivate_current_selects_another_one() {
    let mut list = PrioList::new();

    insert_and_show(&mut list, 10, 8);
    insert_and_show(&mut list, 20, 8);
    list.activate(10);
    list.activate(20);
    list.deactivate(10);
    assert_eq!(Some(20), list.get());
    list.deactivate(20);
    assert_eq!(None, list.get());
}

#[test]
fn remove_current_selects_another_one() {
    let mut list = PrioList::new();

    insert_and_show(&mut list, 10, 8);
    insert_and_show(&mut list, 20, 8);
    insert_and_show(&mut list, 30, 8);
    list.activate(10);
    list.activate(30);
    list.remove(&10);
    assert_eq!(Some(30), list.get());
    list.remove(&20);
    assert_eq!(Some(30), list.get());
    list.advance();
    assert_eq!(Some(30), list.get());
}

#[test]
fn remove_the_only_active_current_drops_it() {
    let mut list = PrioList::new();

    insert_and_show(&mut list, 10, 8);
    list.activate(10);
    list.remove(&10);
    assert_eq!(None, list.get());
    assert_eq!(None, list.find_activable_index(&10));
    list.activate(10);
    assert_eq!(None, list.get());
}
