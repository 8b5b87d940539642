use scaproust::protocol::priolist::PrioList;

#[test]
fn sorted_priolist_when_created_list_is_empty() {
    let list = PrioList::new();
    let current = list.get();

    assert!(current.is_none());
}

#[test]
fn when_first_item_is_added_it_is_inactive() {
    let mut list = PrioList::new();
    let item = 1;

    list.insert(item, 8);

    assert_eq!(None, list.get())
}

#[test]
fn when_first_item_is_activated_it_becomes_current() {
    let mut list = PrioList::new();
    let item = 1;

    list.insert(item, 8);
    list.activate(item);

    assert_eq!(Some(item), list.get())
}

#[test]
fn when_second_item_is_activated_it_does_not_become_current() {
    let mut list = PrioList::new();
    let item1 = 3;
    let item2 = 1;

    list.insert(item1, 8);
    list.activate(item1);

    list.insert(item2, 8);
    list.activate(item2);

    assert_eq!(Some(item1), list.get())
}

#[test]
fn when_one_active_token_advance_does_nothing() {
    let mut list = PrioList::new();
    let item = 1;

    list.insert(item, 8);
    list.activate(item);
    list.advance();

    assert_eq!(Some(item), list.get())
}

#[test]
fn when_several_tokens_advance_from_head_moves_next() {
    let mut list = PrioList::new();
    let item1 = 1;
    let item2 = 2;
    let item3 = 3;

    list.insert(item1, 8);
    list.activate(item1);
    assert_eq!(Some(item1), list.get());

    list.insert(item2, 8);
    list.activate(item2);
    assert_eq!(Some(item1), list.get());

    list.insert(item3, 8);
    list.activate(item3);
    assert_eq!(Some(item1), list.get());

    list.advance();
    assert_eq!(Some(item2), list.get());

    list.advance();
    assert_eq!(Some(item3), list.get());

    list.advance();
    assert_eq!(Some(item1), list.get());
}

#[test]
fn remove_from_empty_list_does_nothing() {
    let mut list = PrioList::new();
    let item1 = 1;

    list.remove(&item1);

    assert_eq!(None, list.get())
}

#[test]
fn remove_inactive_item_does_nothing() {
    let mut list = PrioList::new();
    let item1 = 1;

    list.insert(item1, 8);
    list.remove(&item1);

    assert_eq!(None, list.get())
}

#[test]
fn remove_last_active_item_clear_current() {
    let mut list = PrioList::new();
    let item1 = 1;
    let item2 = 2;

    list.insert(item1, 8);
    list.insert(item2, 8);
    list.activate(item1);
    list.remove(&item1);

    assert_eq!(None, list.get())
}

#[test]
fn remove_active_item_another_become_current() {
    let mut list = PrioList::new();
    let item1 = 1;
    let item2 = 2;

    list.insert(item1, 8);
    list.insert(item2, 8);
    list.activate(item1);
    list.activate(item2);
    list.remove(&item2);

    assert_eq!(Some(item1), list.get())
}

#[test]
fn remove_inactive_item_do_not_change_current() {
    let mut list = PrioList::new();
    let item1 = 1;
    let item2 = 2;

    list.insert(item1, 8);
    list.insert(item2, 8);
    list.activate(item1);
    list.activate(item2);
    list.remove(&item1);

    assert_eq!(Some(item2), list.get())
}

#[test]
fn activate_not_inserted_item_does_nothing() {
    let mut list = PrioList::new();
    let item1 = 1;

    list.activate(item1);

    assert_eq!(None, list.get())
}

#[test]
fn removing_the_current_token_selects_the_smallest_active_one() {
    let mut list = PrioList::new();

    list.insert(9, 8);
    list.insert(4, 8);
    list.insert(7, 8);
    list.activate(9);
    list.activate(7);
    list.activate(4);
    assert_eq!(Some(9), list.get());
    list.remove(&9);
    assert_eq!(Some(4), list.get());
    list.advance();
    assert_eq!(Some(7), list.get());
    list.advance();
    assert_eq!(Some(4), list.get());
}
