use scaproust::sync::{is_vacant, mailbox, put, take};

#[test]
fn when_mailbox_is_empty_send_accepts_the_value() {
    let (tx, _) = mailbox();

    tx.try_send(()).unwrap();
}

#[test]
fn when_mailbox_is_full_send_rejects_the_value() {
    let (tx, _) = mailbox();

    tx.try_send(()).unwrap();
    tx.try_send(()).unwrap_err();
}

#[test]
fn when_mailbox_is_empty_recv_fails() {
    let (_, rx) = mailbox::<String>();

    rx.try_recv().unwrap_err();
}

#[test]
fn when_mailbox_is_full_recv_returns_the_value() {
    let (tx, rx) = mailbox();

    tx.try_send(()).unwrap();
    rx.try_recv().unwrap();
}

#[test]
fn rejected_value_is_given_back() {
    let (tx, _) = mailbox();

    tx.try_send(1u32).unwrap();
    assert_eq!(Err(2u32), tx.try_send(2u32));
}

#[test]
fn recv_returns_the_value_that_was_sent_and_empties_the_mailbox() {
    let (tx, rx) = mailbox();

    tx.try_send(String::from("hello")).unwrap();
    assert_eq!(Ok(String::from("hello")), rx.recv());
    assert!(rx.try_recv().is_err());
    tx.try_send(String::from("again")).unwrap();
    assert_eq!(Ok(String::from("again")), rx.try_recv());
}

#[test]
fn put_fills_only_an_empty_slot() {
    let mut slot: Option<u8> = None;

    assert!(is_vacant(&slot));
    assert_eq!(Ok(()), put(&mut slot, 7));
    assert_eq!(Some(7), slot);
    assert!(!is_vacant(&slot));
    assert_eq!(Err(9), put(&mut slot, 9));
    assert_eq!(Some(7), slot);
}

#[test]
fn take_empties_the_slot() {
    let mut slot: Option<u8> = Some(3);

    assert_eq!(Ok(3), take(&mut slot));
    assert_eq!(None, slot);
    assert_eq!(Err(()), take(&mut slot));
}
