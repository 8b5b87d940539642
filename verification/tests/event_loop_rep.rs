use scaproust::common::{Action, Failure, Message, Readiness, Reply};
use scaproust::context::Context;
use scaproust::protocol::rep::{decode, encode, Rep};

fn describe(action: &Action) -> String {
    match action {
        Action::Send(tok, msg) => format!("send {} h={:?} b={:?}", tok, msg.get_header(), msg.get_body()),
        Action::Recv(tok) => format!("recv {}", tok),
        Action::Close(tok) => format!("close {}", tok),
        Action::Open(tok) => format!("open {}", tok),
        Action::AckOpen(tok) => format!("ack_open {}", tok),
        Action::Resync(tok) => format!("resync {}", tok),
        Action::Ready(tok, events) => format!("ready {} w={}", tok, events.writable),
        Action::CancelSend(tok) => format!("cancel_send {}", tok),
        Action::CancelRecv(tok) => format!("cancel_recv {}", tok),
        Action::Reply(Reply::Send) => "reply send".to_string(),
        Action::Reply(Reply::Recv(msg)) => format!("reply recv h={:?} b={:?}", msg.get_header(), msg.get_body()),
        Action::Reply(Reply::Error(f)) => format!("reply error {:?}", f),
        Action::Cancel(t) => format!("cancel {}", t),
        Action::Schedule(t, task, ms) => format!("schedule {} {:?} {}", t, task, ms),
        Action::Raise(evt) => format!("raise {:?}", evt),
    }
}

fn taken(ctx: &mut Context) -> Vec<String> {
    ctx.take_actions().iter().map(describe).collect()
}

/// A socket with the registered pipe `tok`.
fn rep_with_pipe(ctx: &mut Context, tok: usize) -> Rep {
    let mut rep = Rep::new();
    assert_eq!(Ok(()), rep.add_pipe(tok));
    rep.register_pipe(ctx, tok);
    rep.on_pipe_register(ctx, tok);
    ctx.take_actions();
    rep
}

/// A request that went through one device before the requester's id.
fn request(payload: u8) -> Message {
    Message::from_body(vec![0, 0, 0, 5, 0x80, 0, 0, 7, payload])
}

#[test]
fn evt_rep_decode_moves_the_route_to_the_header() {
    let msg = decode(request(65), 1, 8).unwrap();
    assert_eq!(&vec![0, 0, 0, 5, 0x80, 0, 0, 7], msg.get_header());
    assert_eq!(&vec![65], msg.get_body());
}

#[test]
fn evt_rep_decode_refuses_a_route_too_long_or_cut() {
    assert!(decode(request(65), 1, 1).is_none());
    assert!(decode(Message::from_body(vec![0, 0, 0, 5, 0x80]), 1, 8).is_none());
}

#[test]
fn evt_rep_encode_appends_the_route() {
    let msg = encode(Message::from_header_and_body(vec![1], vec![66]), &[0x80, 0, 0, 7]);
    assert_eq!(&vec![1, 0x80, 0, 0, 7], msg.get_header());
    assert_eq!(&vec![66], msg.get_body());
}

#[test]
fn evt_rep_adding_a_pipe_twice_fails() {
    let mut rep = Rep::new();
    assert_eq!(Ok(()), rep.add_pipe(1));
    assert_eq!(Err(Failure::PipeAlreadyAdded), rep.add_pipe(1));
}

#[test]
fn evt_rep_registers_its_pipes() {
    let mut ctx = Context::new();
    let mut rep = Rep::new();
    rep.add_pipe(1).unwrap();
    rep.register_pipe(&mut ctx, 1);
    rep.register_pipe(&mut ctx, 2);
    rep.on_pipe_register(&mut ctx, 1);
    assert_eq!(vec!["open 1", "ack_open 1"], taken(&mut ctx));
}

#[test]
fn evt_rep_recv_waits_for_a_registered_pipe() {
    let mut ctx = Context::new();
    let mut rep = Rep::new();
    rep.add_pipe(1).unwrap();
    rep.register_pipe(&mut ctx, 1);
    ctx.take_actions();

    rep.recv(&mut ctx, Some(3));
    assert!(taken(&mut ctx).is_empty());

    rep.on_pipe_register(&mut ctx, 1);
    assert_eq!(vec!["ack_open 1", "recv 1"], taken(&mut ctx));
}

#[test]
fn evt_rep_request_and_reply() {
    let mut ctx = Context::new();
    let mut rep = rep_with_pipe(&mut ctx, 1);

    rep.recv(&mut ctx, Some(3));
    assert_eq!(vec!["recv 1"], taken(&mut ctx));

    rep.on_recv_by_pipe(&mut ctx, 1, request(65));
    assert_eq!(vec!["reply recv h=[0, 0, 0, 5, 128, 0, 0, 7] b=[65]", "cancel 3"], taken(&mut ctx));

    rep.send(&mut ctx, Message::from_body(vec![66]), Some(4));
    assert_eq!(vec!["send 1 h=[0, 0, 0, 5, 128, 0, 0, 7] b=[66]"], taken(&mut ctx));

    rep.on_send_by_pipe(&mut ctx, 1);
    assert_eq!(vec!["reply send", "cancel 4"], taken(&mut ctx));

    rep.send(&mut ctx, Message::from_body(vec![67]), None);
    assert_eq!(vec!["reply error SendWithoutPending"], taken(&mut ctx));
}

#[test]
fn evt_rep_reply_without_request_fails() {
    let mut ctx = Context::new();
    let mut rep = rep_with_pipe(&mut ctx, 1);
    rep.send(&mut ctx, Message::from_body(vec![66]), Some(2));
    assert_eq!(vec!["reply error SendWithoutPending", "cancel 2"], taken(&mut ctx));
}

#[test]
fn evt_rep_request_with_broken_route_is_left_aside() {
    let mut ctx = Context::new();
    let mut rep = rep_with_pipe(&mut ctx, 1);
    rep.recv(&mut ctx, None);
    ctx.take_actions();

    rep.on_recv_by_pipe(&mut ctx, 1, Message::from_body(vec![0, 0, 0, 5, 65]));
    assert!(taken(&mut ctx).is_empty());

    rep.on_recv_timeout(&mut ctx);
    assert_eq!(vec!["reply error RecvTimedOut", "cancel_recv 1"], taken(&mut ctx));
}

#[test]
fn evt_rep_send_timeout_gives_up_the_send() {
    let mut ctx = Context::new();
    let mut rep = rep_with_pipe(&mut ctx, 1);
    rep.recv(&mut ctx, None);
    rep.on_recv_by_pipe(&mut ctx, 1, request(65));
    rep.send(&mut ctx, Message::from_body(vec![66]), None);
    ctx.take_actions();

    rep.on_send_timeout(&mut ctx);
    assert_eq!(vec!["reply error SendTimedOut", "cancel_send 1"], taken(&mut ctx));
}

#[test]
fn evt_rep_reply_waits_for_its_pipe() {
    let mut ctx = Context::new();
    let mut rep = rep_with_pipe(&mut ctx, 1);
    rep.recv(&mut ctx, None);
    rep.on_recv_by_pipe(&mut ctx, 1, request(65));
    ctx.take_actions();

    assert!(rep.remove_pipe(1));
    rep.send(&mut ctx, Message::from_body(vec![66]), Some(5));
    assert!(taken(&mut ctx).is_empty());

    rep.add_pipe(1).unwrap();
    rep.register_pipe(&mut ctx, 1);
    rep.on_pipe_register(&mut ctx, 1);
    assert_eq!(vec!["open 1", "ack_open 1", "reply error SendWithoutPending", "cancel 5"], taken(&mut ctx));
}

#[test]
fn evt_rep_ready_goes_to_the_pipe() {
    let mut ctx = Context::new();
    let rep = rep_with_pipe(&mut ctx, 1);
    let events = Readiness { readable: true, writable: true, error: false, hup: false };
    rep.ready(&mut ctx, 1, events);
    rep.ready(&mut ctx, 2, events);
    assert_eq!(vec!["ready 1 w=true"], taken(&mut ctx));
}

#[test]
fn evt_rep_ids_and_peer() {
    let rep = Rep::new();
    assert_eq!(49, rep.id());
    assert_eq!(48, rep.peer_id());
}
