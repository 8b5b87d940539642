use scaproust::common::{Action, ErrorKind, Failure, Message, Readiness, Reply};
use scaproust::context::Context;
use scaproust::protocol::req::Req;

fn describe(action: &Action) -> String {
    match action {
        Action::Send(tok, msg) => format!("send {} h={:?} b={:?}", tok, msg.get_header(), msg.get_body()),
        Action::Recv(tok) => format!("recv {}", tok),
        Action::Close(tok) => format!("close {}", tok),
        Action::Open(tok) => format!("open {}", tok),
        Action::AckOpen(tok) => format!("ack_open {}", tok),
        Action::Resync(tok) => format!("resync {}", tok),
        Action::Ready(tok, events) => format!("ready {} w={}", tok, events.writable),
        Action::CancelSend(tok) => format!("cancel_send {}", tok),
        Action::CancelRecv(tok) => format!("cancel_recv {}", tok),
        Action::Reply(Reply::Send) => "reply send".to_string(),
        Action::Reply(Reply::Recv(msg)) => format!("reply recv h={:?} b={:?}", msg.get_header(), msg.get_body()),
        Action::Reply(Reply::Error(f)) => format!("reply error {:?}", f),
        Action::Cancel(t) => format!("cancel {}", t),
        Action::Schedule(t, task, ms) => format!("schedule {} {:?} {}", t, task, ms),
        Action::Raise(evt) => format!("raise {:?}", evt),
    }
}

fn taken(ctx: &mut Context) -> Vec<String> {
    ctx.take_actions().iter().map(describe).collect()
}

fn writable() -> Readiness {
    Readiness { readable: false, writable: true, error: false, hup: false }
}

fn readable() -> Readiness {
    Readiness { readable: true, writable: false, error: false, hup: false }
}

/// A socket with an open pipe `tok` that can take a message.
fn req_with_ready_pipe(ctx: &mut Context, tok: usize) -> Req {
    let mut req = Req::with_req_id_seq(0x1000);
    assert_eq!(Ok(()), req.add_pipe(tok, 8));
    req.on_pipe_opened(ctx, tok);
    req.ready(ctx, tok, writable());
    ctx.take_actions();
    req
}

/// The id that the first request of `req_with_ready_pipe` goes out with.
const FIRST_ID: [u8; 4] = [0x80, 0x00, 0x10, 0x01];

#[test]
fn evt_req_new_seeds_ids_from_the_clock() {
    let req = Req::new();
    assert!(req.req_id_seq() < 1_000_000_000);
}

#[test]
fn evt_req_adding_a_pipe_twice_fails() {
    let mut req = Req::with_req_id_seq(0);
    assert_eq!(Ok(()), req.add_pipe(1, 8));
    assert_eq!(Err(Failure::PipeAlreadyAdded), req.add_pipe(1, 4));
    assert_eq!(ErrorKind::InvalidData, Failure::PipeAlreadyAdded.kind());
}

#[test]
fn evt_req_opens_only_the_pipes_it_has() {
    let mut ctx = Context::new();
    let mut req = Req::with_req_id_seq(0);
    req.add_pipe(1, 8).unwrap();
    req.open_pipe(&mut ctx, 1);
    req.open_pipe(&mut ctx, 9);
    req.on_pipe_opened(&mut ctx, 1);
    assert_eq!(vec!["open 1", "ack_open 1"], taken(&mut ctx));
}

#[test]
fn evt_req_request_waits_for_a_writable_pipe() {
    let mut ctx = Context::new();
    let mut req = Req::with_req_id_seq(0x1000);
    req.add_pipe(1, 8).unwrap();
    req.on_pipe_opened(&mut ctx, 1);
    ctx.take_actions();

    req.send(&mut ctx, Message::from_body(vec![65]), Some(7));
    assert!(taken(&mut ctx).is_empty());

    req.ready(&mut ctx, 1, writable());
    assert_eq!(vec!["ready 1 w=true".to_string(), format!("send 1 h={:?} b=[65]", FIRST_ID)], taken(&mut ctx));
}

#[test]
fn evt_req_request_and_reply() {
    let mut ctx = Context::new();
    let mut req = req_with_ready_pipe(&mut ctx, 1);

    req.send(&mut ctx, Message::from_body(vec![65]), Some(7));
    assert_eq!(vec![format!("send 1 h={:?} b=[65]", FIRST_ID)], taken(&mut ctx));

    req.on_send_done(&mut ctx, 1);
    assert_eq!(vec!["reply send", "resync 1", "cancel 7", "schedule 0 ReqResend 60000"], taken(&mut ctx));
    assert!(req.can_recv(|tok| tok == 1));

    req.recv(&mut ctx, Some(8));
    assert_eq!(vec!["recv 1"], taken(&mut ctx));

    let mut raw = FIRST_ID.to_vec();
    raw.push(66);
    req.on_recv_done(&mut ctx, 1, Message::from_body(raw));
    assert_eq!(vec![format!("reply recv h={:?} b=[66]", FIRST_ID), "cancel 8".to_string(), "cancel 0".to_string()], taken(&mut ctx));
    assert!(!req.can_recv(|_| true));
}

#[test]
fn evt_req_reply_with_another_id_is_dropped() {
    let mut ctx = Context::new();
    let mut req = req_with_ready_pipe(&mut ctx, 1);
    req.send(&mut ctx, Message::from_body(vec![65]), None);
    req.on_send_done(&mut ctx, 1);
    req.recv(&mut ctx, None);
    ctx.take_actions();

    req.on_recv_done(&mut ctx, 1, Message::from_body(vec![0x80, 0x00, 0x10, 0x00, 66]));
    assert_eq!(vec!["recv 1"], taken(&mut ctx));

    let mut raw = FIRST_ID.to_vec();
    raw.push(67);
    req.on_recv_done(&mut ctx, 1, Message::from_body(raw));
    assert_eq!(vec![format!("reply recv h={:?} b=[67]", FIRST_ID), "cancel 0".to_string()], taken(&mut ctx));
}

#[test]
fn evt_req_message_without_id_is_left_aside() {
    let mut ctx = Context::new();
    let mut req = req_with_ready_pipe(&mut ctx, 1);
    req.send(&mut ctx, Message::from_body(vec![65]), None);
    req.on_send_done(&mut ctx, 1);
    req.recv(&mut ctx, None);
    ctx.take_actions();

    req.on_recv_done(&mut ctx, 1, Message::from_body(vec![1, 2]));
    assert!(taken(&mut ctx).is_empty());

    req.on_recv_timeout(&mut ctx);
    assert_eq!(vec!["reply error RecvTimedOut", "cancel 0"], taken(&mut ctx));
}

#[test]
fn evt_req_recv_without_request_fails() {
    let mut ctx = Context::new();
    let mut req = Req::with_req_id_seq(0);
    req.recv(&mut ctx, Some(3));
    assert_eq!(vec!["reply error RecvWithoutPending", "cancel 3"], taken(&mut ctx));
}

#[test]
fn evt_req_send_timeout_is_reported() {
    let mut ctx = Context::new();
    let mut req = Req::with_req_id_seq(0);
    req.send(&mut ctx, Message::from_body(vec![65]), Some(4));
    req.on_send_timeout(&mut ctx);
    assert_eq!(vec!["reply error SendTimedOut"], taken(&mut ctx));
}

#[test]
fn evt_req_resend_restarts_the_timer() {
    let mut ctx = Context::new();
    let mut req = req_with_ready_pipe(&mut ctx, 1);
    req.send(&mut ctx, Message::from_body(vec![65]), None);
    req.on_send_done(&mut ctx, 1);
    ctx.take_actions();

    req.resend(&mut ctx);
    assert_eq!(vec!["schedule 1 ReqResend 60000"], taken(&mut ctx));
    assert!(req.can_recv(|_| true));
}

#[test]
fn evt_req_new_request_cancels_the_resend_timer() {
    let mut ctx = Context::new();
    let mut req = req_with_ready_pipe(&mut ctx, 1);
    req.send(&mut ctx, Message::from_body(vec![65]), None);
    req.on_send_done(&mut ctx, 1);
    ctx.take_actions();

    req.send(&mut ctx, Message::from_body(vec![66]), None);
    assert_eq!(vec![format!("cancel 0"), format!("send 1 h={:?} b=[66]", [0x80u8, 0x00, 0x10, 0x02])], taken(&mut ctx));
}

#[test]
fn evt_req_removed_pipe_holds_the_request() {
    let mut ctx = Context::new();
    let mut req = req_with_ready_pipe(&mut ctx, 1);
    req.send(&mut ctx, Message::from_body(vec![65]), None);
    ctx.take_actions();

    assert!(req.remove_pipe(1));
    assert!(!req.remove_pipe(1));

    req.add_pipe(2, 8).unwrap();
    req.on_pipe_opened(&mut ctx, 2);
    req.ready(&mut ctx, 2, writable());
    assert_eq!(
        vec!["ack_open 2".to_string(), "ready 2 w=true".to_string(), format!("send 2 h={:?} b=[65]", FIRST_ID)],
        taken(&mut ctx)
    );
}

#[test]
fn evt_req_late_send_done_shows_the_pipe_again() {
    let mut ctx = Context::new();
    let mut req = req_with_ready_pipe(&mut ctx, 1);
    req.on_send_done(&mut ctx, 1);
    assert_eq!(vec!["resync 1"], taken(&mut ctx));
}

#[test]
fn evt_req_unwritable_pipe_is_not_selected() {
    let mut ctx = Context::new();
    let mut req = req_with_ready_pipe(&mut ctx, 1);
    req.ready(&mut ctx, 1, readable());
    assert_eq!(vec!["ready 1 w=false"], taken(&mut ctx));

    req.send(&mut ctx, Message::from_body(vec![65]), None);
    assert!(taken(&mut ctx).is_empty());
}

#[test]
fn evt_req_device_sends_messages_as_they_are() {
    let mut ctx = Context::new();
    let mut req = req_with_ready_pipe(&mut ctx, 1);
    assert_eq!(Ok(()), req.set_device_item(true));
    req.send(&mut ctx, Message::from_header_and_body(vec![9], vec![65]), None);
    assert_eq!(vec!["send 1 h=[9] b=[65]"], taken(&mut ctx));
    assert_eq!(0x1000, req.req_id_seq());
}

#[test]
fn evt_req_destroy_closes_every_pipe() {
    let mut ctx = Context::new();
    let mut req = Req::with_req_id_seq(0);
    req.add_pipe(1, 8).unwrap();
    req.add_pipe(2, 8).unwrap();
    req.destroy(&mut ctx);
    assert_eq!(vec!["close 1", "close 2"], taken(&mut ctx));
    assert!(!req.remove_pipe(1));
}

#[test]
fn evt_req_ids_and_peer() {
    let req = Req::with_req_id_seq(0);
    assert_eq!(3 * 16 + 0, req.id());
    assert_eq!(3 * 16 + 1, req.peer_id());
}
