use byteorder::{BigEndian, ByteOrder};

use scaproust::common::{Action, Event, Message, Reply};
use scaproust::context::Context;
use scaproust::proto::bus::Bus;
use scaproust::proto::pair::Pair;
use scaproust::proto::pipes::Pipe;
use scaproust::proto::pull::Pull;
use scaproust::proto::push::Push;
use scaproust::proto::rep::Rep;
use scaproust::proto::req::Req;
use scaproust::proto::surv::Surveyor;

fn new_test_pipe(eid: usize) -> Pipe {
    Pipe::new(eid, 8, 8)
}

/// Watches what a protocol asks of its context.
struct Probe {
    ctx: Context,
    log: Vec<Action>,
}

impl Probe {
    fn new() -> Probe {
        Probe { ctx: Context::new(), log: Vec::new() }
    }

    fn sync(&mut self) {
        let mut actions = self.ctx.take_actions();
        self.log.append(&mut actions);
    }

    /// The oldest reply not read yet.
    fn try_recv(&mut self) -> Option<Reply> {
        self.sync();
        let pos = self.log.iter().position(|a| matches!(a, Action::Reply(_)))?;
        match self.log.remove(pos) {
            Action::Reply(r) => Some(r),
            _ => None,
        }
    }

    fn raised_events(&mut self) -> Vec<Event> {
        self.sync();
        self.log
            .iter()
            .filter_map(|a| match a {
                Action::Raise(e) => Some(*e),
                _ => None,
            })
            .collect()
    }

    fn send_calls(&mut self) -> Vec<(usize, Vec<u8>, Vec<u8>)> {
        self.sync();
        self.log
            .iter()
            .filter_map(|a| match a {
                Action::Send(eid, msg) => Some((*eid, msg.get_header().clone(), msg.get_body().clone())),
                _ => None,
            })
            .collect()
    }

    fn recv_calls(&mut self) -> Vec<usize> {
        self.sync();
        self.log
            .iter()
            .filter_map(|a| match a {
                Action::Recv(eid) => Some(*eid),
                _ => None,
            })
            .collect()
    }

    fn close_calls(&mut self) -> Vec<usize> {
        self.sync();
        self.log
            .iter()
            .filter_map(|a| match a {
                Action::Close(eid) => Some(*eid),
                _ => None,
            })
            .collect()
    }

    fn cancellations(&mut self) -> Vec<usize> {
        self.sync();
        self.log
            .iter()
            .filter_map(|a| match a {
                Action::Cancel(s) => Some(*s),
                _ => None,
            })
            .collect()
    }

    fn assert_one_send_to(&mut self, eid: usize) {
        let calls = self.send_calls();
        assert_eq!(1, calls.len());
        assert_eq!(eid, calls[0].0);
    }

    fn assert_send_to(&mut self, eid: usize, count: usize) {
        let calls = self.send_calls();
        assert_eq!(count, calls.iter().filter(|c| c.0 == eid).count());
    }

    fn assert_no_send_call(&mut self) {
        assert_eq!(0, self.send_calls().len());
    }

    fn assert_one_recv_from(&mut self, eid: usize) {
        assert_eq!(vec![eid], self.recv_calls());
    }

    fn assert_one_cancellation(&mut self, timeout: usize) {
        assert_eq!(vec![timeout], self.cancellations());
    }
}

fn is_send(reply: Option<Reply>) -> bool {
    matches!(reply, Some(Reply::Send))
}

fn is_recv(reply: Option<Reply>) -> bool {
    matches!(reply, Some(Reply::Recv(_)))
}

fn is_error(reply: Option<Reply>) -> bool {
    matches!(reply, Some(Reply::Error(_)))
}

fn recv_msg(reply: Option<Reply>) -> Message {
    match reply {
        Some(Reply::Recv(msg)) => msg,
        _ => panic!("facade should have been sent a Recv reply !"),
    }
}

fn body_with_id(mut body: Vec<u8>, at: usize, id: u32) -> Vec<u8> {
    BigEndian::write_u32(&mut body[at..at + 4], id);
    body
}

// BUS

#[test]
fn when_send_succeeds_it_is_notified_and_timeout_is_cancelled() {
    let mut bus = Bus::new();
    let mut probe = Probe::new();

    let timeout = 0;
    bus.send(&mut probe.ctx, Message::new(), Some(timeout));

    assert!(is_send(probe.try_recv()));
    probe.assert_one_cancellation(timeout);
}

#[test]
fn send_broadcast_to_all_ready_pipes() {
    let mut bus = Bus::new();
    let mut probe = Probe::new();

    bus.add_pipe(&mut probe.ctx, 1, new_test_pipe(1));
    bus.add_pipe(&mut probe.ctx, 2, new_test_pipe(2));
    bus.add_pipe(&mut probe.ctx, 3, new_test_pipe(3));
    bus.on_send_ready(&mut probe.ctx, 1);
    bus.on_send_ready(&mut probe.ctx, 3);

    bus.send(&mut probe.ctx, Message::new(), None);

    probe.assert_send_to(1, 1);
    probe.assert_send_to(2, 0);
    probe.assert_send_to(3, 1);
}

#[test]
fn when_ready_pipe_list_becomes_not_empty_event_is_raised() {
    let mut bus = Bus::new();
    let mut probe = Probe::new();

    bus.add_pipe(&mut probe.ctx, 1, new_test_pipe(1));
    bus.add_pipe(&mut probe.ctx, 2, new_test_pipe(2));

    assert_eq!(0, probe.raised_events().len());
    bus.on_send_ready(&mut probe.ctx, 2);

    let raised_evts = probe.raised_events();
    assert_eq!(1, raised_evts.len());
    assert_eq!(Event::CanSend(true), raised_evts[0]);
}

#[test]
fn bus_when_send_starts_event_is_raised() {
    let mut bus = Bus::new();
    let mut probe = Probe::new();
    let eid = 1;

    bus.add_pipe(&mut probe.ctx, eid, new_test_pipe(eid));
    bus.on_send_ready(&mut probe.ctx, eid);
    bus.send(&mut probe.ctx, Message::new(), None);

    let raised_evts = probe.raised_events();
    assert_eq!(2, raised_evts.len());
    assert_eq!(Event::CanSend(true), raised_evts[0]);
    assert_eq!(Event::CanSend(false), raised_evts[1]);
}

#[test]
fn bus_when_recv_starts_event_is_raised() {
    let mut bus = Bus::new();
    let mut probe = Probe::new();
    let eid = 1;

    bus.add_pipe(&mut probe.ctx, eid, new_test_pipe(eid));
    bus.on_recv_ready(&mut probe.ctx, eid);
    bus.recv(&mut probe.ctx, None);
    bus.on_recv_ack(&mut probe.ctx, eid, Message::new());
    bus.on_recv_ready(&mut probe.ctx, eid);

    let raised_evts = probe.raised_events();
    assert_eq!(3, raised_evts.len());
    assert_eq!(Event::CanRecv(true), raised_evts[0]);
    assert_eq!(Event::CanRecv(false), raised_evts[1]);
    assert_eq!(Event::CanRecv(true), raised_evts[2]);
}

#[test]
fn bus_when_recv_ack_event_is_raised_if_there_is_another_pipe_ready() {
    let mut bus = Bus::new();
    let mut probe = Probe::new();

    bus.add_pipe(&mut probe.ctx, 1, new_test_pipe(1));
    bus.add_pipe(&mut probe.ctx, 2, new_test_pipe(2));
    bus.on_recv_ready(&mut probe.ctx, 1);
    bus.recv(&mut probe.ctx, None);
    bus.on_recv_ready(&mut probe.ctx, 2);
    bus.on_recv_ack(&mut probe.ctx, 1, Message::new());

    let raised_evts = probe.raised_events();
    assert_eq!(3, raised_evts.len());
    assert_eq!(Event::CanRecv(true), raised_evts[0]);
    assert_eq!(Event::CanRecv(false), raised_evts[1]);
    assert_eq!(Event::CanRecv(true), raised_evts[2]);
}

#[test]
fn bus_when_send_ready_pipe_is_removed_event_is_raised() {
    let mut bus = Bus::new();
    let mut probe = Probe::new();
    let eid = 5;

    bus.add_pipe(&mut probe.ctx, eid, new_test_pipe(eid));
    assert_eq!(0, probe.raised_events().len());
    bus.on_send_ready(&mut probe.ctx, eid);
    assert_eq!(1, probe.raised_events().len());
    bus.remove_pipe(&mut probe.ctx, eid);
    assert_eq!(2, probe.raised_events().len());

    let raised_evts = probe.raised_events();
    assert_eq!(2, raised_evts.len());
    assert_eq!(Event::CanSend(true), raised_evts[0]);
    assert_eq!(Event::CanSend(false), raised_evts[1]);
}

#[test]
fn bus_when_recv_ready_pipe_is_removed_event_is_raised() {
    let mut bus = Bus::new();
    let mut probe = Probe::new();
    let eid = 5;

    bus.add_pipe(&mut probe.ctx, eid, new_test_pipe(eid));
    bus.on_recv_ready(&mut probe.ctx, eid);
    bus.remove_pipe(&mut probe.ctx, eid);

    let raised_evts = probe.raised_events();
    assert_eq!(2, raised_evts.len());
    assert_eq!(Event::CanRecv(true), raised_evts[0]);
    assert_eq!(Event::CanRecv(false), raised_evts[1]);
}

#[test]
fn bus_forwards_a_message_to_every_ready_pipe_but_its_origin() {
    let mut bus = Bus::new();
    let mut probe = Probe::new();

    bus.add_pipe(&mut probe.ctx, 1, new_test_pipe(1));
    bus.add_pipe(&mut probe.ctx, 2, new_test_pipe(2));
    bus.on_send_ready(&mut probe.ctx, 1);
    bus.on_send_ready(&mut probe.ctx, 2);
    bus.send(&mut probe.ctx, Message::from_header_and_body(vec![0, 0, 0, 1], vec![7]), None);

    probe.assert_send_to(1, 0);
    probe.assert_send_to(2, 1);
}

// PAIR

#[test]
fn adding_more_than_one_pipe_should_close_the_subsequent_ones() {
    let mut pair = Pair::new();
    let mut probe = Probe::new();

    pair.add_pipe(&mut probe.ctx, 1, new_test_pipe(1));
    pair.add_pipe(&mut probe.ctx, 2, new_test_pipe(2));

    let close_calls = probe.close_calls();
    assert_eq!(1, close_calls.len());
    assert_eq!(2, close_calls[0]);
}

#[test]
fn remove_returns_the_added_pipe() {
    let mut pair = Pair::new();
    let mut probe = Probe::new();
    let eid = 3;

    pair.add_pipe(&mut probe.ctx, eid, new_test_pipe(eid));
    let removed = pair.remove_pipe(&mut probe.ctx, eid);
    assert!(removed.is_some());
    if let Some(pipe) = removed {
        pipe.close(&mut probe.ctx);
    }

    let close_calls = probe.close_calls();
    assert_eq!(1, close_calls.len());
    assert_eq!(eid, close_calls[0]);
}

#[test]
fn can_put_send_on_hold_and_resume_when_a_pipe_is_added_and_becomes_ready() {
    let mut pair = Pair::new();
    let mut probe = Probe::new();

    pair.send(&mut probe.ctx, Message::new(), None);
    probe.assert_no_send_call();

    let eid = 4;
    pair.add_pipe(&mut probe.ctx, eid, new_test_pipe(eid));
    probe.assert_no_send_call();
    pair.on_send_ready(&mut probe.ctx, eid);
    probe.assert_one_send_to(eid);
}

#[test]
fn pair_when_send_succeed_it_is_notified_and_timeout_is_cancelled() {
    let mut pair = Pair::new();
    let mut probe = Probe::new();
    let eid = 5;

    pair.add_pipe(&mut probe.ctx, eid, new_test_pipe(eid));
    pair.on_send_ready(&mut probe.ctx, eid);
    let timeout = 6;
    pair.send(&mut probe.ctx, Message::new(), Some(timeout));
    pair.on_send_ack(&mut probe.ctx, eid);

    assert!(is_send(probe.try_recv()));
    probe.assert_one_send_to(eid);
    probe.assert_one_cancellation(timeout);
}

// PULL

#[test]
fn pull_when_recv_succeed_it_is_notified_and_timeout_is_cancelled() {
    let mut pull = Pull::new();
    let mut probe = Probe::new();
    let eid = 0;

    pull.add_pipe(&mut probe.ctx, eid, new_test_pipe(eid));
    pull.on_recv_ready(&mut probe.ctx, eid);
    let timeout = 1;
    pull.recv(&mut probe.ctx, Some(timeout));
    pull.on_recv_ack(&mut probe.ctx, eid, Message::new());

    assert!(is_recv(probe.try_recv()));
    probe.assert_one_recv_from(eid);
    probe.assert_one_cancellation(timeout);
}

#[test]
fn pull_when_recv_starts_event_is_raised() {
    let mut pull = Pull::new();
    let mut probe = Probe::new();
    let eid = 1;

    pull.add_pipe(&mut probe.ctx, eid, new_test_pipe(eid));
    pull.on_recv_ready(&mut probe.ctx, eid);
    pull.recv(&mut probe.ctx, None);
    pull.on_recv_ack(&mut probe.ctx, eid, Message::new());
    pull.on_recv_ready(&mut probe.ctx, eid);

    let raised_evts = probe.raised_events();
    assert_eq!(3, raised_evts.len());
    assert_eq!(Event::CanRecv(true), raised_evts[0]);
    assert_eq!(Event::CanRecv(false), raised_evts[1]);
    assert_eq!(Event::CanRecv(true), raised_evts[2]);
}

#[test]
fn pull_when_recv_ack_event_is_raised_if_there_is_another_pipe_ready() {
    let mut pull = Pull::new();
    let mut probe = Probe::new();

    pull.add_pipe(&mut probe.ctx, 1, new_test_pipe(1));
    pull.add_pipe(&mut probe.ctx, 2, new_test_pipe(2));
    pull.on_recv_ready(&mut probe.ctx, 1);
    pull.recv(&mut probe.ctx, None);
    pull.on_recv_ready(&mut probe.ctx, 2);
    pull.on_recv_ack(&mut probe.ctx, 1, Message::new());

    let raised_evts = probe.raised_events();
    assert_eq!(3, raised_evts.len());
    assert_eq!(Event::CanRecv(true), raised_evts[0]);
    assert_eq!(Event::CanRecv(false), raised_evts[1]);
    assert_eq!(Event::CanRecv(true), raised_evts[2]);
}

#[test]
fn pull_when_recv_ready_pipe_is_removed_event_is_raised() {
    let mut pull = Pull::new();
    let mut probe = Probe::new();
    let eid = 3;

    pull.add_pipe(&mut probe.ctx, eid, new_test_pipe(eid));
    pull.on_recv_ready(&mut probe.ctx, eid);
    pull.remove_pipe(&mut probe.ctx, eid);

    let raised_evts = probe.raised_events();
    assert_eq!(2, raised_evts.len());
    assert_eq!(Event::CanRecv(true), raised_evts[0]);
    assert_eq!(Event::CanRecv(false), raised_evts[1]);
}

#[test]
fn pull_refuses_to_send() {
    let mut pull = Pull::new();
    let mut probe = Probe::new();

    pull.send(&mut probe.ctx, Message::new(), Some(3));

    assert!(is_error(probe.try_recv()));
    probe.assert_one_cancellation(3);
}

// PUSH

#[test]
fn push_when_send_succeed_it_is_notified_and_timeout_is_cancelled() {
    let mut push = Push::new();
    let mut probe = Probe::new();
    let eid = 0;

    push.add_pipe(&mut probe.ctx, eid, new_test_pipe(eid));
    push.on_send_ready(&mut probe.ctx, eid);
    let timeout = 1;
    push.send(&mut probe.ctx, Message::new(), Some(timeout));
    push.on_send_ack(&mut probe.ctx, eid);

    assert!(is_send(probe.try_recv()));
    probe.assert_one_send_to(eid);
    probe.assert_one_cancellation(timeout);
}

#[test]
fn push_when_send_starts_event_is_raised() {
    let mut push = Push::new();
    let mut probe = Probe::new();
    let eid = 1;

    push.add_pipe(&mut probe.ctx, eid, new_test_pipe(eid));
    push.on_send_ready(&mut probe.ctx, eid);
    push.send(&mut probe.ctx, Message::new(), None);
    push.on_send_ack(&mut probe.ctx, eid);
    push.on_send_ready(&mut probe.ctx, eid);

    let raised_evts = probe.raised_events();
    assert_eq!(3, raised_evts.len());
    assert_eq!(Event::CanSend(true), raised_evts[0]);
    assert_eq!(Event::CanSend(false), raised_evts[1]);
    assert_eq!(Event::CanSend(true), raised_evts[2]);
}

#[test]
fn when_send_ack_event_is_raised_if_there_is_another_pipe_ready() {
    let mut push = Push::new();
    let mut probe = Probe::new();

    push.add_pipe(&mut probe.ctx, 1, new_test_pipe(1));
    push.add_pipe(&mut probe.ctx, 2, new_test_pipe(2));
    push.on_send_ready(&mut probe.ctx, 1);
    push.send(&mut probe.ctx, Message::new(), None);
    push.on_send_ready(&mut probe.ctx, 2);
    push.on_send_ack(&mut probe.ctx, 1);

    let raised_evts = probe.raised_events();
    assert_eq!(3, raised_evts.len());
    assert_eq!(Event::CanSend(true), raised_evts[0]);
    assert_eq!(Event::CanSend(false), raised_evts[1]);
    assert_eq!(Event::CanSend(true), raised_evts[2]);
}

#[test]
fn push_when_send_ready_pipe_is_removed_event_is_raised() {
    let mut push = Push::new();
    let mut probe = Probe::new();
    let eid = 3;

    push.add_pipe(&mut probe.ctx, eid, new_test_pipe(eid));
    push.on_send_ready(&mut probe.ctx, eid);
    push.remove_pipe(&mut probe.ctx, eid);

    let raised_evts = probe.raised_events();
    assert_eq!(2, raised_evts.len());
    assert_eq!(Event::CanSend(true), raised_evts[0]);
    assert_eq!(Event::CanSend(false), raised_evts[1]);
}

#[test]
fn push_refuses_to_recv() {
    let mut push = Push::new();
    let mut probe = Probe::new();

    push.recv(&mut probe.ctx, None);

    assert!(is_error(probe.try_recv()));
}

// REP

fn request_body() -> Vec<u8> {
    body_with_id(vec![0, 0, 0, 0, 4, 2, 1], 0, 666 | 0x80000000)
}

fn routed_request_body() -> Vec<u8> {
    body_with_id(vec![0, 2, 4, 2, 0, 0, 0, 0, 4, 2, 1], 4, 666 | 0x80000000)
}

#[test]
fn rep_when_recv_succeed_it_is_notified_and_timeout_is_cancelled() {
    let mut rep = Rep::new();
    let mut probe = Probe::new();
    let eid = 0;
    let timeout = 1;
    let msg = Message::from_body(request_body());

    rep.add_pipe(&mut probe.ctx, eid, new_test_pipe(eid));
    rep.on_recv_ready(&mut probe.ctx, eid);
    rep.recv(&mut probe.ctx, Some(timeout));
    rep.on_recv_ack(&mut probe.ctx, eid, msg);

    assert!(is_recv(probe.try_recv()));
    probe.assert_one_recv_from(eid);
    probe.assert_one_cancellation(timeout);
}

#[test]
fn send_before_recv_notifies_an_error() {
    let mut rep = Rep::new();
    let mut probe = Probe::new();
    let eid = 0;

    rep.add_pipe(&mut probe.ctx, eid, new_test_pipe(eid));
    rep.on_send_ready(&mut probe.ctx, eid);
    let timeout = 1;
    rep.send(&mut probe.ctx, Message::new(), Some(timeout));
    rep.on_send_ack(&mut probe.ctx, eid);

    assert!(is_error(probe.try_recv()));
    probe.assert_no_send_call();
    probe.assert_one_cancellation(timeout);
}

#[test]
fn rep_when_send_succeed_it_is_notified_and_timeout_is_cancelled() {
    let mut rep = Rep::new();
    let mut probe = Probe::new();
    let eid = 0;
    let timeout = 1;
    let msg = Message::from_body(request_body());

    rep.add_pipe(&mut probe.ctx, eid, new_test_pipe(eid));
    rep.on_recv_ready(&mut probe.ctx, eid);
    rep.recv(&mut probe.ctx, None);
    rep.on_recv_ack(&mut probe.ctx, eid, msg);
    let _ = probe.try_recv();
    rep.on_send_ready(&mut probe.ctx, eid);
    rep.send(&mut probe.ctx, Message::new(), Some(timeout));
    rep.on_send_ack(&mut probe.ctx, eid);

    assert!(is_send(probe.try_recv()));
    probe.assert_one_send_to(eid);
    probe.assert_one_cancellation(timeout);
}

#[test]
fn rep_when_recv_starts_event_is_raised() {
    let mut rep = Rep::new();
    let mut probe = Probe::new();
    let eid = 1;

    rep.add_pipe(&mut probe.ctx, eid, new_test_pipe(eid));
    rep.on_recv_ready(&mut probe.ctx, eid);
    rep.recv(&mut probe.ctx, None);
    rep.on_recv_ack(&mut probe.ctx, eid, Message::new());
    rep.on_recv_ready(&mut probe.ctx, eid);

    let raised_evts = probe.raised_events();
    assert_eq!(3, raised_evts.len());
    assert_eq!(Event::CanRecv(true), raised_evts[0]);
    assert_eq!(Event::CanRecv(false), raised_evts[1]);
    assert_eq!(Event::CanRecv(true), raised_evts[2]);
}

#[test]
fn rep_when_send_starts_event_is_raised() {
    let mut rep = Rep::new();
    let mut probe = Probe::new();
    let eid = 1;
    let msg = Message::from_body(request_body());

    rep.add_pipe(&mut probe.ctx, eid, new_test_pipe(eid));
    rep.on_recv_ready(&mut probe.ctx, eid);
    rep.recv(&mut probe.ctx, None);
    rep.on_recv_ack(&mut probe.ctx, eid, msg);
    let _ = probe.try_recv();
    rep.on_send_ready(&mut probe.ctx, eid);
    rep.send(&mut probe.ctx, Message::new(), None);
    rep.on_send_ack(&mut probe.ctx, eid);

    let raised_evts = probe.raised_events();
    assert_eq!(4, raised_evts.len());
    assert_eq!(Event::CanRecv(true), raised_evts[0]);
    assert_eq!(Event::CanRecv(false), raised_evts[1]);
    assert_eq!(Event::CanSend(true), raised_evts[2]);
    assert_eq!(Event::CanSend(false), raised_evts[3]);
}

#[test]
fn rep_when_recv_ready_pipe_is_removed_event_is_raised() {
    let mut rep = Rep::new();
    let mut probe = Probe::new();
    let eid = 2;

    rep.add_pipe(&mut probe.ctx, eid, new_test_pipe(eid));
    rep.on_recv_ready(&mut probe.ctx, eid);
    rep.remove_pipe(&mut probe.ctx, eid);

    let raised_evts = probe.raised_events();
    assert_eq!(2, raised_evts.len());
    assert_eq!(Event::CanRecv(true), raised_evts[0]);
    assert_eq!(Event::CanRecv(false), raised_evts[1]);
}

#[test]
fn when_in_regular_mode_recv_will_store_endpoint_and_backtrace_in_socket_state() {
    let mut rep = Rep::new();
    let mut probe = Probe::new();
    let eid = 0;
    let msg = Message::from_body(routed_request_body());

    rep.add_pipe(&mut probe.ctx, eid, new_test_pipe(eid));
    rep.on_recv_ready(&mut probe.ctx, eid);
    rep.recv(&mut probe.ctx, None);
    rep.on_recv_ack(&mut probe.ctx, eid, msg);

    let app_msg = recv_msg(probe.try_recv());
    assert_eq!(0, app_msg.get_header().len());
    assert_eq!(3, app_msg.get_body().len());
    assert_eq!(12, rep.get_backtrace().len());
}

#[test]
fn when_in_raw_mode_recv_will_store_endpoint_and_backtrace_in_msg_header() {
    let mut rep = Rep::new();
    let mut probe = Probe::new();
    let eid = 0;
    let msg = Message::from_body(routed_request_body());

    rep.on_device_plugged(&mut probe.ctx);
    rep.add_pipe(&mut probe.ctx, eid, new_test_pipe(eid));
    rep.on_recv_ready(&mut probe.ctx, eid);
    rep.recv(&mut probe.ctx, None);
    rep.on_recv_ack(&mut probe.ctx, eid, msg);

    let app_msg = recv_msg(probe.try_recv());
    assert_eq!(12, app_msg.get_header().len());
    assert_eq!(3, app_msg.get_body().len());
    assert_eq!(0, rep.get_backtrace().len());
}

#[test]
fn when_in_regular_mode_send_will_restore_backtrace_from_socket_state_in_header_before_removing_endoint_id() {
    let mut rep = Rep::new();
    let mut probe = Probe::new();
    let eid = 0;
    let msg = Message::from_body(routed_request_body());

    rep.add_pipe(&mut probe.ctx, eid, new_test_pipe(eid));
    rep.on_recv_ready(&mut probe.ctx, eid);
    rep.recv(&mut probe.ctx, None);
    rep.on_recv_ack(&mut probe.ctx, eid, msg);

    let app_msg = recv_msg(probe.try_recv());
    assert_eq!(0, app_msg.get_header().len());
    assert_eq!(3, app_msg.get_body().len());
    assert_eq!(12, rep.get_backtrace().len());

    rep.on_send_ready(&mut probe.ctx, eid);
    rep.send(&mut probe.ctx, Message::new(), None);
    rep.on_send_ack(&mut probe.ctx, eid);

    probe.assert_one_send_to(eid);
    assert_eq!(0, rep.get_backtrace().len());
}

#[test]
fn when_in_raw_mode_send_will_remove_endpoint_id_from_header() {
    let mut rep = Rep::new();
    let mut probe = Probe::new();
    let eid = 1;
    let msg = Message::from_header_and_body(vec![0, 0, 0, 1], vec![6, 6, 6, 6, 4, 2, 1]);

    rep.on_device_plugged(&mut probe.ctx);
    rep.add_pipe(&mut probe.ctx, eid, new_test_pipe(eid));
    rep.on_send_ready(&mut probe.ctx, eid);
    rep.send(&mut probe.ctx, msg, None);
    rep.on_send_ack(&mut probe.ctx, eid);

    probe.assert_one_send_to(eid);
    let send_calls = probe.send_calls();
    assert_eq!(1, send_calls.len());
    assert_eq!(0, send_calls[0].1.len());
    assert_eq!(7, send_calls[0].2.len());
}

#[test]
fn when_in_raw_mode_send_while_peer_is_not_ready_drops_the_message_and_reports_success() {
    let mut rep = Rep::new();
    let mut probe = Probe::new();
    let eid = 1;
    let msg = Message::from_header_and_body(vec![0, 0, 0, 1], vec![6, 6, 6, 6, 4, 2, 1]);

    rep.on_device_plugged(&mut probe.ctx);
    rep.add_pipe(&mut probe.ctx, eid, new_test_pipe(eid));
    rep.send(&mut probe.ctx, msg, None);
    rep.on_send_ack(&mut probe.ctx, eid);

    assert!(is_send(probe.try_recv()));
    probe.assert_no_send_call();
}

#[test]
fn rep_reply_goes_back_with_the_route_of_the_request() {
    let mut rep = Rep::new();
    let mut probe = Probe::new();
    let eid = 7;

    rep.add_pipe(&mut probe.ctx, eid, new_test_pipe(eid));
    rep.on_recv_ready(&mut probe.ctx, eid);
    rep.recv(&mut probe.ctx, None);
    rep.on_recv_ack(&mut probe.ctx, eid, Message::from_body(routed_request_body()));
    let _ = probe.try_recv();
    rep.on_send_ready(&mut probe.ctx, eid);
    rep.send(&mut probe.ctx, Message::from_body(vec![9]), None);

    let send_calls = probe.send_calls();
    assert_eq!(1, send_calls.len());
    assert_eq!(eid, send_calls[0].0);
    assert_eq!(vec![0, 2, 4, 2, 0x80, 0, 2, 0x9a], send_calls[0].1);
    assert_eq!(vec![9], send_calls[0].2);
}

// REQ

#[test]
fn req_when_send_succeed_it_is_notified_and_timeout_is_cancelled() {
    let mut req = Req::new();
    let mut probe = Probe::new();
    let eid = 0;

    req.add_pipe(&mut probe.ctx, eid, new_test_pipe(eid));
    req.on_send_ready(&mut probe.ctx, eid);
    let timeout = 1;
    req.send(&mut probe.ctx, Message::new(), Some(timeout));
    req.on_send_ack(&mut probe.ctx, eid);

    assert!(is_send(probe.try_recv()));
    probe.assert_one_send_to(eid);
    probe.assert_one_cancellation(timeout);
}

#[test]
fn req_when_send_starts_event_is_raised() {
    let mut req = Req::new();
    let mut probe = Probe::new();
    let eid = 1;

    req.add_pipe(&mut probe.ctx, eid, new_test_pipe(eid));
    req.on_send_ready(&mut probe.ctx, eid);
    req.send(&mut probe.ctx, Message::new(), None);
    req.on_send_ack(&mut probe.ctx, eid);
    req.on_send_ready(&mut probe.ctx, eid);

    let raised_evts = probe.raised_events();
    assert_eq!(3, raised_evts.len());
    assert_eq!(Event::CanSend(true), raised_evts[0]);
    assert_eq!(Event::CanSend(false), raised_evts[1]);
    assert_eq!(Event::CanSend(true), raised_evts[2]);
}

#[test]
fn req_when_send_ready_pipe_is_removed_event_is_raised() {
    let mut req = Req::new();
    let mut probe = Probe::new();
    let eid = 2;

    req.add_pipe(&mut probe.ctx, eid, new_test_pipe(eid));
    req.on_send_ready(&mut probe.ctx, eid);
    req.remove_pipe(&mut probe.ctx, eid);

    let raised_evts = probe.raised_events();
    assert_eq!(2, raised_evts.len());
    assert_eq!(Event::CanSend(true), raised_evts[0]);
    assert_eq!(Event::CanSend(false), raised_evts[1]);
}

#[test]
fn when_active_pipe_is_removed_event_is_raised() {
    let mut req = Req::new();
    let mut probe = Probe::new();
    let eid = 1;
    let eid_o = 2;

    req.add_pipe(&mut probe.ctx, eid, new_test_pipe(eid));
    req.add_pipe(&mut probe.ctx, eid_o, new_test_pipe(eid));
    assert_eq!(0, probe.raised_events().len());
    req.on_send_ready(&mut probe.ctx, eid);
    assert_eq!(1, probe.raised_events().len());
    assert_eq!(Event::CanSend(true), probe.raised_events()[0]);
    req.send(&mut probe.ctx, Message::new(), None);
    assert_eq!(2, probe.raised_events().len());
    assert_eq!(Event::CanSend(false), probe.raised_events()[1]);
    req.on_send_ack(&mut probe.ctx, eid);
    assert_eq!(2, probe.raised_events().len());
    req.on_recv_ready(&mut probe.ctx, eid_o);
    assert_eq!(2, probe.raised_events().len());
    req.on_recv_ready(&mut probe.ctx, eid);
    assert_eq!(3, probe.raised_events().len());
    assert_eq!(Event::CanRecv(true), probe.raised_events()[2]);
    req.remove_pipe(&mut probe.ctx, eid);
    assert_eq!(4, probe.raised_events().len());
    assert_eq!(Event::CanRecv(false), probe.raised_events()[3]);
}

#[test]
fn when_in_regular_mode_send_will_append_request_id_to_the_header() {
    let mut req = Req::new();
    let mut probe = Probe::new();
    let eid = 4;

    req.add_pipe(&mut probe.ctx, eid, new_test_pipe(eid));
    req.on_send_ready(&mut probe.ctx, eid);
    req.send(&mut probe.ctx, Message::from_body(vec![1u8, 2, 3]), None);

    let send_calls = probe.send_calls();
    assert_eq!(1, send_calls.len());
    assert_eq!(4, send_calls[0].1.len());
    assert_eq!(3, send_calls[0].2.len());
    let req_id = BigEndian::read_u32(&send_calls[0].1);
    assert_eq!(0x80000000, req_id & 0x80000000);
}

#[test]
fn req_when_in_raw_mode_send_will_not_append_anything_to_the_header() {
    let mut req = Req::new();
    let mut probe = Probe::new();
    let eid = 5;

    req.on_device_plugged(&mut probe.ctx);
    req.add_pipe(&mut probe.ctx, eid, new_test_pipe(eid));
    req.on_send_ready(&mut probe.ctx, eid);
    req.send(&mut probe.ctx, Message::from_body(vec![1u8, 2, 3]), None);

    let send_calls = probe.send_calls();
    assert_eq!(1, send_calls.len());
    assert_eq!(0, send_calls[0].1.len());
    assert_eq!(3, send_calls[0].2.len());
}

#[test]
fn req_when_in_regular_mode_recv_while_idle_will_fail() {
    let mut req = Req::new();
    let mut probe = Probe::new();
    let eid = 0;

    req.add_pipe(&mut probe.ctx, eid, new_test_pipe(eid));
    req.on_recv_ready(&mut probe.ctx, eid);
    req.recv(&mut probe.ctx, None);

    assert!(is_error(probe.try_recv()));
}

fn active_req(probe: &mut Probe, eid: usize, device: bool) -> Req {
    let mut req = Req::new();
    if device {
        req.on_device_plugged(&mut probe.ctx);
    }
    req.add_pipe(&mut probe.ctx, eid, new_test_pipe(eid));
    req.on_send_ready(&mut probe.ctx, eid);
    req.send(&mut probe.ctx, Message::new(), None);
    req.on_send_ack(&mut probe.ctx, eid);
    probe.try_recv().expect("facade should have been sent a reply !");
    req
}

#[test]
fn req_when_in_regular_mode_recv_while_active_will_drop_msg_with_wrong_request_id() {
    let mut probe = Probe::new();
    let eid = 0;
    let mut req = active_req(&mut probe, eid, false);

    let bad_request_id = (req.req_id_seq() - 1) | 0x80000000;
    let msg = Message::from_body(body_with_id(vec![0, 0, 0, 0, 4, 2, 1], 0, bad_request_id));
    req.on_recv_ready(&mut probe.ctx, eid);
    req.recv(&mut probe.ctx, None);
    req.on_recv_ack(&mut probe.ctx, eid, msg);

    assert!(probe.try_recv().is_none());
}

#[test]
fn req_when_in_regular_mode_recv_while_active_will_accept_msg_with_right_request_id() {
    let mut probe = Probe::new();
    let eid = 0;
    let mut req = active_req(&mut probe, eid, false);

    let good_request_id = req.req_id_seq() | 0x80000000;
    let msg = Message::from_body(body_with_id(vec![0, 0, 0, 0, 4, 2, 1], 0, good_request_id));
    req.on_recv_ready(&mut probe.ctx, eid);
    req.recv(&mut probe.ctx, None);
    req.on_recv_ack(&mut probe.ctx, eid, msg);

    assert!(is_recv(probe.try_recv()));
}

#[test]
fn when_in_regular_mode_recv_moves_the_request_id_from_the_body_to_the_header() {
    let mut probe = Probe::new();
    let eid = 0;
    let mut req = active_req(&mut probe, eid, false);

    let good_request_id = req.req_id_seq() | 0x80000000;
    let msg = Message::from_body(body_with_id(vec![0, 0, 0, 0, 4, 2, 1], 0, good_request_id));
    req.on_recv_ready(&mut probe.ctx, eid);
    req.recv(&mut probe.ctx, None);
    req.on_recv_ack(&mut probe.ctx, eid, msg);

    let app_msg = recv_msg(probe.try_recv());
    assert_eq!(4, app_msg.get_header().len());
    assert_eq!(3, app_msg.get_body().len());
}

#[test]
fn when_in_raw_mode_recv_while_active_will_accept_msg_with_any_request_id() {
    let mut probe = Probe::new();
    let eid = 0;
    let mut req = active_req(&mut probe, eid, true);

    let bad_request_id = (req.req_id_seq() + 666) | 0x80000000;
    let msg = Message::from_body(body_with_id(vec![0, 0, 0, 0, 4, 2, 1], 0, bad_request_id));
    req.on_recv_ready(&mut probe.ctx, eid);
    req.recv(&mut probe.ctx, None);
    req.on_recv_ack(&mut probe.ctx, eid, msg);

    assert!(is_recv(probe.try_recv()));
}

#[test]
fn when_in_raw_mode_recv_while_idle_will_succeed() {
    let mut req = Req::new();
    let mut probe = Probe::new();
    let eid = 0;
    let request_id = (req.req_id_seq() + 666) | 0x80000000;
    let msg = Message::from_body(body_with_id(vec![0, 0, 0, 0, 4, 2, 1], 0, request_id));

    req.on_device_plugged(&mut probe.ctx);
    req.add_pipe(&mut probe.ctx, eid, new_test_pipe(eid));
    req.on_recv_ready(&mut probe.ctx, eid);
    req.recv(&mut probe.ctx, None);
    req.on_recv_ack(&mut probe.ctx, eid, msg);

    assert!(is_recv(probe.try_recv()));
}

#[test]
fn when_in_raw_mode_recv_moves_the_request_id_from_the_body_to_the_header() {
    let mut req = Req::new();
    let mut probe = Probe::new();
    let eid = 0;
    let request_id = (req.req_id_seq() + 666) | 0x80000000;
    let msg = Message::from_body(body_with_id(vec![0, 0, 0, 0, 4, 2, 1], 0, request_id));

    req.on_device_plugged(&mut probe.ctx);
    req.add_pipe(&mut probe.ctx, eid, new_test_pipe(eid));
    req.on_recv_ready(&mut probe.ctx, eid);
    req.recv(&mut probe.ctx, None);
    req.on_recv_ack(&mut probe.ctx, eid, msg);

    let app_msg = recv_msg(probe.try_recv());
    assert_eq!(4, app_msg.get_header().len());
    assert_eq!(3, app_msg.get_body().len());
}

#[test]
fn when_in_raw_mode_recv_will_accept_any_msg_with_a_four_bytes_header() {
    let mut req = Req::new();
    let mut probe = Probe::new();
    let eid = 0;
    let msg = Message::from_body(body_with_id(vec![0, 0, 0, 0, 4, 2], 0, 666));

    req.on_device_plugged(&mut probe.ctx);
    req.add_pipe(&mut probe.ctx, eid, new_test_pipe(eid));
    req.on_recv_ready(&mut probe.ctx, eid);
    req.recv(&mut probe.ctx, None);
    req.on_recv_ack(&mut probe.ctx, eid, msg);

    let app_msg = recv_msg(probe.try_recv());
    assert_eq!(4, app_msg.get_header().len());
    assert_eq!(2, app_msg.get_body().len());
}

#[test]
fn req_sent_request_is_resent_when_the_resend_timer_fires() {
    let mut req = Req::with_req_id_seq(41);
    let mut probe = Probe::new();
    let eid = 3;

    req.add_pipe(&mut probe.ctx, eid, new_test_pipe(eid));
    req.on_send_ready(&mut probe.ctx, eid);
    req.send(&mut probe.ctx, Message::from_body(vec![5]), None);
    req.on_send_ack(&mut probe.ctx, eid);
    assert!(is_send(probe.try_recv()));
    req.on_send_ready(&mut probe.ctx, eid);
    req.on_timer_tick(&mut probe.ctx, scaproust::common::Schedulable::ReqResend);

    let send_calls = probe.send_calls();
    assert_eq!(2, send_calls.len());
    assert_eq!(vec![0x80, 0, 0, 42], send_calls[0].1);
    assert_eq!(send_calls[0].1, send_calls[1].1);
    assert_eq!(vec![5], send_calls[1].2);
}

#[test]
fn req_malformed_reply_is_reported() {
    let mut probe = Probe::new();
    let eid = 0;
    let mut req = active_req(&mut probe, eid, false);

    req.on_recv_ready(&mut probe.ctx, eid);
    req.recv(&mut probe.ctx, None);
    req.on_recv_ack(&mut probe.ctx, eid, Message::from_body(vec![1, 2]));

    assert!(is_error(probe.try_recv()));
}

// SURVEYOR

#[test]
fn surv_when_send_succeed_it_is_notified_and_timeout_is_cancelled() {
    let mut surv = Surveyor::new();
    let mut probe = Probe::new();
    let eid = 0;

    surv.add_pipe(&mut probe.ctx, eid, new_test_pipe(eid));
    surv.on_send_ready(&mut probe.ctx, eid);
    let timeout = 1;
    surv.send(&mut probe.ctx, Message::new(), Some(timeout));
    surv.on_send_ack(&mut probe.ctx, eid);

    assert!(is_send(probe.try_recv()));
    probe.assert_one_send_to(eid);
    probe.assert_one_cancellation(timeout);
}

#[test]
fn surv_when_send_starts_event_is_raised() {
    let mut surv = Surveyor::new();
    let mut probe = Probe::new();
    let eid = 1;

    surv.add_pipe(&mut probe.ctx, eid, new_test_pipe(eid));
    surv.on_send_ready(&mut probe.ctx, eid);
    surv.send(&mut probe.ctx, Message::new(), None);
    surv.on_send_ack(&mut probe.ctx, eid);
    surv.on_send_ready(&mut probe.ctx, eid);

    let raised_evts = probe.raised_events();
    assert_eq!(3, raised_evts.len());
    assert_eq!(Event::CanSend(true), raised_evts[0]);
    assert_eq!(Event::CanSend(false), raised_evts[1]);
    assert_eq!(Event::CanSend(true), raised_evts[2]);
}

#[test]
fn when_last_send_ready_pipe_is_removed_event_is_raised() {
    let mut surv = Surveyor::new();
    let mut probe = Probe::new();
    let eid = 2;

    surv.add_pipe(&mut probe.ctx, eid, new_test_pipe(eid));
    surv.on_send_ready(&mut probe.ctx, eid);
    surv.remove_pipe(&mut probe.ctx, eid);

    let raised_evts = probe.raised_events();
    assert_eq!(2, raised_evts.len());
    assert_eq!(Event::CanSend(true), raised_evts[0]);
    assert_eq!(Event::CanSend(false), raised_evts[1]);
}

#[test]
fn when_in_regular_mode_send_will_append_survey_id_to_the_header() {
    let mut surv = Surveyor::new();
    let mut probe = Probe::new();
    let eid = 4;

    surv.add_pipe(&mut probe.ctx, eid, new_test_pipe(eid));
    surv.on_send_ready(&mut probe.ctx, eid);
    surv.send(&mut probe.ctx, Message::from_body(vec![1u8, 2, 3]), None);

    let send_calls = probe.send_calls();
    assert_eq!(1, send_calls.len());
    assert_eq!(4, send_calls[0].1.len());
    assert_eq!(3, send_calls[0].2.len());
    let survey_id = BigEndian::read_u32(&send_calls[0].1);
    assert_eq!(0x80000000, survey_id & 0x80000000);
}

#[test]
fn surv_when_in_raw_mode_send_will_not_append_anything_to_the_header() {
    let mut surv = Surveyor::new();
    let mut probe = Probe::new();
    let eid = 5;

    surv.on_device_plugged(&mut probe.ctx);
    surv.add_pipe(&mut probe.ctx, eid, new_test_pipe(eid));
    surv.on_send_ready(&mut probe.ctx, eid);
    surv.send(&mut probe.ctx, Message::from_body(vec![1u8, 2, 3]), None);

    let send_calls = probe.send_calls();
    assert_eq!(1, send_calls.len());
    assert_eq!(0, send_calls[0].1.len());
    assert_eq!(3, send_calls[0].2.len());
}

#[test]
fn surv_when_in_regular_mode_recv_while_idle_will_fail() {
    let mut surv = Surveyor::new();
    let mut probe = Probe::new();
    let eid = 0;

    surv.add_pipe(&mut probe.ctx, eid, new_test_pipe(eid));
    surv.on_recv_ready(&mut probe.ctx, eid);
    surv.recv(&mut probe.ctx, None);

    assert!(is_error(probe.try_recv()));
}

fn active_surveyor(probe: &mut Probe, eid: usize) -> Surveyor {
    let mut surv = Surveyor::new();
    surv.add_pipe(&mut probe.ctx, eid, new_test_pipe(eid));
    surv.on_send_ready(&mut probe.ctx, eid);
    surv.send(&mut probe.ctx, Message::new(), None);
    surv.on_send_ack(&mut probe.ctx, eid);
    probe.try_recv().expect("facade should have been sent a reply !");
    surv
}

#[test]
fn surv_when_in_regular_mode_recv_while_active_will_drop_msg_with_wrong_request_id() {
    let mut probe = Probe::new();
    let eid = 1;
    let mut surv = active_surveyor(&mut probe, eid);

    let bad_survey_id = (surv.survey_id_seq() - 1) | 0x80000000;
    let msg = Message::from_body(body_with_id(vec![0, 0, 0, 0, 4, 2, 1], 0, bad_survey_id));
    surv.on_recv_ready(&mut probe.ctx, eid);
    surv.recv(&mut probe.ctx, None);
    surv.on_recv_ack(&mut probe.ctx, eid, msg);

    assert!(probe.try_recv().is_none());
}

#[test]
fn surv_when_in_regular_mode_recv_while_active_will_accept_msg_with_right_request_id() {
    let mut probe = Probe::new();
    let eid = 0;
    let mut surv = active_surveyor(&mut probe, eid);

    let good_survey_id = surv.survey_id_seq() | 0x80000000;
    let msg = Message::from_body(body_with_id(vec![0, 0, 0, 0, 4, 2, 1], 0, good_survey_id));
    surv.on_recv_ready(&mut probe.ctx, eid);
    surv.recv(&mut probe.ctx, None);
    surv.on_recv_ack(&mut probe.ctx, eid, msg);

    assert!(is_recv(probe.try_recv()));
}

#[test]
fn when_in_regular_mode_recv_removes_the_survey_id_from_the_body() {
    let mut probe = Probe::new();
    let eid = 0;
    let mut surv = active_surveyor(&mut probe, eid);

    let good_survey_id = surv.survey_id_seq() | 0x80000000;
    let msg = Message::from_body(body_with_id(vec![0, 0, 0, 0, 4, 2, 1], 0, good_survey_id));
    surv.on_recv_ready(&mut probe.ctx, eid);
    surv.recv(&mut probe.ctx, None);
    surv.on_recv_ack(&mut probe.ctx, eid, msg);

    let app_msg = recv_msg(probe.try_recv());
    assert_eq!(0, app_msg.get_header().len());
    assert_eq!(3, app_msg.get_body().len());
}

#[test]
fn when_in_raw_mode_recv_moves_the_survey_id_from_the_body_to_the_header() {
    let mut surv = Surveyor::new();
    let mut probe = Probe::new();
    let eid = 0;
    let msg = Message::from_body(body_with_id(vec![0, 0, 0, 0, 4, 2, 1], 0, 666 | 0x80000000));

    surv.on_device_plugged(&mut probe.ctx);
    surv.add_pipe(&mut probe.ctx, eid, new_test_pipe(eid));
    surv.on_recv_ready(&mut probe.ctx, eid);
    surv.recv(&mut probe.ctx, None);
    surv.on_recv_ack(&mut probe.ctx, eid, msg);

    let app_msg = recv_msg(probe.try_recv());
    assert_eq!(4, app_msg.get_header().len());
    assert_eq!(3, app_msg.get_body().len());
}

#[test]
fn surv_deadline_is_scheduled_and_ends_the_survey() {
    let mut surv = Surveyor::with_survey_id_seq(7);
    let mut probe = Probe::new();
    let eid = 0;

    surv.add_pipe(&mut probe.ctx, eid, new_test_pipe(eid));
    surv.on_send_ready(&mut probe.ctx, eid);
    surv.send(&mut probe.ctx, Message::new(), None);
    probe.sync();
    let scheduled: Vec<u64> = probe
        .log
        .iter()
        .filter_map(|a| match a {
            Action::Schedule(_, scaproust::common::Schedulable::SurveyCancel, ms) => Some(*ms),
            _ => None,
        })
        .collect();
    assert_eq!(vec![1000u64], scheduled);
    surv.on_timer_tick(&mut probe.ctx, scaproust::common::Schedulable::SurveyCancel);
    surv.on_recv_ready(&mut probe.ctx, eid);
    surv.recv(&mut probe.ctx, None);
    let _ = probe.try_recv();
    assert!(is_error(probe.try_recv()));
}
