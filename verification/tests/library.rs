use std::rc::Rc;

use scaproust::common::{Action, ConfigOption, ErrorKind, Event, Failure, Message, Reply, Schedulable};
use scaproust::context::Context;
use scaproust::proto::bus::{decode, encode};
use scaproust::proto::pipes::{EidSet, Pipe, PipeCollection};
use scaproust::proto::publ::Pub;
use scaproust::proto::rep::Rep;
use scaproust::proto::req::Req;
use scaproust::proto::resp::Respondent;
use scaproust::proto::surv::Surveyor;
use scaproust::protocol::excl::Excl;
use scaproust::reactor::{events_to_process, route_token, PollFailure, Route, BUS_TOKEN, CHANNEL_TOKEN, TIMER_TOKEN};
use scaproust::sequence::Sequence;

fn replies(ctx: &mut Context) -> Vec<Reply> {
    ctx.take_actions()
        .into_iter()
        .filter_map(|a| match a {
            Action::Reply(r) => Some(r),
            _ => None,
        })
        .collect()
}

fn failure_of(reply: &Reply) -> Option<Failure> {
    match reply {
        Reply::Error(f) => Some(*f),
        _ => None,
    }
}

#[test]
fn sequence_hands_out_increasing_ids() {
    let mut seq = Sequence::new();

    assert_eq!(0, seq.next());
    assert_eq!(1, seq.next());
    assert_eq!(2, seq.next());
}

#[test]
fn context_schedules_timers_with_fresh_ids() {
    let mut ctx = Context::new();

    assert_eq!(Ok(0), ctx.schedule(Schedulable::ReqResend, 10));
    assert_eq!(Ok(1), ctx.schedule(Schedulable::SurveyCancel, 20));
    ctx.cancel_timeout(None);
    ctx.cancel_timeout(Some(1));
    let actions = ctx.take_actions();
    assert_eq!(3, actions.len());
    assert!(matches!(actions[2], Action::Cancel(1)));
    assert_eq!(0, ctx.len());
}

#[test]
fn readiness_changes_raise_events_only_when_they_change() {
    let mut ctx = Context::new();

    ctx.check_send_ready_change(false, false);
    ctx.check_send_ready_change(false, true);
    ctx.check_recv_ready_change(true, true);
    ctx.check_recv_ready_change(true, false);
    let actions = ctx.take_actions();
    assert_eq!(2, actions.len());
    assert!(matches!(actions[0], Action::Raise(Event::CanSend(true))));
    assert!(matches!(actions[1], Action::Raise(Event::CanRecv(false))));
}

#[test]
fn failures_have_kinds() {
    assert_eq!(ErrorKind::TimedOut, Failure::SendTimedOut.kind());
    assert_eq!(ErrorKind::TimedOut, Failure::RecvTimedOut.kind());
    assert_eq!(ErrorKind::InvalidData, Failure::RecvMalformed.kind());
    assert_eq!(ErrorKind::InvalidData, Failure::SendWithoutRoute.kind());
    assert_eq!(ErrorKind::InvalidInput, Failure::OptionNotSupported.kind());
    assert_eq!(ErrorKind::Other, Failure::RecvWithoutPending.kind());
}

#[test]
fn pipes_give_back_what_was_stored() {
    let mut pipes = PipeCollection::new();
    let mut ctx = Context::new();

    assert!(pipes.insert(1, Pipe::new(1, 2, 3)).is_none());
    assert!(pipes.insert(4, Pipe::new(4, 5, 6)).is_none());
    assert_eq!(Some(Pipe::new(1, 2, 3)), pipes.insert(1, Pipe::new(1, 7, 7)));
    assert_eq!(2, pipes.len());
    assert_eq!(7, pipes.get_mut(&1).unwrap().get_send_priority());
    assert!(pipes.get_mut(&9).is_none());
    assert_eq!(Some(4), pipes.send_to(&mut ctx, Message::new(), 4));
    assert_eq!(None, pipes.send_to(&mut ctx, Message::new(), 9));
    assert_eq!(Some(1), pipes.recv_from(&mut ctx, 1));
    assert_eq!(None, pipes.recv_from(&mut ctx, 9));
    assert_eq!(Some(Pipe::new(4, 5, 6)), pipes.remove(&4));
    assert_eq!(None, pipes.remove(&4));
    assert!(pipes.contains(&1));
    pipes.close_all(&mut ctx);
    assert_eq!(0, pipes.len());
    let actions = ctx.take_actions();
    assert_eq!(3, actions.len());
    assert!(matches!(actions[0], Action::Send(4, _)));
    assert!(matches!(actions[1], Action::Recv(1)));
    assert!(matches!(actions[2], Action::Close(1)));
}

#[test]
fn endpoint_sets_hold_each_endpoint_once() {
    let mut set = EidSet::new();

    assert!(set.is_empty());
    assert!(set.insert(3));
    assert!(!set.insert(3));
    assert!(set.insert(5));
    assert!(set.contains(&5));
    assert!(set.remove(&3));
    assert!(!set.remove(&3));
    assert_eq!(vec![5], set.drain());
    assert!(set.is_empty());
}

#[test]
fn bus_codec_puts_the_origin_in_front_of_the_header() {
    let msg = decode(Message::from_body(vec![1, 2]), 0x0102_0304);
    assert_eq!(&vec![1, 2, 3, 4], msg.get_header());

    let (forwarded, origin) = encode(msg);
    assert_eq!(Some(0x0102_0304), origin);
    assert_eq!(0, forwarded.get_header().len());
    assert_eq!(&vec![1, 2], forwarded.get_body());

    let (short, none) = encode(Message::from_header_and_body(vec![1, 2, 3], vec![]));
    assert_eq!(None, none);
    assert_eq!(3, short.get_header().len());
}

#[test]
fn pub_sends_to_every_ready_subscriber_and_refuses_to_recv() {
    let mut publ = Pub::new();
    let mut ctx = Context::new();

    publ.add_pipe(&mut ctx, 1, Pipe::new(1, 8, 8));
    publ.add_pipe(&mut ctx, 2, Pipe::new(2, 8, 8));
    publ.on_send_ready(&mut ctx, 1);
    publ.on_send_ready(&mut ctx, 2);
    publ.send(&mut ctx, Message::from_body(vec![1]), Some(4));
    publ.recv(&mut ctx, None);

    let actions = ctx.take_actions();
    let sends = actions.iter().filter(|a| matches!(a, Action::Send(_, _))).count();
    assert_eq!(2, sends);
    let errors: Vec<Failure> = actions
        .iter()
        .filter_map(|a| match a {
            Action::Reply(r) => failure_of(r),
            _ => None,
        })
        .collect();
    assert_eq!(vec![Failure::RecvNotSupported], errors);
}

#[test]
fn req_timeouts_are_reported() {
    let mut req = Req::new();
    let mut ctx = Context::new();

    req.on_send_timeout(&mut ctx);
    req.on_recv_timeout(&mut ctx);
    let errors: Vec<Option<Failure>> = replies(&mut ctx).iter().map(failure_of).collect();
    assert_eq!(vec![Some(Failure::SendTimedOut)], errors);
}

#[test]
fn req_recv_timeout_while_waiting_for_a_reply_is_reported() {
    let mut req = Req::with_req_id_seq(5);
    let mut ctx = Context::new();

    req.add_pipe(&mut ctx, 1, Pipe::new(1, 8, 8));
    req.on_send_ready(&mut ctx, 1);
    req.send(&mut ctx, Message::new(), None);
    req.on_send_ack(&mut ctx, 1);
    req.recv(&mut ctx, None);
    req.on_recv_timeout(&mut ctx);
    let errors: Vec<Option<Failure>> = replies(&mut ctx).iter().map(failure_of).collect();
    assert_eq!(vec![None, Some(Failure::RecvTimedOut)], errors);
}

#[test]
fn options_are_taken_or_refused() {
    let mut req = Req::new();
    let mut surv = Surveyor::new();

    assert_eq!(Ok(()), req.set_option(ConfigOption::ReqResendIvl(5)));
    assert_eq!(Err(Failure::OptionNotSupported), req.set_option(ConfigOption::SurveyDeadline(5)));
    assert_eq!(Ok(()), surv.set_option(ConfigOption::SurveyDeadline(5)));
    assert_eq!(Err(Failure::OptionNotSupported), surv.set_option(ConfigOption::SendPriority(1)));
}

#[test]
fn request_ids_start_from_the_clock() {
    let req = Req::new();
    let surv = Surveyor::new();

    assert!(req.req_id_seq() < 1_000_000_000);
    assert!(surv.survey_id_seq() < 1_000_000_000);
}

#[test]
fn rep_without_route_refuses_to_send() {
    let mut rep = Rep::new();
    let mut ctx = Context::new();

    rep.on_device_plugged(&mut ctx);
    rep.send(&mut ctx, Message::from_header_and_body(vec![0, 1], vec![]), Some(2));
    let actions = ctx.take_actions();
    assert!(matches!(&actions[0], Action::Reply(Reply::Error(Failure::SendWithoutRoute))));
    assert!(matches!(actions[1], Action::Cancel(2)));
}

#[test]
fn respondent_tells_when_it_can_receive() {
    let mut resp = Respondent::new();
    let mut ctx = Context::new();

    resp.add_pipe(&mut ctx, 1, Pipe::new(1, 8, 8));
    resp.on_recv_ready(&mut ctx, 1);
    let actions = ctx.take_actions();
    let events: Vec<Event> = actions
        .iter()
        .filter_map(|a| match a {
            Action::Raise(e) => Some(*e),
            _ => None,
        })
        .collect();
    assert_eq!(vec![Event::CanRecv(true), Event::CanRecv(true)], events);
}

#[test]
fn respondent_answers_with_the_route_of_the_survey() {
    let mut resp = Respondent::new();
    let mut ctx = Context::new();

    resp.add_pipe(&mut ctx, 3, Pipe::new(3, 8, 8));
    resp.recv(&mut ctx, None);
    resp.on_recv_ready(&mut ctx, 3);
    resp.on_recv_ack(&mut ctx, 3, Message::from_body(vec![0x80, 0, 0, 9, 7]));
    assert_eq!(&vec![0, 0, 0, 3, 0x80, 0, 0, 9], resp.get_backtrace());
    resp.on_send_ready(&mut ctx, 3);
    resp.send(&mut ctx, Message::from_body(vec![1]), None);
    let sent: Vec<(usize, Vec<u8>)> = ctx
        .take_actions()
        .iter()
        .filter_map(|a| match a {
            Action::Send(eid, m) => Some((*eid, m.get_header().clone())),
            _ => None,
        })
        .collect();
    assert_eq!(vec![(3, vec![0x80, 0, 0, 9])], sent);
}

#[test]
fn excl_keeps_the_first_pipe() {
    let mut excl: Excl<&str> = Excl::new();

    assert!(excl.add(1, "first"));
    assert!(!excl.add(2, "second"));
    assert!(excl.get_active().is_none());
    excl.activate(2);
    assert!(excl.get_active().is_none());
    excl.activate(1);
    assert_eq!(Some(&"first"), excl.get_active());
    assert_eq!(Some(&mut "first"), excl.get(1));
    assert_eq!(None, excl.get(2));
    excl.deactivate();
    assert!(excl.get_active_mut().is_none());
    assert_eq!(None, excl.remove(2));
    assert_eq!(Some("first"), excl.remove(1));
    assert!(excl.get_pipe().is_none());
    assert!(excl.add(2, "second"));
}

#[test]
fn event_loop_decisions() {
    assert_eq!(Ok(3), events_to_process(Ok(3)));
    assert_eq!(Ok(0), events_to_process(Err(PollFailure::Interrupted)));
    assert_eq!(Err(PollFailure::Failed), events_to_process(Err(PollFailure::Failed)));
    assert_eq!(Route::Channel, route_token(CHANNEL_TOKEN));
    assert_eq!(Route::Bus, route_token(BUS_TOKEN));
    assert_eq!(Route::Timer, route_token(TIMER_TOKEN));
    assert_eq!(Route::Endpoint(12), route_token(12));
    assert_eq!(usize::MAX - 1, CHANNEL_TOKEN);
}

#[test]
fn rc_messages_can_be_shared() {
    let msg = Rc::new(Message::from_body(vec![1, 2, 3]));
    assert_eq!(3, msg.len());
}
