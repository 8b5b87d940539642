//! REP: receives requests from the peers in turn and sends each reply back
//! through the pipe its request came from, with the request's route.
use vstd::prelude::*;

use crate::common::{ActionView, EndpointId, Failure, Message, MessageView, Reply, ReplyView, Timeout};
use crate::context::{cancelled, lemma_changes_only_raise, recv_change, send_change, Context};
use crate::proto::backtrace::{msg_to_raw_msg, raw_msg_to_msg, routed_in, routed_out};
use crate::proto::pipes::{
    closed_all, eid_inserted, eid_removed, entry_inserted, entry_pipe, entry_removed, has_entry, EidSet, Pipe,
    PipeCollection,
};
use crate::proto::policy::fair_queue::{self, fq_received};
use crate::proto::priolist::{Priolist, PriolistModel};
use crate::proto::{REP, REQ};
use crate::protocol::policy::WithBacktrace;

verus! {

pub enum State {
    Idle,
    Receiving(EndpointId, Timeout),
    RecvOnHold(Timeout),
    Active(EndpointId),
    Sending(EndpointId, Message, Timeout),
    SendOnHold(EndpointId, Message, Timeout),
}

pub enum StateView {
    Idle,
    Receiving(EndpointId, Timeout),
    RecvOnHold(Timeout),
    Active(EndpointId),
    Sending(EndpointId, MessageView, Timeout),
    SendOnHold(EndpointId, MessageView, Timeout),
}

impl View for State {
    type V = StateView;

    open spec fn view(&self) -> StateView {
        match self {
            State::Idle => StateView::Idle,
            State::Receiving(e, t) => StateView::Receiving(*e, *t),
            State::RecvOnHold(t) => StateView::RecvOnHold(*t),
            State::Active(e) => StateView::Active(*e),
            State::Sending(e, m, t) => StateView::Sending(*e, m@, *t),
            State::SendOnHold(e, m, t) => StateView::SendOnHold(*e, m@, *t),
        }
    }
}

pub struct Inner {
    pipes: PipeCollection,
    fq: Priolist,
    sd: EidSet,
    ttl: u8,
    backtrace: Vec<u8>,
    is_device_item: bool,
}

/// A REP socket seen as its state, its pipes, its fair-queuing list, the
/// endpoints that can send, the hop limit, the route of the request being
/// answered and whether it serves a device.
pub struct RepView {
    pub state: StateView,
    pub pipes: Seq<(EndpointId, Pipe)>,
    pub fq: PriolistModel,
    pub sd: Seq<EndpointId>,
    pub ttl: u8,
    pub backtrace: Seq<u8>,
    pub is_device_item: bool,
}

impl RepView {
    pub open spec fn is_send_ready(self) -> bool {
        if self.is_device_item {
            self.sd.len() != 0
        } else {
            match self.state {
                StateView::Active(eid) => self.sd.contains(eid),
                _ => false,
            }
        }
    }

    pub open spec fn is_recv_ready(self) -> bool {
        self.fq.has_current()
    }

    pub open spec fn changes(self, other: RepView) -> Seq<ActionView> {
        send_change(self.is_send_ready(), other.is_send_ready()) + recv_change(
            self.is_recv_ready(),
            other.is_recv_ready(),
        )
    }

    pub open spec fn with_event(self, step: (RepView, Seq<ActionView>)) -> (RepView, Seq<ActionView>) {
        (step.0, step.1 + self.changes(step.0))
    }

    pub open spec fn received(self, t: Timeout) -> (RepView, Seq<ActionView>) {
        let (e, fq, acts) = fq_received(self.fq, self.pipes);
        let state = match e {
            Some(eid) => StateView::Receiving(eid, t),
            None => StateView::RecvOnHold(t),
        };
        (RepView { state, fq, ..self }, acts)
    }

    /// Sending the reply through the pipe of `eid`, which stops being ready.
    pub open spec fn reply_sent(self, msg: MessageView, t: Timeout, eid: EndpointId) -> (RepView, Seq<ActionView>) {
        let v = RepView { sd: eid_removed(self.sd, eid), ..self };
        if has_entry(self.pipes, eid) {
            (RepView { state: StateView::Sending(eid, msg, t), ..v }, seq![ActionView::Send(eid, msg)])
        } else {
            (RepView { state: StateView::SendOnHold(eid, msg, t), ..v }, Seq::empty())
        }
    }

    pub open spec fn state_send(self, msg: MessageView, t: Timeout, eid: EndpointId) -> (RepView, Seq<ActionView>) {
        if self.is_device_item {
            if self.sd.contains(eid) {
                self.reply_sent(msg, t, eid)
            } else {
                (RepView { state: StateView::Idle, ..self }, seq![ActionView::Reply(ReplyView::Send)] + cancelled(t))
            }
        } else if self.state is Active {
            if self.sd.contains(eid) {
                self.reply_sent(msg, t, eid)
            } else {
                (RepView { state: StateView::SendOnHold(eid, msg, t), ..self }, Seq::empty())
            }
        } else {
            (
                RepView { state: StateView::Idle, ..self },
                seq![ActionView::Reply(ReplyView::Error(Failure::SendWithoutPending))] + cancelled(t),
            )
        }
    }

    /// Sending a reply: it goes where its route says, when the route names an
    /// endpoint, and only while a request is being answered.
    pub open spec fn send(self, msg: MessageView, t: Timeout) -> (RepView, Seq<ActionView>) {
        match routed_out(msg, self.backtrace, self.is_device_item) {
            Some((raw, eid)) => self.with_event(self.state_send(raw, t, eid)),
            None => (self, seq![ActionView::Reply(ReplyView::Error(Failure::SendWithoutRoute))] + cancelled(t)),
        }
    }

    pub open spec fn on_send_ack(self, eid: EndpointId) -> (RepView, Seq<ActionView>) {
        let v = RepView { backtrace: Seq::empty(), ..self };
        v.with_event(
            match v.state {
                StateView::Sending(id, m, t) => if id == eid {
                    (RepView { state: StateView::Idle, ..v }, seq![ActionView::Reply(ReplyView::Send)] + cancelled(t))
                } else {
                    (v, Seq::empty())
                },
                _ => (v, Seq::empty()),
            },
        )
    }

    pub open spec fn on_send_timeout(self) -> (RepView, Seq<ActionView>) {
        self.with_event(
            (
                RepView { state: StateView::Idle, ..self },
                seq![ActionView::Reply(ReplyView::Error(Failure::SendTimedOut))],
            ),
        )
    }

    pub open spec fn on_send_ready(self, eid: EndpointId) -> (RepView, Seq<ActionView>) {
        let v = RepView { sd: eid_inserted(self.sd, eid), ..self };
        self.with_event(
            match self.state {
                StateView::SendOnHold(id, m, t) => if id == eid {
                    v.reply_sent(m, t, eid)
                } else {
                    (v, Seq::empty())
                },
                _ => (v, Seq::empty()),
            },
        )
    }

    pub open spec fn recv(self, t: Timeout) -> (RepView, Seq<ActionView>) {
        self.with_event(self.received(t))
    }

    /// A request that arrived through `eid`: unless the socket serves a
    /// device, its route is kept to answer it and the user gets its body.
    pub open spec fn on_recv_ack(self, eid: EndpointId, raw: MessageView) -> (RepView, Seq<ActionView>) {
        match routed_in(raw, eid, self.ttl) {
            Some(msg) => self.with_event(
                match self.state {
                    StateView::Receiving(id, t) => if id == eid {
                        let (bt, user_msg) = if self.is_device_item {
                            (self.backtrace, msg)
                        } else {
                            (msg.0, (Seq::<u8>::empty(), msg.1))
                        };
                        let state = if self.is_device_item {
                            StateView::Idle
                        } else {
                            StateView::Active(eid)
                        };
                        (
                            RepView { state, backtrace: bt, ..self },
                            seq![ActionView::Reply(ReplyView::Recv(user_msg))] + cancelled(t),
                        )
                    } else {
                        (self, Seq::empty())
                    },
                    _ => (self, Seq::empty()),
                },
            ),
            None => (self, seq![ActionView::Reply(ReplyView::Error(Failure::RecvMalformed))]),
        }
    }

    pub open spec fn on_recv_timeout(self) -> (RepView, Seq<ActionView>) {
        self.with_event(
            (
                RepView { state: StateView::Idle, ..self },
                seq![ActionView::Reply(ReplyView::Error(Failure::RecvTimedOut))],
            ),
        )
    }

    pub open spec fn on_recv_ready(self, eid: EndpointId) -> (RepView, Seq<ActionView>) {
        let activated = RepView { fq: self.fq.activated(eid), ..self };
        self.with_event(
            match self.state {
                StateView::RecvOnHold(t) => activated.received(t),
                _ => (activated, Seq::empty()),
            },
        )
    }

    pub open spec fn on_pipe_removed(self, eid: EndpointId) -> (RepView, Seq<ActionView>) {
        match self.state {
            StateView::Receiving(id, t) => if id == eid {
                self.received(t)
            } else {
                (self, Seq::empty())
            },
            _ => (self, Seq::empty()),
        }
    }

    pub open spec fn remove_pipe(self, eid: EndpointId) -> (RepView, Seq<ActionView>) {
        let removed = RepView {
            fq: self.fq.removed(eid),
            sd: eid_removed(self.sd, eid),
            pipes: entry_removed(self.pipes, eid),
            ..self
        };
        let outer = self.changes(removed);
        if entry_pipe(self.pipes, eid) is Some {
            let then = removed.with_event(removed.on_pipe_removed(eid));
            (then.0, then.1 + outer)
        } else {
            (removed, outer)
        }
    }
}

impl WithBacktrace for Inner {
    type Rest = (Seq<(EndpointId, Pipe)>, PriolistModel, Seq<EndpointId>, u8, bool);

    closed spec fn route(&self) -> Seq<u8> {
        self.backtrace@
    }

    closed spec fn rest(&self) -> Self::Rest {
        (self.pipes@, self.fq@, self.sd@, self.ttl, self.is_device_item)
    }

    fn get_backtrace(&self) -> (r: &Vec<u8>) {
        &self.backtrace
    }

    fn get_backtrace_mut(&mut self) -> (r: &mut Vec<u8>) {
        &mut self.backtrace
    }
}

pub struct Rep {
    inner: Inner,
    state: Option<State>,
}

impl View for Rep {
    type V = RepView;

    closed spec fn view(&self) -> RepView {
        RepView {
            state: match self.state {
                Some(s) => s@,
                None => StateView::Idle,
            },
            pipes: self.inner.pipes@,
            fq: self.inner.fq@,
            sd: self.inner.sd@,
            ttl: self.inner.ttl,
            backtrace: self.inner.backtrace@,
            is_device_item: self.inner.is_device_item,
        }
    }
}

impl Inner {
    pub closed spec fn view_with(&self, s: StateView) -> RepView {
        RepView {
            state: s,
            pipes: self.pipes@,
            fq: self.fq@,
            sd: self.sd@,
            ttl: self.ttl,
            backtrace: self.backtrace@,
            is_device_item: self.is_device_item,
        }
    }

    pub closed spec fn inv(&self) -> bool {
        &&& self.pipes.inv()
        &&& self.fq.inv()
        &&& self.sd.inv()
    }

    fn send_reply_to(&mut self, ctx: &mut Context, msg: Message, timeout: Timeout, eid: EndpointId) -> (s: State)
        requires
            old(self).inv(),
        ensures
            final(self).inv(),
            ({
                let (w, acts) = old(self).view_with(StateView::Idle).reply_sent(msg@, timeout, eid);
                &&& final(self).view_with(s@) == w
                &&& final(ctx)@ == old(ctx)@ + acts
            }),
            final(ctx).next_timer() == old(ctx).next_timer(),
    {
        self.sd.remove(&eid);
        let copy = msg.clone();
        proof {
            assert(old(ctx)@ + Seq::<ActionView>::empty() =~= old(ctx)@);
        }
        if self.pipes.send_to(ctx, copy, eid).is_some() {
            State::Sending(eid, msg, timeout)
        } else {
            State::SendOnHold(eid, msg, timeout)
        }
    }

    fn recv(&mut self, ctx: &mut Context, timeout: Timeout) -> (s: State)
        requires
            old(self).inv(),
        ensures
            final(self).inv(),
            ({
                let (w, acts) = old(self).view_with(StateView::Idle).received(timeout);
                &&& final(self).view_with(s@) == w
                &&& final(ctx)@ == old(ctx)@ + acts
            }),
            final(ctx).next_timer() == old(ctx).next_timer(),
    {
        if let Some(eid) = fair_queue::recv(&mut self.fq, &mut self.pipes, ctx) {
            State::Receiving(eid, timeout)
        } else {
            State::RecvOnHold(timeout)
        }
    }

    fn is_send_ready_in(&self, state: &State) -> (b: bool)
        ensures
            b == self.view_with(state@).is_send_ready(),
    {
        if self.is_device_item {
            !self.sd.is_empty()
        } else if let State::Active(eid) = state {
            self.sd.contains(eid)
        } else {
            false
        }
    }
}

impl Rep {
    pub closed spec fn inv(&self) -> bool {
        &&& self.state is Some
        &&& self.inner.inv()
    }

    /// A socket with no pipe, waiting for nothing, whose requests may take
    /// eight hops.
    pub open spec fn new_view() -> RepView {
        RepView {
            state: StateView::Idle,
            pipes: Seq::empty(),
            fq: PriolistModel { items: Seq::empty(), current: None },
            sd: Seq::empty(),
            ttl: 8,
            backtrace: Seq::empty(),
            is_device_item: false,
        }
    }

    pub fn new() -> (r: Rep)
        ensures
            r.inv(),
            r@ == Rep::new_view(),
    {
        Rep {
            inner: Inner {
                pipes: PipeCollection::new(),
                fq: Priolist::new(),
                sd: EidSet::new(),
                ttl: 8,
                backtrace: Vec::new(),
                is_device_item: false,
            },
            state: Some(State::Idle),
        }
    }

    pub fn id(&self) -> (id: u16)
        ensures
            id == REP,
    {
        REP
    }

    pub fn peer_id(&self) -> (id: u16)
        ensures
            id == REQ,
    {
        REQ
    }

    fn take_state(&mut self) -> (s: State)
        requires
            old(self).inv(),
        ensures
            s@ == old(self)@.state,
            old(self).inner.view_with(s@) == old(self)@,
            final(self).inner == old(self).inner,
            final(self).state is None,
    {
        match self.state.take() {
            Some(s) => s,
            None => State::Idle,
        }
    }

    /// Puts back the state after a transition and raises the events that
    /// tell the changes of readiness since `was`.
    fn finish(&mut self, ctx: &mut Context, s: State, was_ready: (bool, bool), Ghost(was): Ghost<RepView>)
        requires
            old(self).inner.inv(),
            was_ready.0 == was.is_send_ready(),
            was_ready.1 == was.is_recv_ready(),
        ensures
            final(self).inv(),
            final(self)@ == old(self).inner.view_with(s@),
            final(ctx)@ == old(ctx)@ + was.changes(final(self)@),
            final(ctx).next_timer() == old(ctx).next_timer(),
    {
        let is_send_ready = self.inner.is_send_ready_in(&s);
        let is_recv_ready = self.inner.fq.peek();
        let (was_send_ready, was_recv_ready) = was_ready;
        self.state = Some(s);
        ctx.check_send_ready_change(was_send_ready, is_send_ready);
        ctx.check_recv_ready_change(was_recv_ready, is_recv_ready);
    }

    pub fn add_pipe(&mut self, ctx: &mut Context, eid: EndpointId, pipe: Pipe)
        requires
            old(self).inv(),
            pipe.recv_priority < 255,
        ensures
            final(self).inv(),
            final(self)@ == (RepView {
                fq: old(self)@.fq.inserted(eid, pipe.recv_priority),
                pipes: entry_inserted(old(self)@.pipes, eid, pipe),
                ..old(self)@
            }),
            *final(ctx) == *old(ctx),
    {
        self.inner.fq.insert(eid, pipe.get_recv_priority());
        self.inner.pipes.insert(eid, pipe);
    }

    pub fn remove_pipe(&mut self, ctx: &mut Context, eid: EndpointId) -> (r: Option<Pipe>)
        requires
            old(self).inv(),
        ensures
            final(self).inv(),
            r == entry_pipe(old(self)@.pipes, eid),
            final(self)@ == old(self)@.remove_pipe(eid).0,
            final(ctx)@ == old(ctx)@ + old(self)@.remove_pipe(eid).1,
            final(ctx).next_timer() == old(ctx).next_timer(),
    {
        let was_send_ready = self.is_send_ready();
        let was_recv_ready = self.is_recv_ready();
        self.inner.fq.remove(&eid);
        self.inner.sd.remove(&eid);
        let pipe = self.inner.pipes.remove(&eid);
        let is_send_ready = self.is_send_ready();
        let is_recv_ready = self.is_recv_ready();

        if pipe.is_some() {
            let ghost was = self@;
        let was_ready = (self.is_send_ready(), self.is_recv_ready());
            let s = self.take_state();
            proof {
                assert(old(ctx)@ + Seq::<ActionView>::empty() =~= old(ctx)@);
            }
            let s = match s {
                State::Receiving(id, timeout) => {
                    if id == eid {
                        self.inner.recv(ctx, timeout)
                    } else {
                        State::Receiving(id, timeout)
                    }
                },
                any => any,
            };
            self.finish(ctx, s, was_ready, Ghost(was));
        }

        ctx.check_send_ready_change(was_send_ready, is_send_ready);
        ctx.check_recv_ready_change(was_recv_ready, is_recv_ready);
        proof {
            assert(ctx@ =~= old(ctx)@ + old(self)@.remove_pipe(eid).1);
        }
        pipe
    }

    pub fn send(&mut self, ctx: &mut Context, msg: Message, timeout: Timeout)
        requires
            old(self).inv(),
        ensures
            final(self).inv(),
            final(self)@ == old(self)@.send(msg@, timeout).0,
            final(ctx)@ == old(ctx)@ + old(self)@.send(msg@, timeout).1,
            final(ctx).next_timer() == old(ctx).next_timer(),
    {
        if let Some((raw_msg, eid)) = msg_to_raw_msg(msg, self.inner.get_backtrace(), self.inner.is_device_item) {
            let ghost was = self@;
        let was_ready = (self.is_send_ready(), self.is_recv_ready());
            let s = self.take_state();
            let is_device_item = self.inner.is_device_item;
            let is_active = match s {
                State::Active(_) => true,
                _ => false,
            };
            let ready_to = self.inner.sd.contains(&eid);
            proof {
                assert(old(ctx)@ + Seq::<ActionView>::empty() =~= old(ctx)@);
            }
            let s = if is_device_item || is_active {
                if ready_to {
                    self.inner.send_reply_to(ctx, raw_msg, timeout, eid)
                } else if is_device_item {
                    ctx.reply(Reply::Send);
                    ctx.cancel_timeout(timeout);
                    proof {
                        assert(ctx@ =~= old(ctx)@ + (seq![ActionView::Reply(ReplyView::Send)] + cancelled(timeout)));
                    }
                    State::Idle
                } else {
                    State::SendOnHold(eid, raw_msg, timeout)
                }
            } else {
                ctx.reply(Reply::Error(Failure::SendWithoutPending));
                ctx.cancel_timeout(timeout);
                proof {
                    assert(ctx@ =~= old(ctx)@ + (seq![ActionView::Reply(ReplyView::Error(Failure::SendWithoutPending))]
                        + cancelled(timeout)));
                }
                State::Idle
            };
            self.finish(ctx, s, was_ready, Ghost(was));
            proof {
                assert(ctx@ =~= old(ctx)@ + old(self)@.send(msg@, timeout).1);
            }
        } else {
            ctx.reply(Reply::Error(Failure::SendWithoutRoute));
            ctx.cancel_timeout(timeout);
            proof {
                assert(ctx@ =~= old(ctx)@ + old(self)@.send(msg@, timeout).1);
            }
        }
    }

    pub fn on_send_ack(&mut self, ctx: &mut Context, eid: EndpointId)
        requires
            old(self).inv(),
        ensures
            final(self).inv(),
            final(self)@ == old(self)@.on_send_ack(eid).0,
            final(ctx)@ == old(ctx)@ + old(self)@.on_send_ack(eid).1,
            final(ctx).next_timer() == old(ctx).next_timer(),
    {
        self.inner.clear_backtrace();
        let ghost was = self@;
        let was_ready = (self.is_send_ready(), self.is_recv_ready());
        let s = self.take_state();
        proof {
            assert(old(ctx)@ + Seq::<ActionView>::empty() =~= old(ctx)@);
        }
        let s = match s {
            State::Sending(id, msg, timeout) => {
                if id == eid {
                    ctx.reply(Reply::Send);
                    ctx.cancel_timeout(timeout);
                    proof {
                        assert(ctx@ =~= old(ctx)@ + (seq![ActionView::Reply(ReplyView::Send)] + cancelled(timeout)));
                    }
                    State::Idle
                } else {
                    State::Sending(id, msg, timeout)
                }
            },
            any => any,
        };
        self.finish(ctx, s, was_ready, Ghost(was));
        proof {
            assert(was =~= (RepView { backtrace: Seq::empty(), ..old(self)@ }));
            assert(ctx@ =~= old(ctx)@ + old(self)@.on_send_ack(eid).1);
        }
    }

    pub fn on_send_timeout(&mut self, ctx: &mut Context)
        requires
            old(self).inv(),
        ensures
            final(self).inv(),
            final(self)@ == old(self)@.on_send_timeout().0,
            final(ctx)@ == old(ctx)@ + old(self)@.on_send_timeout().1,
            final(ctx).next_timer() == old(ctx).next_timer(),
    {
        let ghost was = self@;
        let was_ready = (self.is_send_ready(), self.is_recv_ready());
        let _ = self.take_state();
        ctx.reply(Reply::Error(Failure::SendTimedOut));
        self.finish(ctx, State::Idle, was_ready, Ghost(was));
        proof {
            assert(ctx@ =~= old(ctx)@ + old(self)@.on_send_timeout().1);
        }
    }

    pub fn on_send_ready(&mut self, ctx: &mut Context, eid: EndpointId)
        requires
            old(self).inv(),
        ensures
            final(self).inv(),
            final(self)@ == old(self)@.on_send_ready(eid).0,
            final(ctx)@ == old(ctx)@ + old(self)@.on_send_ready(eid).1,
            final(ctx).next_timer() == old(ctx).next_timer(),
    {
        let ghost was = self@;
        let was_ready = (self.is_send_ready(), self.is_recv_ready());
        let s = self.take_state();
        self.inner.sd.insert(eid);
        proof {
            assert(old(ctx)@ + Seq::<ActionView>::empty() =~= old(ctx)@);
        }
        let s = match s {
            State::SendOnHold(id, msg, timeout) => {
                if id == eid {
                    self.inner.send_reply_to(ctx, msg, timeout, eid)
                } else {
                    State::SendOnHold(id, msg, timeout)
                }
            },
            any => any,
        };
        self.finish(ctx, s, was_ready, Ghost(was));
        proof {
            assert(ctx@ =~= old(ctx)@ + old(self)@.on_send_ready(eid).1);
        }
    }

    pub fn recv(&mut self, ctx: &mut Context, timeout: Timeout)
        requires
            old(self).inv(),
        ensures
            final(self).inv(),
            final(self)@ == old(self)@.recv(timeout).0,
            final(ctx)@ == old(ctx)@ + old(self)@.recv(timeout).1,
            final(ctx).next_timer() == old(ctx).next_timer(),
    {
        let ghost was = self@;
        let was_ready = (self.is_send_ready(), self.is_recv_ready());
        let _ = self.take_state();
        let s = self.inner.recv(ctx, timeout);
        self.finish(ctx, s, was_ready, Ghost(was));
        proof {
            assert(ctx@ =~= old(ctx)@ + old(self)@.recv(timeout).1);
        }
    }

    pub fn on_recv_ack(&mut self, ctx: &mut Context, eid: EndpointId, raw_msg: Message)
        requires
            old(self).inv(),
        ensures
            final(self).inv(),
            final(self)@ == old(self)@.on_recv_ack(eid, raw_msg@).0,
            final(ctx)@ == old(ctx)@ + old(self)@.on_recv_ack(eid, raw_msg@).1,
            final(ctx).next_timer() == old(ctx).next_timer(),
    {
        if let Some(msg) = raw_msg_to_msg(raw_msg, eid, self.inner.ttl) {
            let ghost was = self@;
        let was_ready = (self.is_send_ready(), self.is_recv_ready());
            let ghost m = msg@;
            let s = self.take_state();
            proof {
                assert(old(ctx)@ + Seq::<ActionView>::empty() =~= old(ctx)@);
            }
            let s = match s {
                State::Receiving(id, timeout) => {
                    if id == eid {
                        let mut msg = msg;
                        if !self.inner.is_device_item {
                            self.inner.set_backtrace(msg.header.as_slice());
                            msg.header.clear();
                            proof {
                                assert(self.inner.backtrace@ =~= m.0);
                                assert(msg@ =~= (Seq::<u8>::empty(), m.1));
                            }
                        }
                        let ghost um = msg@;
                        ctx.reply(Reply::Recv(msg));
                        ctx.cancel_timeout(timeout);
                        proof {
                            assert(ctx@ =~= old(ctx)@ + (seq![ActionView::Reply(ReplyView::Recv(um))] + cancelled(timeout)));
                        }
                        if self.inner.is_device_item {
                            State::Idle
                        } else {
                            State::Active(eid)
                        }
                    } else {
                        State::Receiving(id, timeout)
                    }
                },
                any => any,
            };
            self.finish(ctx, s, was_ready, Ghost(was));
            proof {
                assert(ctx@ =~= old(ctx)@ + old(self)@.on_recv_ack(eid, raw_msg@).1);
            }
        } else {
            ctx.reply(Reply::Error(Failure::RecvMalformed));
        }
    }

    pub fn on_recv_timeout(&mut self, ctx: &mut Context)
        requires
            old(self).inv(),
        ensures
            final(self).inv(),
            final(self)@ == old(self)@.on_recv_timeout().0,
            final(ctx)@ == old(ctx)@ + old(self)@.on_recv_timeout().1,
            final(ctx).next_timer() == old(ctx).next_timer(),
    {
        let ghost was = self@;
        let was_ready = (self.is_send_ready(), self.is_recv_ready());
        let _ = self.take_state();
        ctx.reply(Reply::Error(Failure::RecvTimedOut));
        self.finish(ctx, State::Idle, was_ready, Ghost(was));
        proof {
            assert(ctx@ =~= old(ctx)@ + old(self)@.on_recv_timeout().1);
        }
    }

    pub fn on_recv_ready(&mut self, ctx: &mut Context, eid: EndpointId)
        requires
            old(self).inv(),
        ensures
            final(self).inv(),
            final(self)@ == old(self)@.on_recv_ready(eid).0,
            final(ctx)@ == old(ctx)@ + old(self)@.on_recv_ready(eid).1,
            final(ctx).next_timer() == old(ctx).next_timer(),
    {
        let ghost was = self@;
        let was_ready = (self.is_send_ready(), self.is_recv_ready());
        let s = self.take_state();
        self.inner.fq.activate(&eid);
        let s = match s {
            State::RecvOnHold(timeout) => self.inner.recv(ctx, timeout),
            any => {
                proof {
                    assert(ctx@ =~= old(ctx)@ + Seq::<ActionView>::empty());
                }
                any
            },
        };
        self.finish(ctx, s, was_ready, Ghost(was));
        proof {
            assert(ctx@ =~= old(ctx)@ + old(self)@.on_recv_ready(eid).1);
        }
    }

    /// From now on the socket serves a device: requests keep their route in
    /// their header and replies are routed by their own header.
    pub fn on_device_plugged(&mut self, ctx: &mut Context)
        requires
            old(self).inv(),
        ensures
            final(self).inv(),
            final(self)@ == (RepView { is_device_item: true, ..old(self)@ }),
            *final(ctx) == *old(ctx),
    {
        self.inner.is_device_item = true;
    }

    pub fn is_send_ready(&self) -> (b: bool)
        requires
            self.inv(),
        ensures
            b == self@.is_send_ready(),
    {
        match &self.state {
            Some(s) => self.inner.is_send_ready_in(s),
            None => false,
        }
    }

    pub fn is_recv_ready(&self) -> (b: bool)
        ensures
            b == self@.is_recv_ready(),
    {
        self.inner.fq.peek()
    }

    /// The route of the request being answered.
    pub fn get_backtrace(&self) -> (bt: &Vec<u8>)
        ensures
            bt@ == self@.backtrace,
    {
        self.inner.get_backtrace()
    }

    /// Whether a receive waits for a pipe to become readable.
    pub(crate) fn is_recv_on_hold(&self) -> (b: bool)
        ensures
            b == (self@.state is RecvOnHold),
    {
        match &self.state {
            Some(State::RecvOnHold(_)) => true,
            _ => false,
        }
    }

    /// Closes every pipe.
    pub fn close(&mut self, ctx: &mut Context)
        requires
            old(self).inv(),
        ensures
            final(self).inv(),
            final(self)@ == (RepView { pipes: Seq::empty(), ..old(self)@ }),
            final(ctx)@ == old(ctx)@ + closed_all(old(self)@.pipes),
            final(ctx).next_timer() == old(ctx).next_timer(),
    {
        self.inner.pipes.close_all(ctx)
    }
}

/// A reply goes only to the endpoint that its route names: sending it
/// records no send but to that endpoint, with the reply as routed, and a
/// reply newly put on hold waits for that endpoint; a pipe becoming ready takes a
/// held reply only when it is that endpoint, and any other leaves the reply
/// on hold and sends nothing.
pub proof fn lemma_reply_goes_to_requester(v: RepView, msg: MessageView, t: Timeout, eid: EndpointId)
    ensures
        ({
            let (w, acts) = v.send(msg, t);
            let route = routed_out(msg, v.backtrace, v.is_device_item);
            &&& forall|i: int|
                0 <= i < acts.len() && #[trigger] acts[i] is Send ==> route is Some && acts[i] == ActionView::Send(
                    (route->0).1,
                    (route->0).0,
                )
            &&& (w.state is SendOnHold && w.state != v.state) ==> route is Some && w.state->SendOnHold_0 == (
            route->0).1 && w.state->SendOnHold_1 == (route->0).0
        }),
        ({
            let (w, acts) = v.on_send_ready(eid);
            &&& forall|i: int|
                0 <= i < acts.len() && #[trigger] acts[i] is Send ==> v.state is SendOnHold && acts[i]
                    == ActionView::Send(v.state->SendOnHold_0, v.state->SendOnHold_1)
            &&& (v.state is SendOnHold && v.state->SendOnHold_0 != eid) ==> w.state == v.state
        }),
{
    match routed_out(msg, v.backtrace, v.is_device_item) {
        Some((raw, e)) => {
            let step = v.state_send(raw, t, e);
            lemma_changes_only_raise(v.is_send_ready(), step.0.is_send_ready(), v.is_recv_ready(), step.0.is_recv_ready());
            let acts = v.send(msg, t).1;
            assert forall|i: int| 0 <= i < acts.len() && #[trigger] acts[i] is Send implies acts[i] == ActionView::Send(e, raw) by {
                if i >= step.1.len() {
                    assert(acts[i] == v.changes(step.0)[i - step.1.len()]);
                } else {
                    assert(acts[i] == step.1[i]);
                }
            }
        },
        None => {
            let acts = v.send(msg, t).1;
            assert forall|i: int| 0 <= i < acts.len() implies !(#[trigger] acts[i] is Send) by {
                if i > 0 {
                    assert(acts[i] == cancelled(t)[i - 1]);
                }
            }
        },
    }
    let ready = RepView { sd: eid_inserted(v.sd, eid), ..v };
    let step = match v.state {
        StateView::SendOnHold(id, m, t2) => if id == eid {
            ready.reply_sent(m, t2, eid)
        } else {
            (ready, Seq::empty())
        },
        _ => (ready, Seq::<ActionView>::empty()),
    };
    lemma_changes_only_raise(v.is_send_ready(), step.0.is_send_ready(), v.is_recv_ready(), step.0.is_recv_ready());
    let acts = v.on_send_ready(eid).1;
    assert(acts == step.1 + v.changes(step.0));
    assert forall|i: int| 0 <= i < acts.len() && #[trigger] acts[i] is Send implies v.state is SendOnHold && acts[i]
        == ActionView::Send(v.state->SendOnHold_0, v.state->SendOnHold_1) by {
        if i >= step.1.len() {
            assert(acts[i] == v.changes(step.0)[i - step.1.len()]);
        } else {
            assert(acts[i] == step.1[i]);
        }
    }
}

} // verus!
