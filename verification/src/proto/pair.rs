//! PAIR: talks to a single peer; a second pipe is closed as soon as it is
//! added.
use vstd::prelude::*;

use crate::common::{ActionView, EndpointId, Event, Failure, Message, MessageView, Reply, ReplyView, Timeout};
use crate::context::{cancelled, Context};
use crate::proto::pipes::Pipe;
use crate::proto::PAIR;

verus! {

pub enum State {
    Idle,
    Sending(EndpointId, Message, Timeout),
    SendOnHold(Message, Timeout),
    Receiving(EndpointId, Timeout),
    RecvOnHold(Timeout),
}

pub enum StateView {
    Idle,
    Sending(EndpointId, MessageView, Timeout),
    SendOnHold(MessageView, Timeout),
    Receiving(EndpointId, Timeout),
    RecvOnHold(Timeout),
}

impl View for State {
    type V = StateView;

    open spec fn view(&self) -> StateView {
        match self {
            State::Idle => StateView::Idle,
            State::Sending(e, m, t) => StateView::Sending(*e, m@, *t),
            State::SendOnHold(m, t) => StateView::SendOnHold(m@, *t),
            State::Receiving(e, t) => StateView::Receiving(*e, *t),
            State::RecvOnHold(t) => StateView::RecvOnHold(*t),
        }
    }
}

pub struct Inner {
    pipe: Option<(EndpointId, Pipe)>,
    send_ready: bool,
    recv_ready: bool,
}

/// A PAIR socket seen as its state, its pipe and whether that pipe can send
/// and receive.
pub struct PairView {
    pub state: StateView,
    pub pipe: Option<(EndpointId, Pipe)>,
    pub send_ready: bool,
    pub recv_ready: bool,
}

impl PairView {
    pub open spec fn pipe_is(self, eid: EndpointId) -> bool {
        self.pipe matches Some((id, _)) && id == eid
    }

    /// Sending from any state: through the pipe when it can take it, else
    /// waiting.
    pub open spec fn sent(self, msg: MessageView, t: Timeout) -> (PairView, Seq<ActionView>) {
        if !self.send_ready {
            (PairView { state: StateView::SendOnHold(msg, t), ..self }, Seq::empty())
        } else {
            match self.pipe {
                Some((eid, _)) => (
                    PairView { state: StateView::Sending(eid, msg, t), send_ready: false, ..self },
                    seq![ActionView::Send(eid, msg)],
                ),
                None => (PairView { state: StateView::SendOnHold(msg, t), send_ready: false, ..self }, Seq::empty()),
            }
        }
    }

    /// Receiving from any state: through the pipe when it has a message,
    /// else waiting.
    pub open spec fn received(self, t: Timeout) -> (PairView, Seq<ActionView>) {
        if !self.recv_ready {
            (PairView { state: StateView::RecvOnHold(t), ..self }, Seq::empty())
        } else {
            match self.pipe {
                Some((eid, _)) => (
                    PairView { state: StateView::Receiving(eid, t), recv_ready: false, ..self },
                    seq![ActionView::Recv(eid)],
                ),
                None => (PairView { state: StateView::RecvOnHold(t), recv_ready: false, ..self }, Seq::empty()),
            }
        }
    }

    pub open spec fn on_send_ack(self, eid: EndpointId) -> (PairView, Seq<ActionView>) {
        match self.state {
            StateView::Sending(id, m, t) => if id == eid {
                (PairView { state: StateView::Idle, ..self }, seq![ActionView::Reply(ReplyView::Send)] + cancelled(t))
            } else {
                (self, Seq::empty())
            },
            _ => (self, Seq::empty()),
        }
    }

    pub open spec fn on_send_ready(self, eid: EndpointId) -> (PairView, Seq<ActionView>) {
        let w = if self.pipe_is(eid) {
            PairView { send_ready: true, ..self }
        } else {
            self
        };
        match self.state {
            StateView::SendOnHold(m, t) => w.sent(m, t),
            _ => (w, Seq::empty()),
        }
    }

    pub open spec fn on_recv_ack(self, eid: EndpointId, msg: MessageView) -> (PairView, Seq<ActionView>) {
        match self.state {
            StateView::Receiving(id, t) => if id == eid {
                (PairView { state: StateView::Idle, ..self }, seq![ActionView::Reply(ReplyView::Recv(msg))] + cancelled(t))
            } else {
                (self, Seq::empty())
            },
            _ => (self, Seq::empty()),
        }
    }

    /// The pipe can receive: a waiting receive starts, otherwise the socket
    /// is told that it can receive.
    pub open spec fn on_recv_ready(self, eid: EndpointId) -> (PairView, Seq<ActionView>) {
        let w = if self.pipe_is(eid) {
            PairView { recv_ready: true, ..self }
        } else {
            self
        };
        match self.state {
            StateView::RecvOnHold(t) => w.received(t),
            _ => (w, seq![ActionView::Raise(Event::CanRecv(true))]),
        }
    }

    pub open spec fn on_pipe_removed(self, eid: EndpointId) -> StateView {
        match self.state {
            StateView::Sending(id, m, t) => if id == eid {
                StateView::SendOnHold(m, t)
            } else {
                self.state
            },
            StateView::Receiving(id, t) => if id == eid {
                StateView::RecvOnHold(t)
            } else {
                self.state
            },
            _ => self.state,
        }
    }
}

pub struct Pair {
    inner: Inner,
    state: Option<State>,
}

impl View for Pair {
    type V = PairView;

    closed spec fn view(&self) -> PairView {
        PairView {
            state: match self.state {
                Some(s) => s@,
                None => StateView::Idle,
            },
            pipe: self.inner.pipe,
            send_ready: self.inner.send_ready,
            recv_ready: self.inner.recv_ready,
        }
    }
}

impl Pair {
    pub closed spec fn inv(&self) -> bool {
        self.state is Some
    }

    pub fn new() -> (p: Pair)
        ensures
            p.inv(),
            p@ == (PairView { state: StateView::Idle, pipe: None, send_ready: false, recv_ready: false }),
    {
        Pair { inner: Inner { pipe: None, send_ready: false, recv_ready: false }, state: Some(State::Idle) }
    }

    pub fn id(&self) -> (id: u16)
        ensures
            id == PAIR,
    {
        PAIR
    }

    pub fn peer_id(&self) -> (id: u16)
        ensures
            id == PAIR,
    {
        PAIR
    }

    fn take_state(&mut self) -> (s: State)
        requires
            old(self).inv(),
        ensures
            s@ == old(self)@.state,
            final(self).inner == old(self).inner,
            final(self).state is None,
    {
        match self.state.take() {
            Some(s) => s,
            None => State::Idle,
        }
    }

    /// Keeps the first pipe; any other one is closed.
    pub fn add_pipe(&mut self, ctx: &mut Context, eid: EndpointId, pipe: Pipe)
        ensures
            final(self).inv() == old(self).inv(),
            final(ctx).next_timer() == old(ctx).next_timer(),
            old(self)@.pipe is None ==> final(self)@ == (PairView { pipe: Some((eid, pipe)), ..old(self)@ })
                && final(ctx)@ == old(ctx)@,
            old(self)@.pipe is Some ==> final(self)@ == old(self)@ && final(ctx)@ == old(ctx)@.push(
                ActionView::Close(pipe.id),
            ),
    {
        if self.inner.pipe.is_none() {
            self.inner.pipe = Some((eid, pipe));
        } else {
            pipe.close(ctx);
        }
    }

    /// Hands back the pipe when it is the one of `eid`.
    pub fn remove_pipe(&mut self, ctx: &mut Context, eid: EndpointId) -> (r: Option<Pipe>)
        requires
            old(self).inv(),
        ensures
            final(self).inv(),
            old(self)@.pipe_is(eid) ==> r == Some(old(self)@.pipe.unwrap().1) && final(self)@ == (PairView {
                pipe: None,
                state: old(self)@.on_pipe_removed(eid),
                ..old(self)@
            }),
            !old(self)@.pipe_is(eid) ==> r is None && final(self)@ == old(self)@,
            *final(ctx) == *old(ctx),
    {
        if let Some((id, pipe)) = self.inner.pipe.take() {
            if id == eid {
                let s = self.take_state();
                let s = match s {
                    State::Sending(id, msg, timeout) => {
                        if id == eid {
                            State::SendOnHold(msg, timeout)
                        } else {
                            State::Sending(id, msg, timeout)
                        }
                    },
                    State::Receiving(id, timeout) => {
                        if id == eid {
                            State::RecvOnHold(timeout)
                        } else {
                            State::Receiving(id, timeout)
                        }
                    },
                    any => any,
                };
                self.state = Some(s);
                return Some(pipe);
            } else {
                self.inner.pipe = Some((id, pipe));
            }
        }
        None
    }

    pub fn send(&mut self, ctx: &mut Context, msg: Message, timeout: Timeout)
        requires
            old(self).inv(),
        ensures
            final(self).inv(),
            final(self)@ == old(self)@.sent(msg@, timeout).0,
            final(ctx)@ == old(ctx)@ + old(self)@.sent(msg@, timeout).1,
            final(ctx).next_timer() == old(ctx).next_timer(),
    {
        let _ = self.take_state();
        let s = self.send_from_idle(ctx, msg, timeout);
        self.state = Some(s);
    }

    fn send_from_idle(&mut self, ctx: &mut Context, msg: Message, timeout: Timeout) -> (s: State)
        ensures
            final(self).state == old(self).state,
            ({
                let v = PairView { state: StateView::Idle, ..old(self)@ };
                let (w, acts) = v.sent(msg@, timeout);
                &&& s@ == w.state
                &&& final(self).inner.pipe == w.pipe
                &&& final(self).inner.send_ready == w.send_ready
                &&& final(self).inner.recv_ready == w.recv_ready
                &&& final(ctx)@ == old(ctx)@ + acts
            }),
            final(ctx).next_timer() == old(ctx).next_timer(),
    {
        proof {
            assert(old(ctx)@ + Seq::<ActionView>::empty() =~= old(ctx)@);
        }
        if self.inner.send_ready == false {
            return State::SendOnHold(msg, timeout);
        }
        self.inner.send_ready = false;
        match self.inner.pipe {
            Some((eid, _)) => {
                let copy = msg.clone();
                ctx.record(crate::common::Action::Send(eid, copy));
                State::Sending(eid, msg, timeout)
            },
            None => State::SendOnHold(msg, timeout),
        }
    }

    fn recv_from_idle(&mut self, ctx: &mut Context, timeout: Timeout) -> (s: State)
        ensures
            final(self).state == old(self).state,
            ({
                let v = PairView { state: StateView::Idle, ..old(self)@ };
                let (w, acts) = v.received(timeout);
                &&& s@ == w.state
                &&& final(self).inner.pipe == w.pipe
                &&& final(self).inner.send_ready == w.send_ready
                &&& final(self).inner.recv_ready == w.recv_ready
                &&& final(ctx)@ == old(ctx)@ + acts
            }),
            final(ctx).next_timer() == old(ctx).next_timer(),
    {
        proof {
            assert(old(ctx)@ + Seq::<ActionView>::empty() =~= old(ctx)@);
        }
        if self.inner.recv_ready == false {
            return State::RecvOnHold(timeout);
        }
        self.inner.recv_ready = false;
        match self.inner.pipe {
            Some((eid, _)) => {
                ctx.record(crate::common::Action::Recv(eid));
                State::Receiving(eid, timeout)
            },
            None => State::RecvOnHold(timeout),
        }
    }

    pub fn on_send_ack(&mut self, ctx: &mut Context, eid: EndpointId)
        requires
            old(self).inv(),
        ensures
            final(self).inv(),
            final(self)@ == old(self)@.on_send_ack(eid).0,
            final(ctx)@ == old(ctx)@ + old(self)@.on_send_ack(eid).1,
            final(ctx).next_timer() == old(ctx).next_timer(),
    {
        proof {
            assert(old(ctx)@ + Seq::<ActionView>::empty() =~= old(ctx)@);
        }
        let s = self.take_state();
        let s = match s {
            State::Sending(id, msg, timeout) => {
                if id == eid {
                    ctx.reply(Reply::Send);
                    ctx.cancel_timeout(timeout);
                    proof {
                        assert(ctx@ =~= old(ctx)@ + (seq![ActionView::Reply(ReplyView::Send)] + cancelled(timeout)));
                    }
                    State::Idle
                } else {
                    State::Sending(id, msg, timeout)
                }
            },
            any => any,
        };
        self.state = Some(s);
    }

    pub fn on_send_timeout(&mut self, ctx: &mut Context)
        requires
            old(self).inv(),
        ensures
            final(self).inv(),
            final(self)@ == (PairView { state: StateView::Idle, ..old(self)@ }),
            final(ctx)@ == old(ctx)@.push(ActionView::Reply(ReplyView::Error(Failure::SendTimedOut))),
            final(ctx).next_timer() == old(ctx).next_timer(),
    {
        let _ = self.take_state();
        ctx.reply(Reply::Error(Failure::SendTimedOut));
        self.state = Some(State::Idle);
    }

    pub fn on_send_ready(&mut self, ctx: &mut Context, eid: EndpointId)
        requires
            old(self).inv(),
        ensures
            final(self).inv(),
            final(self)@ == old(self)@.on_send_ready(eid).0,
            final(ctx)@ == old(ctx)@ + old(self)@.on_send_ready(eid).1,
            final(ctx).next_timer() == old(ctx).next_timer(),
    {
        proof {
            assert(old(ctx)@ + Seq::<ActionView>::empty() =~= old(ctx)@);
        }
        let s = self.take_state();
        if let Some((id, _)) = self.inner.pipe {
            if id == eid {
                self.inner.send_ready = true;
            }
        }
        let s = match s {
            State::SendOnHold(msg, timeout) => self.send_from_idle(ctx, msg, timeout),
            any => any,
        };
        self.state = Some(s);
    }

    pub fn recv(&mut self, ctx: &mut Context, timeout: Timeout)
        requires
            old(self).inv(),
        ensures
            final(self).inv(),
            final(self)@ == old(self)@.received(timeout).0,
            final(ctx)@ == old(ctx)@ + old(self)@.received(timeout).1,
            final(ctx).next_timer() == old(ctx).next_timer(),
    {
        let _ = self.take_state();
        let s = self.recv_from_idle(ctx, timeout);
        self.state = Some(s);
    }

    pub fn on_recv_ack(&mut self, ctx: &mut Context, eid: EndpointId, msg: Message)
        requires
            old(self).inv(),
        ensures
            final(self).inv(),
            final(self)@ == old(self)@.on_recv_ack(eid, msg@).0,
            final(ctx)@ == old(ctx)@ + old(self)@.on_recv_ack(eid, msg@).1,
            final(ctx).next_timer() == old(ctx).next_timer(),
    {
        proof {
            assert(old(ctx)@ + Seq::<ActionView>::empty() =~= old(ctx)@);
        }
        let ghost m = msg@;
        let s = self.take_state();
        let s = match s {
            State::Receiving(id, timeout) => {
                if id == eid {
                    ctx.reply(Reply::Recv(msg));
                    ctx.cancel_timeout(timeout);
                    proof {
                        assert(ctx@ =~= old(ctx)@ + (seq![ActionView::Reply(ReplyView::Recv(m))] + cancelled(timeout)));
                    }
                    State::Idle
                } else {
                    State::Receiving(id, timeout)
                }
            },
            any => any,
        };
        self.state = Some(s);
    }

    pub fn on_recv_timeout(&mut self, ctx: &mut Context)
        requires
            old(self).inv(),
        ensures
            final(self).inv(),
            final(self)@ == (PairView { state: StateView::Idle, ..old(self)@ }),
            final(ctx)@ == old(ctx)@.push(ActionView::Reply(ReplyView::Error(Failure::RecvTimedOut))),
            final(ctx).next_timer() == old(ctx).next_timer(),
    {
        let _ = self.take_state();
        ctx.reply(Reply::Error(Failure::RecvTimedOut));
        self.state = Some(State::Idle);
    }

    pub fn on_recv_ready(&mut self, ctx: &mut Context, eid: EndpointId)
        requires
            old(self).inv(),
        ensures
            final(self).inv(),
            final(self)@ == old(self)@.on_recv_ready(eid).0,
            final(ctx)@ == old(ctx)@ + old(self)@.on_recv_ready(eid).1,
            final(ctx).next_timer() == old(ctx).next_timer(),
    {
        let s = self.take_state();
        if let Some((id, _)) = self.inner.pipe {
            if id == eid {
                self.inner.recv_ready = true;
            }
        }
        let s = match s {
            State::RecvOnHold(timeout) => self.recv_from_idle(ctx, timeout),
            any => {
                ctx.raise(Event::CanRecv(true));
                proof {
                    assert(ctx@ =~= old(ctx)@ + seq![ActionView::Raise(Event::CanRecv(true))]);
                }
                any
            },
        };
        self.state = Some(s);
    }

    /// Closes the pipe, if there is one, and forgets it.
    pub fn close(&mut self, ctx: &mut Context)
        ensures
            final(self).inv() == old(self).inv(),
            final(self)@ == (PairView { pipe: None, ..old(self)@ }),
            final(ctx).next_timer() == old(ctx).next_timer(),
            old(self)@.pipe matches Some((_, p)) ==> final(ctx)@ == old(ctx)@.push(ActionView::Close(p.id)),
            old(self)@.pipe is None ==> final(ctx)@ == old(ctx)@,
    {
        if let Some((_, pipe)) = self.inner.pipe.take() {
            pipe.close(ctx);
        }
    }
}

} // verus!
