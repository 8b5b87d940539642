//! PUSH: sends each message to one of the peers that can take it, picked by
//! priority and in turn; receiving is not supported.
use vstd::prelude::*;

use crate::common::{ActionView, EndpointId, Failure, Message, MessageView, Reply, ReplyView, Timeout};
use crate::context::{cancelled, send_change, Context};
use crate::proto::pipes::{entry_inserted, entry_pipe, entry_removed, has_entry, Pipe, PipeCollection};
use crate::proto::policy::load_balancing::{self, lb_sent};
use crate::proto::priolist::{Priolist, PriolistModel};
use crate::proto::{PULL, PUSH};

verus! {

pub enum State {
    Idle,
    Sending(EndpointId, Message, Timeout),
    SendOnHold(Message, Timeout),
}

pub enum StateView {
    Idle,
    Sending(EndpointId, MessageView, Timeout),
    SendOnHold(MessageView, Timeout),
}

impl View for State {
    type V = StateView;

    open spec fn view(&self) -> StateView {
        match self {
            State::Idle => StateView::Idle,
            State::Sending(e, m, t) => StateView::Sending(*e, m@, *t),
            State::SendOnHold(m, t) => StateView::SendOnHold(m@, *t),
        }
    }
}

pub struct Inner {
    pipes: PipeCollection,
    lb: Priolist,
}

/// A PUSH socket seen as its state, its pipes and its load-balancing list.
pub struct PushView {
    pub state: StateView,
    pub pipes: Seq<(EndpointId, Pipe)>,
    pub lb: PriolistModel,
}

impl PushView {
    pub open spec fn is_send_ready(self) -> bool {
        self.lb.has_current()
    }

    /// Sending `msg` from any state: it goes to the next pipe of the list or
    /// waits for one.
    pub open spec fn sent(self, msg: MessageView, t: Timeout) -> (PushView, Seq<ActionView>) {
        let (e, lb, acts) = lb_sent(self.lb, self.pipes, msg);
        let state = match e {
            Some(eid) => StateView::Sending(eid, msg, t),
            None => StateView::SendOnHold(msg, t),
        };
        (PushView { state, lb, ..self }, acts)
    }

    /// A transition, followed by the event that tells a change of the
    /// ability to send.
    pub open spec fn with_event(self, step: (PushView, Seq<ActionView>)) -> (PushView, Seq<ActionView>) {
        (step.0, step.1 + send_change(self.is_send_ready(), step.0.is_send_ready()))
    }

    pub open spec fn send(self, msg: MessageView, t: Timeout) -> (PushView, Seq<ActionView>) {
        self.with_event(self.sent(msg, t))
    }

    pub open spec fn on_send_ack(self, eid: EndpointId) -> (PushView, Seq<ActionView>) {
        self.with_event(
            match self.state {
                StateView::Sending(id, m, t) => if id == eid {
                    (PushView { state: StateView::Idle, ..self }, seq![ActionView::Reply(ReplyView::Send)] + cancelled(t))
                } else {
                    (self, Seq::empty())
                },
                _ => (self, Seq::empty()),
            },
        )
    }

    pub open spec fn on_send_timeout(self) -> (PushView, Seq<ActionView>) {
        self.with_event(
            (
                PushView { state: StateView::Idle, ..self },
                seq![ActionView::Reply(ReplyView::Error(Failure::SendTimedOut))],
            ),
        )
    }

    pub open spec fn on_send_ready(self, eid: EndpointId) -> (PushView, Seq<ActionView>) {
        let activated = PushView { lb: self.lb.activated(eid), ..self };
        self.with_event(
            match self.state {
                StateView::SendOnHold(m, t) => activated.sent(m, t),
                _ => (activated, Seq::empty()),
            },
        )
    }

    pub open spec fn recv(self, t: Timeout) -> (PushView, Seq<ActionView>) {
        (self, seq![ActionView::Reply(ReplyView::Error(Failure::RecvNotSupported))] + cancelled(t))
    }

    /// After the pipe of `eid` is gone, a send that went through it is sent
    /// again.
    pub open spec fn on_pipe_removed(self, eid: EndpointId) -> (PushView, Seq<ActionView>) {
        match self.state {
            StateView::Sending(id, m, t) => if id == eid {
                self.sent(m, t)
            } else {
                (self, Seq::empty())
            },
            _ => (self, Seq::empty()),
        }
    }

    pub open spec fn remove_pipe(self, eid: EndpointId) -> (PushView, Seq<ActionView>) {
        let removed = PushView { lb: self.lb.removed(eid), pipes: entry_removed(self.pipes, eid), ..self };
        let first = send_change(self.is_send_ready(), removed.is_send_ready());
        if entry_pipe(self.pipes, eid) is Some {
            let then = removed.with_event(removed.on_pipe_removed(eid));
            (then.0, first + then.1)
        } else {
            (removed, first)
        }
    }
}

pub struct Push {
    inner: Inner,
    state: Option<State>,
}

impl View for Push {
    type V = PushView;

    closed spec fn view(&self) -> PushView {
        PushView {
            state: match self.state {
                Some(s) => s@,
                None => StateView::Idle,
            },
            pipes: self.inner.pipes@,
            lb: self.inner.lb@,
        }
    }
}

impl Push {
    pub closed spec fn inv(&self) -> bool {
        &&& self.state is Some
        &&& self.inner.pipes.inv()
        &&& self.inner.lb.inv()
    }

    pub fn new() -> (p: Push)
        ensures
            p.inv(),
            p@.state == StateView::Idle,
            p@.pipes == Seq::<(EndpointId, Pipe)>::empty(),
            p@.lb == (PriolistModel { items: Seq::empty(), current: None }),
    {
        Push { inner: Inner { pipes: PipeCollection::new(), lb: Priolist::new() }, state: Some(State::Idle) }
    }

    pub fn id(&self) -> (id: u16)
        ensures
            id == PUSH,
    {
        PUSH
    }

    pub fn peer_id(&self) -> (id: u16)
        ensures
            id == PULL,
    {
        PULL
    }

    fn take_state(&mut self) -> (s: State)
        requires
            old(self).inv(),
        ensures
            s@ == old(self)@.state,
            final(self).inner == old(self).inner,
            final(self).state is None,
    {
        match self.state.take() {
            Some(s) => s,
            None => State::Idle,
        }
    }

    pub fn add_pipe(&mut self, ctx: &mut Context, eid: EndpointId, pipe: Pipe)
        requires
            old(self).inv(),
            pipe.send_priority < 255,
        ensures
            final(self).inv(),
            final(self)@ == (PushView {
                lb: old(self)@.lb.inserted(eid, pipe.send_priority),
                pipes: entry_inserted(old(self)@.pipes, eid, pipe),
                ..old(self)@
            }),
            *final(ctx) == *old(ctx),
    {
        self.inner.lb.insert(eid, pipe.get_send_priority());
        self.inner.pipes.insert(eid, pipe);
    }

    pub fn remove_pipe(&mut self, ctx: &mut Context, eid: EndpointId) -> (r: Option<Pipe>)
        requires
            old(self).inv(),
        ensures
            final(self).inv(),
            r == entry_pipe(old(self)@.pipes, eid),
            final(self)@ == old(self)@.remove_pipe(eid).0,
            final(ctx)@ == old(ctx)@ + old(self)@.remove_pipe(eid).1,
            final(ctx).next_timer() == old(ctx).next_timer(),
    {
        let was_send_ready = self.is_send_ready();
        self.inner.lb.remove(&eid);
        let pipe = self.inner.pipes.remove(&eid);
        let is_send_ready = self.is_send_ready();

        ctx.check_send_ready_change(was_send_ready, is_send_ready);

        if pipe.is_some() {
            let ghost mid = ctx@;
            let was = self.is_send_ready();
            let s = self.take_state();
            let s = s.on_pipe_removed(ctx, &mut self.inner, eid);
            self.state = Some(s);
            let is = self.is_send_ready();
            ctx.check_send_ready_change(was, is);
            proof {
                let removed = PushView { lb: old(self)@.lb.removed(eid), pipes: entry_removed(old(self)@.pipes, eid), ..old(self)@ };
                assert(ctx@ =~= old(ctx)@ + old(self)@.remove_pipe(eid).1);
            }
        }
        pipe
    }

    pub fn send(&mut self, ctx: &mut Context, msg: Message, timeout: Timeout)
        requires
            old(self).inv(),
        ensures
            final(self).inv(),
            final(self)@ == old(self)@.send(msg@, timeout).0,
            final(ctx)@ == old(ctx)@ + old(self)@.send(msg@, timeout).1,
            final(ctx).next_timer() == old(ctx).next_timer(),
    {
        let was = self.is_send_ready();
        let s = self.take_state();
        let s = s.send(ctx, &mut self.inner, msg, timeout);
        self.state = Some(s);
        let is = self.is_send_ready();
        ctx.check_send_ready_change(was, is);
        proof {
            assert(ctx@ =~= old(ctx)@ + old(self)@.send(msg@, timeout).1);
        }
    }

    pub fn on_send_ack(&mut self, ctx: &mut Context, eid: EndpointId)
        requires
            old(self).inv(),
        ensures
            final(self).inv(),
            final(self)@ == old(self)@.on_send_ack(eid).0,
            final(ctx)@ == old(ctx)@ + old(self)@.on_send_ack(eid).1,
            final(ctx).next_timer() == old(ctx).next_timer(),
    {
        let was = self.is_send_ready();
        let s = self.take_state();
        let s = s.on_send_ack(ctx, &mut self.inner, eid);
        self.state = Some(s);
        let is = self.is_send_ready();
        ctx.check_send_ready_change(was, is);
        proof {
            assert(ctx@ =~= old(ctx)@ + old(self)@.on_send_ack(eid).1);
        }
    }

    pub fn on_send_timeout(&mut self, ctx: &mut Context)
        requires
            old(self).inv(),
        ensures
            final(self).inv(),
            final(self)@ == old(self)@.on_send_timeout().0,
            final(ctx)@ == old(ctx)@ + old(self)@.on_send_timeout().1,
            final(ctx).next_timer() == old(ctx).next_timer(),
    {
        let was = self.is_send_ready();
        let _ = self.take_state();
        ctx.reply(Reply::Error(Failure::SendTimedOut));
        self.state = Some(State::Idle);
        let is = self.is_send_ready();
        ctx.check_send_ready_change(was, is);
        proof {
            assert(ctx@ =~= old(ctx)@ + old(self)@.on_send_timeout().1);
        }
    }

    pub fn on_send_ready(&mut self, ctx: &mut Context, eid: EndpointId)
        requires
            old(self).inv(),
        ensures
            final(self).inv(),
            final(self)@ == old(self)@.on_send_ready(eid).0,
            final(ctx)@ == old(ctx)@ + old(self)@.on_send_ready(eid).1,
            final(ctx).next_timer() == old(ctx).next_timer(),
    {
        let was = self.is_send_ready();
        let s = self.take_state();
        self.inner.lb.activate(&eid);
        let s = match s {
            State::SendOnHold(msg, timeout) => State::Idle.send(ctx, &mut self.inner, msg, timeout),
            any => {
                proof {
                    assert(ctx@ =~= old(ctx)@ + Seq::<ActionView>::empty());
                }
                any
            },
        };
        self.state = Some(s);
        let is = self.is_send_ready();
        ctx.check_send_ready_change(was, is);
        proof {
            assert(ctx@ =~= old(ctx)@ + old(self)@.on_send_ready(eid).1);
        }
    }

    pub fn recv(&mut self, ctx: &mut Context, timeout: Timeout)
        requires
            old(self).inv(),
        ensures
            final(self).inv(),
            final(self)@ == old(self)@.recv(timeout).0,
            final(ctx)@ == old(ctx)@ + old(self)@.recv(timeout).1,
            final(ctx).next_timer() == old(ctx).next_timer(),
    {
        ctx.reply(Reply::Error(Failure::RecvNotSupported));
        ctx.cancel_timeout(timeout);
        proof {
            assert(ctx@ =~= old(ctx)@ + old(self)@.recv(timeout).1);
        }
    }

    /// Receiving is not supported: nothing changes.
    pub fn on_recv_ack(&mut self, ctx: &mut Context, _eid: EndpointId, _msg: Message)
        ensures
            final(self)@ == old(self)@,
            final(self).inv() == old(self).inv(),
            *final(ctx) == *old(ctx),
    {
    }

    /// Receiving is not supported: nothing changes.
    pub fn on_recv_timeout(&mut self, ctx: &mut Context)
        ensures
            final(self)@ == old(self)@,
            final(self).inv() == old(self).inv(),
            *final(ctx) == *old(ctx),
    {
    }

    /// Receiving is not supported: nothing changes.
    pub fn on_recv_ready(&mut self, ctx: &mut Context, _eid: EndpointId)
        ensures
            final(self)@ == old(self)@,
            final(self).inv() == old(self).inv(),
            *final(ctx) == *old(ctx),
    {
    }

    pub fn is_send_ready(&self) -> (b: bool)
        ensures
            b == self@.is_send_ready(),
    {
        self.inner.lb.peek()
    }

    pub fn is_recv_ready(&self) -> (b: bool)
        ensures
            !b,
    {
        false
    }

    /// Closes every pipe.
    pub fn close(&mut self, ctx: &mut Context)
        requires
            old(self).inv(),
        ensures
            final(self).inv(),
            final(self)@ == (PushView { pipes: Seq::empty(), ..old(self)@ }),
            final(ctx)@ == old(ctx)@ + crate::proto::pipes::closed_all(old(self)@.pipes),
            final(ctx).next_timer() == old(ctx).next_timer(),
    {
        self.inner.pipes.close_all(ctx)
    }
}

impl State {
    fn on_pipe_removed(self, ctx: &mut Context, inner: &mut Inner, eid: EndpointId) -> (s: State)
        requires
            old(inner).lb.inv(),
            old(inner).pipes.inv(),
        ensures
            final(inner).lb.inv(),
            final(inner).pipes.inv(),
            ({
                let v = PushView { state: self@, pipes: old(inner).pipes@, lb: old(inner).lb@ };
                let (w, acts) = v.on_pipe_removed(eid);
                &&& s@ == w.state
                &&& final(inner).pipes@ == w.pipes
                &&& final(inner).lb@ == w.lb
                &&& final(ctx)@ == old(ctx)@ + acts
            }),
            final(ctx).next_timer() == old(ctx).next_timer(),
    {
        proof {
            assert(old(ctx)@ + Seq::<ActionView>::empty() =~= old(ctx)@);
        }
        match self {
            State::Sending(id, msg, timeout) => {
                if id == eid {
                    State::Idle.send(ctx, inner, msg, timeout)
                } else {
                    State::Sending(id, msg, timeout)
                }
            },
            any => any,
        }
    }

    fn send(self, ctx: &mut Context, inner: &mut Inner, msg: Message, timeout: Timeout) -> (s: State)
        requires
            old(inner).lb.inv(),
            old(inner).pipes.inv(),
        ensures
            final(inner).lb.inv(),
            final(inner).pipes.inv(),
            ({
                let v = PushView { state: self@, pipes: old(inner).pipes@, lb: old(inner).lb@ };
                let (w, acts) = v.sent(msg@, timeout);
                &&& s@ == w.state
                &&& final(inner).pipes@ == w.pipes
                &&& final(inner).lb@ == w.lb
                &&& final(ctx)@ == old(ctx)@ + acts
            }),
            final(ctx).next_timer() == old(ctx).next_timer(),
    {
        let copy = msg.clone();
        if let Some(eid) = load_balancing::send(&mut inner.lb, &mut inner.pipes, ctx, copy) {
            State::Sending(eid, msg, timeout)
        } else {
            State::SendOnHold(msg, timeout)
        }
    }

    fn on_send_ack(self, ctx: &mut Context, inner: &mut Inner, eid: EndpointId) -> (s: State)
        ensures
            *final(inner) == *old(inner),
            ({
                let v = PushView { state: self@, pipes: old(inner).pipes@, lb: old(inner).lb@ };
                let (w, acts) = match v.state {
                    StateView::Sending(id, m, t) => if id == eid {
                        (PushView { state: StateView::Idle, ..v }, seq![ActionView::Reply(ReplyView::Send)] + cancelled(t))
                    } else {
                        (v, Seq::empty())
                    },
                    _ => (v, Seq::empty()),
                };
                &&& s@ == w.state
                &&& final(ctx)@ == old(ctx)@ + acts
            }),
            final(ctx).next_timer() == old(ctx).next_timer(),
    {
        proof {
            assert(old(ctx)@ + Seq::<ActionView>::empty() =~= old(ctx)@);
        }
        match self {
            State::Sending(id, msg, timeout) => {
                if id == eid {
                    ctx.reply(Reply::Send);
                    ctx.cancel_timeout(timeout);
                    proof {
                        assert(ctx@ =~= old(ctx)@ + (seq![ActionView::Reply(ReplyView::Send)] + cancelled(timeout)));
                    }
                    State::Idle
                } else {
                    State::Sending(id, msg, timeout)
                }
            },
            any => any,
        }
    }
}

/// A message on hold goes out as soon as a pipe is ready for it: when the
/// list, once `eid` is ready, selects a pipe that the socket has, the
/// message is sent to that pipe as it was, first of what is recorded, and
/// the send then waits for that pipe.
pub proof fn lemma_held_message_goes_out(v: PushView, eid: EndpointId)
    requires
        v.state is SendOnHold,
        v.lb.activated(eid).current matches Some((c, _)) && has_entry(v.pipes, v.lb.activated(eid).items[c].value),
    ensures
        ({
            let lb = v.lb.activated(eid);
            let selected = lb.items[(lb.current->0).0].value;
            let (w, acts) = v.on_send_ready(eid);
            &&& w.state == StateView::Sending(selected, v.state->SendOnHold_0, v.state->SendOnHold_1)
            &&& acts.len() > 0
            &&& acts[0] == ActionView::Send(selected, v.state->SendOnHold_0)
        }),
{
}

} // verus!
