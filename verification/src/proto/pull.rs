//! PULL: receives each message from one of the peers that have one, picked
//! by priority and in turn; sending is not supported.
use vstd::prelude::*;

use crate::common::{ActionView, EndpointId, Failure, Message, MessageView, Reply, ReplyView, Timeout};
use crate::context::{cancelled, recv_change, Context};
use crate::proto::pipes::{closed_all, entry_inserted, entry_pipe, entry_removed, has_entry, Pipe, PipeCollection};
use crate::proto::policy::fair_queue::{self, fq_received};
use crate::proto::priolist::{Priolist, PriolistModel};
use crate::proto::{PULL, PUSH};

verus! {

pub enum State {
    Idle,
    Receiving(EndpointId, Timeout),
    RecvOnHold(Timeout),
}

pub struct Inner {
    pipes: PipeCollection,
    fq: Priolist,
}

/// A PULL socket seen as its state, its pipes and its fair-queuing list.
pub struct PullView {
    pub state: State,
    pub pipes: Seq<(EndpointId, Pipe)>,
    pub fq: PriolistModel,
}

impl PullView {
    pub open spec fn is_recv_ready(self) -> bool {
        self.fq.has_current()
    }

    /// Receiving from any state: through the next pipe of the list, or
    /// waiting for one.
    pub open spec fn received(self, t: Timeout) -> (PullView, Seq<ActionView>) {
        let (e, fq, acts) = fq_received(self.fq, self.pipes);
        let state = match e {
            Some(eid) => State::Receiving(eid, t),
            None => State::RecvOnHold(t),
        };
        (PullView { state, fq, ..self }, acts)
    }

    /// A transition, followed by the event that tells a change of the
    /// ability to receive.
    pub open spec fn with_event(self, step: (PullView, Seq<ActionView>)) -> (PullView, Seq<ActionView>) {
        (step.0, step.1 + recv_change(self.is_recv_ready(), step.0.is_recv_ready()))
    }

    pub open spec fn send(self, t: Timeout) -> (PullView, Seq<ActionView>) {
        (self, seq![ActionView::Reply(ReplyView::Error(Failure::SendNotSupported))] + cancelled(t))
    }

    pub open spec fn recv(self, t: Timeout) -> (PullView, Seq<ActionView>) {
        self.with_event(self.received(t))
    }

    pub open spec fn on_recv_ack(self, eid: EndpointId, msg: MessageView) -> (PullView, Seq<ActionView>) {
        match self.state {
            State::Receiving(id, t) => if id == eid {
                (PullView { state: State::Idle, ..self }, seq![ActionView::Reply(ReplyView::Recv(msg))] + cancelled(t))
            } else {
                (self, Seq::empty())
            },
            _ => (self, Seq::empty()),
        }
    }

    pub open spec fn on_recv_timeout(self) -> (PullView, Seq<ActionView>) {
        (PullView { state: State::Idle, ..self }, seq![ActionView::Reply(ReplyView::Error(Failure::RecvTimedOut))])
    }

    pub open spec fn on_recv_ready(self, eid: EndpointId) -> (PullView, Seq<ActionView>) {
        let activated = PullView { fq: self.fq.activated(eid), ..self };
        self.with_event(
            match self.state {
                State::RecvOnHold(t) => activated.received(t),
                _ => (activated, Seq::empty()),
            },
        )
    }

    pub open spec fn on_recv_not_ready(self, eid: EndpointId) -> (PullView, Seq<ActionView>) {
        let w = PullView { fq: self.fq.deactivated(eid), ..self };
        (w, recv_change(self.is_recv_ready(), w.is_recv_ready()))
    }

    /// After the pipe of `eid` is gone, a receive that went through it is
    /// started again.
    pub open spec fn on_pipe_removed(self, eid: EndpointId) -> (PullView, Seq<ActionView>) {
        match self.state {
            State::Receiving(id, t) => if id == eid {
                self.received(t)
            } else {
                (self, Seq::empty())
            },
            _ => (self, Seq::empty()),
        }
    }

    pub open spec fn remove_pipe(self, eid: EndpointId) -> (PullView, Seq<ActionView>) {
        let removed = PullView { fq: self.fq.removed(eid), pipes: entry_removed(self.pipes, eid), ..self };
        let first = recv_change(self.is_recv_ready(), removed.is_recv_ready());
        if entry_pipe(self.pipes, eid) is Some {
            let then = removed.with_event(removed.on_pipe_removed(eid));
            (then.0, first + then.1)
        } else {
            (removed, first)
        }
    }
}

pub struct Pull {
    inner: Inner,
    state: Option<State>,
}

impl View for Pull {
    type V = PullView;

    closed spec fn view(&self) -> PullView {
        PullView {
            state: match self.state {
                Some(s) => s,
                None => State::Idle,
            },
            pipes: self.inner.pipes@,
            fq: self.inner.fq@,
        }
    }
}

impl Pull {
    pub closed spec fn inv(&self) -> bool {
        &&& self.state is Some
        &&& self.inner.pipes.inv()
        &&& self.inner.fq.inv()
    }

    pub fn new() -> (p: Pull)
        ensures
            p.inv(),
            p@.state == State::Idle,
            p@.pipes == Seq::<(EndpointId, Pipe)>::empty(),
            p@.fq == (PriolistModel { items: Seq::empty(), current: None }),
    {
        Pull { inner: Inner { pipes: PipeCollection::new(), fq: Priolist::new() }, state: Some(State::Idle) }
    }

    pub fn id(&self) -> (id: u16)
        ensures
            id == PULL,
    {
        PULL
    }

    pub fn peer_id(&self) -> (id: u16)
        ensures
            id == PUSH,
    {
        PUSH
    }

    fn take_state(&mut self) -> (s: State)
        requires
            old(self).inv(),
        ensures
            s == old(self)@.state,
            final(self).inner == old(self).inner,
            final(self).state is None,
    {
        match self.state.take() {
            Some(s) => s,
            None => State::Idle,
        }
    }

    pub fn add_pipe(&mut self, ctx: &mut Context, eid: EndpointId, pipe: Pipe)
        requires
            old(self).inv(),
            pipe.recv_priority < 255,
        ensures
            final(self).inv(),
            final(self)@ == (PullView {
                fq: old(self)@.fq.inserted(eid, pipe.recv_priority),
                pipes: entry_inserted(old(self)@.pipes, eid, pipe),
                ..old(self)@
            }),
            *final(ctx) == *old(ctx),
    {
        self.inner.fq.insert(eid, pipe.get_recv_priority());
        self.inner.pipes.insert(eid, pipe);
    }

    pub fn remove_pipe(&mut self, ctx: &mut Context, eid: EndpointId) -> (r: Option<Pipe>)
        requires
            old(self).inv(),
        ensures
            final(self).inv(),
            r == entry_pipe(old(self)@.pipes, eid),
            final(self)@ == old(self)@.remove_pipe(eid).0,
            final(ctx)@ == old(ctx)@ + old(self)@.remove_pipe(eid).1,
            final(ctx).next_timer() == old(ctx).next_timer(),
    {
        let was_recv_ready = self.is_recv_ready();
        self.inner.fq.remove(&eid);
        let pipe = self.inner.pipes.remove(&eid);
        let is_recv_ready = self.is_recv_ready();

        ctx.check_recv_ready_change(was_recv_ready, is_recv_ready);

        if pipe.is_some() {
            let was = self.is_recv_ready();
            let s = self.take_state();
            let s = s.on_pipe_removed(ctx, &mut self.inner, eid);
            self.state = Some(s);
            let is = self.is_recv_ready();
            ctx.check_recv_ready_change(was, is);
            proof {
                assert(ctx@ =~= old(ctx)@ + old(self)@.remove_pipe(eid).1);
            }
        }
        pipe
    }

    pub fn send(&mut self, ctx: &mut Context, _msg: Message, timeout: Timeout)
        requires
            old(self).inv(),
        ensures
            final(self).inv(),
            final(self)@ == old(self)@.send(timeout).0,
            final(ctx)@ == old(ctx)@ + old(self)@.send(timeout).1,
            final(ctx).next_timer() == old(ctx).next_timer(),
    {
        ctx.reply(Reply::Error(Failure::SendNotSupported));
        ctx.cancel_timeout(timeout);
        proof {
            assert(ctx@ =~= old(ctx)@ + old(self)@.send(timeout).1);
        }
    }

    /// Sending is not supported: nothing changes.
    pub fn on_send_ack(&mut self, ctx: &mut Context, _eid: EndpointId)
        ensures
            final(self)@ == old(self)@,
            final(self).inv() == old(self).inv(),
            *final(ctx) == *old(ctx),
    {
    }

    /// Sending is not supported: nothing changes.
    pub fn on_send_timeout(&mut self, ctx: &mut Context)
        ensures
            final(self)@ == old(self)@,
            final(self).inv() == old(self).inv(),
            *final(ctx) == *old(ctx),
    {
    }

    /// Sending is not supported: nothing changes.
    pub fn on_send_ready(&mut self, ctx: &mut Context, _eid: EndpointId)
        ensures
            final(self)@ == old(self)@,
            final(self).inv() == old(self).inv(),
            *final(ctx) == *old(ctx),
    {
    }

    /// Sending is not supported: nothing changes.
    pub fn on_send_not_ready(&mut self, ctx: &mut Context, _eid: EndpointId)
        ensures
            final(self)@ == old(self)@,
            final(self).inv() == old(self).inv(),
            *final(ctx) == *old(ctx),
    {
    }

    pub fn recv(&mut self, ctx: &mut Context, timeout: Timeout)
        requires
            old(self).inv(),
        ensures
            final(self).inv(),
            final(self)@ == old(self)@.recv(timeout).0,
            final(ctx)@ == old(ctx)@ + old(self)@.recv(timeout).1,
            final(ctx).next_timer() == old(ctx).next_timer(),
    {
        let was = self.is_recv_ready();
        let _ = self.take_state();
        let s = State::Idle.recv(ctx, &mut self.inner, timeout);
        self.state = Some(s);
        let is = self.is_recv_ready();
        ctx.check_recv_ready_change(was, is);
        proof {
            assert(ctx@ =~= old(ctx)@ + old(self)@.recv(timeout).1);
        }
    }

    pub fn on_recv_ack(&mut self, ctx: &mut Context, eid: EndpointId, msg: Message)
        requires
            old(self).inv(),
        ensures
            final(self).inv(),
            final(self)@ == old(self)@.on_recv_ack(eid, msg@).0,
            final(ctx)@ == old(ctx)@ + old(self)@.on_recv_ack(eid, msg@).1,
            final(ctx).next_timer() == old(ctx).next_timer(),
    {
        let s = self.take_state();
        let ghost m = msg@;
        proof {
            assert(old(ctx)@ + Seq::<ActionView>::empty() =~= old(ctx)@);
        }
        let s = match s {
            State::Receiving(id, timeout) => {
                if id == eid {
                    ctx.reply(Reply::Recv(msg));
                    ctx.cancel_timeout(timeout);
                    proof {
                        assert(ctx@ =~= old(ctx)@ + (seq![ActionView::Reply(ReplyView::Recv(m))] + cancelled(timeout)));
                    }
                    State::Idle
                } else {
                    State::Receiving(id, timeout)
                }
            },
            any => any,
        };
        self.state = Some(s);
    }

    pub fn on_recv_timeout(&mut self, ctx: &mut Context)
        requires
            old(self).inv(),
        ensures
            final(self).inv(),
            final(self)@ == old(self)@.on_recv_timeout().0,
            final(ctx)@ == old(ctx)@ + old(self)@.on_recv_timeout().1,
            final(ctx).next_timer() == old(ctx).next_timer(),
    {
        let _ = self.take_state();
        ctx.reply(Reply::Error(Failure::RecvTimedOut));
        self.state = Some(State::Idle);
        proof {
            assert(ctx@ =~= old(ctx)@ + old(self)@.on_recv_timeout().1);
        }
    }

    pub fn on_recv_ready(&mut self, ctx: &mut Context, eid: EndpointId)
        requires
            old(self).inv(),
        ensures
            final(self).inv(),
            final(self)@ == old(self)@.on_recv_ready(eid).0,
            final(ctx)@ == old(ctx)@ + old(self)@.on_recv_ready(eid).1,
            final(ctx).next_timer() == old(ctx).next_timer(),
    {
        let was = self.is_recv_ready();
        let s = self.take_state();
        self.inner.fq.activate(&eid);
        let s = match s {
            State::RecvOnHold(timeout) => State::Idle.recv(ctx, &mut self.inner, timeout),
            any => {
                proof {
                    assert(ctx@ =~= old(ctx)@ + Seq::<ActionView>::empty());
                }
                any
            },
        };
        self.state = Some(s);
        let is = self.is_recv_ready();
        ctx.check_recv_ready_change(was, is);
        proof {
            assert(ctx@ =~= old(ctx)@ + old(self)@.on_recv_ready(eid).1);
        }
    }

    pub fn on_recv_not_ready(&mut self, ctx: &mut Context, eid: EndpointId)
        requires
            old(self).inv(),
        ensures
            final(self).inv(),
            final(self)@ == old(self)@.on_recv_not_ready(eid).0,
            final(ctx)@ == old(ctx)@ + old(self)@.on_recv_not_ready(eid).1,
            final(ctx).next_timer() == old(ctx).next_timer(),
    {
        let was = self.is_recv_ready();
        self.inner.fq.deactivate(&eid);
        let is = self.is_recv_ready();
        ctx.check_recv_ready_change(was, is);
    }

    pub fn is_send_ready(&self) -> (b: bool)
        ensures
            !b,
    {
        false
    }

    pub fn is_recv_ready(&self) -> (b: bool)
        ensures
            b == self@.is_recv_ready(),
    {
        self.inner.fq.peek()
    }

    /// Closes every pipe.
    pub fn close(&mut self, ctx: &mut Context)
        requires
            old(self).inv(),
        ensures
            final(self).inv(),
            final(self)@ == (PullView { pipes: Seq::empty(), ..old(self)@ }),
            final(ctx)@ == old(ctx)@ + closed_all(old(self)@.pipes),
            final(ctx).next_timer() == old(ctx).next_timer(),
    {
        self.inner.pipes.close_all(ctx)
    }
}

impl State {
    fn on_pipe_removed(self, ctx: &mut Context, inner: &mut Inner, eid: EndpointId) -> (s: State)
        requires
            old(inner).fq.inv(),
            old(inner).pipes.inv(),
        ensures
            final(inner).fq.inv(),
            final(inner).pipes.inv(),
            ({
                let v = PullView { state: self, pipes: old(inner).pipes@, fq: old(inner).fq@ };
                let (w, acts) = v.on_pipe_removed(eid);
                &&& s == w.state
                &&& final(inner).pipes@ == w.pipes
                &&& final(inner).fq@ == w.fq
                &&& final(ctx)@ == old(ctx)@ + acts
            }),
            final(ctx).next_timer() == old(ctx).next_timer(),
    {
        proof {
            assert(old(ctx)@ + Seq::<ActionView>::empty() =~= old(ctx)@);
        }
        match self {
            State::Receiving(id, timeout) => {
                if id == eid {
                    State::Idle.recv(ctx, inner, timeout)
                } else {
                    State::Receiving(id, timeout)
                }
            },
            any => any,
        }
    }

    fn recv(self, ctx: &mut Context, inner: &mut Inner, timeout: Timeout) -> (s: State)
        requires
            old(inner).fq.inv(),
            old(inner).pipes.inv(),
        ensures
            final(inner).fq.inv(),
            final(inner).pipes.inv(),
            ({
                let v = PullView { state: self, pipes: old(inner).pipes@, fq: old(inner).fq@ };
                let (w, acts) = v.received(timeout);
                &&& s == w.state
                &&& final(inner).pipes@ == w.pipes
                &&& final(inner).fq@ == w.fq
                &&& final(ctx)@ == old(ctx)@ + acts
            }),
            final(ctx).next_timer() == old(ctx).next_timer(),
    {
        if let Some(eid) = fair_queue::recv(&mut inner.fq, &mut inner.pipes, ctx) {
            State::Receiving(eid, timeout)
        } else {
            State::RecvOnHold(timeout)
        }
    }
}

/// A receive on hold starts as soon as a pipe has a message: when the list,
/// once `eid` is readable, selects a pipe that the socket has, that pipe is
/// asked for the message, first of what is recorded, and the receive then
/// waits on it with its own timer.
pub proof fn lemma_held_recv_starts(v: PullView, eid: EndpointId)
    requires
        v.state is RecvOnHold,
        v.fq.activated(eid).current matches Some((c, _)) && has_entry(v.pipes, v.fq.activated(eid).items[c].value),
    ensures
        ({
            let fq = v.fq.activated(eid);
            let selected = fq.items[(fq.current->0).0].value;
            let (w, acts) = v.on_recv_ready(eid);
            &&& w.state == State::Receiving(selected, v.state->RecvOnHold_0)
            &&& acts.len() > 0
            &&& acts[0] == ActionView::Recv(selected)
        }),
{
}

} // verus!
