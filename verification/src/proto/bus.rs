//! BUS: every message sent goes to every peer that can take it, but the one
//! it came from when it is forwarded; messages are received from the peers
//! in turn. The endpoint a message came from travels in front of its header.
use vstd::prelude::*;

use crate::common::{ActionView, EndpointId, Failure, Message, MessageView, Reply, ReplyView, Timeout};
use crate::context::{cancelled, recv_change, send_change, Context};
use crate::proto::codec::{be_bytes, be_u32, read_u32_be, u32_to_be_vec};
use crate::proto::pipes::{
    closed_all, eid_inserted, eid_removed, entry_inserted, entry_pipe, entry_removed, EidSet, Pipe, PipeCollection,
};
use crate::proto::policy::broadcast::{self, broadcast_sends};
use crate::proto::policy::fair_queue::{self, fq_received};
use crate::proto::priolist::{Priolist, PriolistModel};
use crate::proto::BUS;

verus! {

/// A received message with the endpoint it came from appended to its
/// header.
pub open spec fn decoded(raw: MessageView, eid: EndpointId) -> MessageView {
    (raw.0 + be_bytes(eid as u32), raw.1)
}

/// A message to send, and the endpoint it must not go back to: the first
/// four bytes of its header, when it has them, name that endpoint and are
/// taken off.
pub open spec fn encoded(msg: MessageView) -> (MessageView, Option<EndpointId>) {
    if msg.0.len() < 4 {
        (msg, None)
    } else {
        ((msg.0.subrange(4, msg.0.len() as int), msg.1), Some(be_u32(msg.0) as EndpointId))
    }
}

pub fn decode(raw_msg: Message, eid: EndpointId) -> (msg: Message)
    ensures
        msg@ == decoded(raw_msg@, eid),
{
    let originator = eid as u32;
    let bytes = u32_to_be_vec(originator);
    let mut msg = raw_msg;
    msg.header.extend_from_slice(bytes.as_slice());
    proof {
        assert(msg.header@ =~= raw_msg.header@ + be_bytes(eid as u32));
    }
    msg
}

pub fn encode(msg: Message) -> (r: (Message, Option<EndpointId>))
    ensures
        (r.0@, r.1) == encoded(msg@),
{
    if msg.get_header().len() < 4 {
        return (msg, None);
    }
    let (mut header, body) = msg.split();
    let remaining_header = header.split_off(4);
    let originator = read_u32_be(header.as_slice()) as usize;
    let raw_msg = Message::from_header_and_body(remaining_header, body);
    (raw_msg, Some(originator))
}

/// A message that arrives with an empty header, once decoded, is encoded
/// back into the message that arrived, kept from the endpoint it came from.
pub proof fn lemma_forward_round_trip(raw: MessageView, eid: EndpointId)
    requires
        eid <= u32::MAX,
        raw.0.len() == 0,
    ensures
        encoded(decoded(raw, eid)) == (raw, Some(eid)),
{
    let h = raw.0 + be_bytes(eid as u32);
    crate::proto::codec::lemma_be_round_trip(eid as u32);
    assert(h =~= be_bytes(eid as u32));
    assert(h.subrange(4, h.len() as int) =~= raw.0);
}

pub enum State {
    Idle,
    Receiving(EndpointId, Timeout),
    RecvOnHold(Timeout),
}

pub struct Inner {
    pipes: PipeCollection,
    bc: EidSet,
    fq: Priolist,
}

/// A BUS socket seen as its state, its pipes, the endpoints that can send
/// and its fair-queuing list.
pub struct BusView {
    pub state: State,
    pub pipes: Seq<(EndpointId, Pipe)>,
    pub bc: Seq<EndpointId>,
    pub fq: PriolistModel,
}

impl BusView {
    pub open spec fn is_send_ready(self) -> bool {
        self.bc.len() != 0
    }

    pub open spec fn is_recv_ready(self) -> bool {
        self.fq.has_current()
    }

    pub open spec fn changes(self, other: BusView) -> Seq<ActionView> {
        send_change(self.is_send_ready(), other.is_send_ready()) + recv_change(
            self.is_recv_ready(),
            other.is_recv_ready(),
        )
    }

    pub open spec fn with_event(self, step: (BusView, Seq<ActionView>)) -> (BusView, Seq<ActionView>) {
        (step.0, step.1 + self.changes(step.0))
    }

    pub open spec fn received(self, t: Timeout) -> (BusView, Seq<ActionView>) {
        let (e, fq, acts) = fq_received(self.fq, self.pipes);
        let state = match e {
            Some(eid) => State::Receiving(eid, t),
            None => State::RecvOnHold(t),
        };
        (BusView { state, fq, ..self }, acts)
    }

    /// Sending `msg`: to every ready endpoint but the one it came from, when
    /// that one is ready too; the send is done at once.
    pub open spec fn send(self, msg: MessageView, t: Timeout) -> (BusView, Seq<ActionView>) {
        let (raw, oid) = encoded(msg);
        let step = match oid {
            Some(except) => if self.bc.contains(except) {
                (BusView { bc: seq![except], ..self }, broadcast_sends(self.bc, self.pipes, raw, Some(except)))
            } else {
                (BusView { bc: Seq::empty(), ..self }, broadcast_sends(self.bc, self.pipes, raw, None))
            },
            None => (BusView { bc: Seq::empty(), ..self }, broadcast_sends(self.bc, self.pipes, raw, None)),
        };
        self.with_event((step.0, step.1 + seq![ActionView::Reply(ReplyView::Send)] + cancelled(t)))
    }

    pub open spec fn on_send_ready(self, eid: EndpointId) -> (BusView, Seq<ActionView>) {
        self.with_event((BusView { bc: eid_inserted(self.bc, eid), ..self }, Seq::empty()))
    }

    pub open spec fn recv(self, t: Timeout) -> (BusView, Seq<ActionView>) {
        self.with_event(self.received(t))
    }

    pub open spec fn on_recv_ack(self, eid: EndpointId, raw: MessageView) -> (BusView, Seq<ActionView>) {
        match self.state {
            State::Receiving(id, t) => if id == eid {
                (
                    BusView { state: State::Idle, ..self },
                    seq![ActionView::Reply(ReplyView::Recv(decoded(raw, eid)))] + cancelled(t),
                )
            } else {
                (self, Seq::empty())
            },
            _ => (self, Seq::empty()),
        }
    }

    pub open spec fn on_recv_timeout(self) -> (BusView, Seq<ActionView>) {
        (BusView { state: State::Idle, ..self }, seq![ActionView::Reply(ReplyView::Error(Failure::RecvTimedOut))])
    }

    pub open spec fn on_recv_ready(self, eid: EndpointId) -> (BusView, Seq<ActionView>) {
        let activated = BusView { fq: self.fq.activated(eid), ..self };
        self.with_event(
            match self.state {
                State::RecvOnHold(t) => activated.received(t),
                _ => (activated, Seq::empty()),
            },
        )
    }

    pub open spec fn on_pipe_removed(self, eid: EndpointId) -> (BusView, Seq<ActionView>) {
        match self.state {
            State::Receiving(id, t) => if id == eid {
                self.received(t)
            } else {
                (self, Seq::empty())
            },
            _ => (self, Seq::empty()),
        }
    }

    pub open spec fn remove_pipe(self, eid: EndpointId) -> (BusView, Seq<ActionView>) {
        let removed = BusView {
            bc: eid_removed(self.bc, eid),
            fq: self.fq.removed(eid),
            pipes: entry_removed(self.pipes, eid),
            ..self
        };
        let first = self.changes(removed);
        if entry_pipe(self.pipes, eid) is Some {
            let then = removed.with_event(removed.on_pipe_removed(eid));
            (then.0, first + then.1)
        } else {
            (removed, first)
        }
    }
}

pub struct Bus {
    inner: Inner,
    state: Option<State>,
}

impl View for Bus {
    type V = BusView;

    closed spec fn view(&self) -> BusView {
        BusView {
            state: match self.state {
                Some(s) => s,
                None => State::Idle,
            },
            pipes: self.inner.pipes@,
            bc: self.inner.bc@,
            fq: self.inner.fq@,
        }
    }
}

impl Bus {
    pub closed spec fn inv(&self) -> bool {
        &&& self.state is Some
        &&& self.inner.pipes.inv()
        &&& self.inner.bc.inv()
        &&& self.inner.fq.inv()
    }

    pub fn new() -> (b: Bus)
        ensures
            b.inv(),
            b@ == (BusView {
                state: State::Idle,
                pipes: Seq::empty(),
                bc: Seq::empty(),
                fq: PriolistModel { items: Seq::empty(), current: None },
            }),
    {
        Bus {
            inner: Inner { pipes: PipeCollection::new(), bc: EidSet::new(), fq: Priolist::new() },
            state: Some(State::Idle),
        }
    }

    pub fn id(&self) -> (id: u16)
        ensures
            id == BUS,
    {
        BUS
    }

    pub fn peer_id(&self) -> (id: u16)
        ensures
            id == BUS,
    {
        BUS
    }

    fn take_state(&mut self) -> (s: State)
        requires
            old(self).inv(),
        ensures
            s == old(self)@.state,
            final(self).inner == old(self).inner,
            final(self).state is None,
    {
        match self.state.take() {
            Some(s) => s,
            None => State::Idle,
        }
    }

    fn raise_changes(&self, ctx: &mut Context, was_send_ready: bool, was_recv_ready: bool)
        ensures
            final(ctx)@ == old(ctx)@ + send_change(was_send_ready, self@.is_send_ready()) + recv_change(
                was_recv_ready,
                self@.is_recv_ready(),
            ),
            final(ctx).next_timer() == old(ctx).next_timer(),
    {
        let is_send_ready = self.is_send_ready();
        let is_recv_ready = self.is_recv_ready();
        ctx.check_send_ready_change(was_send_ready, is_send_ready);
        ctx.check_recv_ready_change(was_recv_ready, is_recv_ready);
    }

    pub fn add_pipe(&mut self, ctx: &mut Context, eid: EndpointId, pipe: Pipe)
        requires
            old(self).inv(),
            pipe.recv_priority < 255,
        ensures
            final(self).inv(),
            final(self)@ == (BusView {
                fq: old(self)@.fq.inserted(eid, pipe.recv_priority),
                pipes: entry_inserted(old(self)@.pipes, eid, pipe),
                ..old(self)@
            }),
            *final(ctx) == *old(ctx),
    {
        self.inner.fq.insert(eid, pipe.get_recv_priority());
        self.inner.pipes.insert(eid, pipe);
    }

    pub fn remove_pipe(&mut self, ctx: &mut Context, eid: EndpointId) -> (r: Option<Pipe>)
        requires
            old(self).inv(),
        ensures
            final(self).inv(),
            r == entry_pipe(old(self)@.pipes, eid),
            final(self)@ == old(self)@.remove_pipe(eid).0,
            final(ctx)@ == old(ctx)@ + old(self)@.remove_pipe(eid).1,
            final(ctx).next_timer() == old(ctx).next_timer(),
    {
        let was_send_ready = self.is_send_ready();
        let was_recv_ready = self.is_recv_ready();
        self.inner.bc.remove(&eid);
        self.inner.fq.remove(&eid);
        let pipe = self.inner.pipes.remove(&eid);
        self.raise_changes(ctx, was_send_ready, was_recv_ready);

        if pipe.is_some() {
            let was_send_ready = self.is_send_ready();
            let was_recv_ready = self.is_recv_ready();
            let s = self.take_state();
            let s = s.on_pipe_removed(ctx, &mut self.inner, eid);
            self.state = Some(s);
            self.raise_changes(ctx, was_send_ready, was_recv_ready);
            proof {
                assert(ctx@ =~= old(ctx)@ + old(self)@.remove_pipe(eid).1);
            }
        } else {
            proof {
                assert(ctx@ =~= old(ctx)@ + old(self)@.remove_pipe(eid).1);
            }
        }
        pipe
    }

    pub fn send(&mut self, ctx: &mut Context, msg: Message, timeout: Timeout)
        requires
            old(self).inv(),
        ensures
            final(self).inv(),
            final(self)@ == old(self)@.send(msg@, timeout).0,
            final(ctx)@ == old(ctx)@ + old(self)@.send(msg@, timeout).1,
            final(ctx).next_timer() == old(ctx).next_timer(),
    {
        let was_send_ready = self.is_send_ready();
        let was_recv_ready = self.is_recv_ready();
        let (raw_msg, oid) = encode(msg);
        let mut sent_except = false;
        if let Some(except) = oid {
            if self.inner.bc.contains(&except) {
                broadcast::send_to_all_except(&mut self.inner.bc, &mut self.inner.pipes, ctx, raw_msg, except);
                sent_except = true;
            } else {
                broadcast::send_to_all(&mut self.inner.bc, &mut self.inner.pipes, ctx, raw_msg);
            }
        } else {
            broadcast::send_to_all(&mut self.inner.bc, &mut self.inner.pipes, ctx, raw_msg);
        }
        ctx.reply(Reply::Send);
        ctx.cancel_timeout(timeout);
        self.raise_changes(ctx, was_send_ready, was_recv_ready);
        proof {
            assert(ctx@ =~= old(ctx)@ + old(self)@.send(msg@, timeout).1);
        }
    }

    /// A send completes at once: nothing changes.
    pub fn on_send_ack(&mut self, ctx: &mut Context, _eid: EndpointId)
        ensures
            final(self)@ == old(self)@,
            final(self).inv() == old(self).inv(),
            *final(ctx) == *old(ctx),
    {
    }

    /// A send completes at once: nothing changes.
    pub fn on_send_timeout(&mut self, ctx: &mut Context)
        ensures
            final(self)@ == old(self)@,
            final(self).inv() == old(self).inv(),
            *final(ctx) == *old(ctx),
    {
    }

    pub fn on_send_ready(&mut self, ctx: &mut Context, eid: EndpointId)
        requires
            old(self).inv(),
        ensures
            final(self).inv(),
            final(self)@ == old(self)@.on_send_ready(eid).0,
            final(ctx)@ == old(ctx)@ + old(self)@.on_send_ready(eid).1,
            final(ctx).next_timer() == old(ctx).next_timer(),
    {
        let was_send_ready = self.is_send_ready();
        let was_recv_ready = self.is_recv_ready();
        self.inner.bc.insert(eid);
        self.raise_changes(ctx, was_send_ready, was_recv_ready);
        proof {
            assert(ctx@ =~= old(ctx)@ + old(self)@.on_send_ready(eid).1);
        }
    }

    pub fn recv(&mut self, ctx: &mut Context, timeout: Timeout)
        requires
            old(self).inv(),
        ensures
            final(self).inv(),
            final(self)@ == old(self)@.recv(timeout).0,
            final(ctx)@ == old(ctx)@ + old(self)@.recv(timeout).1,
            final(ctx).next_timer() == old(ctx).next_timer(),
    {
        let was_send_ready = self.is_send_ready();
        let was_recv_ready = self.is_recv_ready();
        let _ = self.take_state();
        let s = State::Idle.recv(ctx, &mut self.inner, timeout);
        self.state = Some(s);
        self.raise_changes(ctx, was_send_ready, was_recv_ready);
        proof {
            assert(ctx@ =~= old(ctx)@ + old(self)@.recv(timeout).1);
        }
    }

    pub fn on_recv_ack(&mut self, ctx: &mut Context, eid: EndpointId, raw_msg: Message)
        requires
            old(self).inv(),
        ensures
            final(self).inv(),
            final(self)@ == old(self)@.on_recv_ack(eid, raw_msg@).0,
            final(ctx)@ == old(ctx)@ + old(self)@.on_recv_ack(eid, raw_msg@).1,
            final(ctx).next_timer() == old(ctx).next_timer(),
    {
        let msg = decode(raw_msg, eid);
        let ghost m = msg@;
        proof {
            assert(old(ctx)@ + Seq::<ActionView>::empty() =~= old(ctx)@);
        }
        let s = self.take_state();
        let s = match s {
            State::Receiving(id, timeout) => {
                if id == eid {
                    ctx.reply(Reply::Recv(msg));
                    ctx.cancel_timeout(timeout);
                    proof {
                        assert(ctx@ =~= old(ctx)@ + (seq![ActionView::Reply(ReplyView::Recv(m))] + cancelled(timeout)));
                    }
                    State::Idle
                } else {
                    State::Receiving(id, timeout)
                }
            },
            any => any,
        };
        self.state = Some(s);
    }

    pub fn on_recv_timeout(&mut self, ctx: &mut Context)
        requires
            old(self).inv(),
        ensures
            final(self).inv(),
            final(self)@ == old(self)@.on_recv_timeout().0,
            final(ctx)@ == old(ctx)@ + old(self)@.on_recv_timeout().1,
            final(ctx).next_timer() == old(ctx).next_timer(),
    {
        let _ = self.take_state();
        ctx.reply(Reply::Error(Failure::RecvTimedOut));
        self.state = Some(State::Idle);
        proof {
            assert(ctx@ =~= old(ctx)@ + old(self)@.on_recv_timeout().1);
        }
    }

    pub fn on_recv_ready(&mut self, ctx: &mut Context, eid: EndpointId)
        requires
            old(self).inv(),
        ensures
            final(self).inv(),
            final(self)@ == old(self)@.on_recv_ready(eid).0,
            final(ctx)@ == old(ctx)@ + old(self)@.on_recv_ready(eid).1,
            final(ctx).next_timer() == old(ctx).next_timer(),
    {
        let was_send_ready = self.is_send_ready();
        let was_recv_ready = self.is_recv_ready();
        let s = self.take_state();
        self.inner.fq.activate(&eid);
        let s = match s {
            State::RecvOnHold(timeout) => State::Idle.recv(ctx, &mut self.inner, timeout),
            any => {
                proof {
                    assert(ctx@ =~= old(ctx)@ + Seq::<ActionView>::empty());
                }
                any
            },
        };
        self.state = Some(s);
        self.raise_changes(ctx, was_send_ready, was_recv_ready);
        proof {
            assert(ctx@ =~= old(ctx)@ + old(self)@.on_recv_ready(eid).1);
        }
    }

    pub fn is_send_ready(&self) -> (b: bool)
        ensures
            b == self@.is_send_ready(),
    {
        !self.inner.bc.is_empty()
    }

    pub fn is_recv_ready(&self) -> (b: bool)
        ensures
            b == self@.is_recv_ready(),
    {
        self.inner.fq.peek()
    }

    /// Closes every pipe.
    pub fn close(&mut self, ctx: &mut Context)
        requires
            old(self).inv(),
        ensures
            final(self).inv(),
            final(self)@ == (BusView { pipes: Seq::empty(), ..old(self)@ }),
            final(ctx)@ == old(ctx)@ + closed_all(old(self)@.pipes),
            final(ctx).next_timer() == old(ctx).next_timer(),
    {
        self.inner.pipes.close_all(ctx)
    }
}

impl State {
    fn on_pipe_removed(self, ctx: &mut Context, inner: &mut Inner, eid: EndpointId) -> (s: State)
        requires
            old(inner).fq.inv(),
            old(inner).pipes.inv(),
            old(inner).bc.inv(),
        ensures
            final(inner).fq.inv(),
            final(inner).pipes.inv(),
            final(inner).bc.inv(),
            ({
                let v = BusView { state: self, pipes: old(inner).pipes@, bc: old(inner).bc@, fq: old(inner).fq@ };
                let (w, acts) = v.on_pipe_removed(eid);
                &&& s == w.state
                &&& final(inner).pipes@ == w.pipes
                &&& final(inner).bc@ == w.bc
                &&& final(inner).fq@ == w.fq
                &&& final(ctx)@ == old(ctx)@ + acts
            }),
            final(ctx).next_timer() == old(ctx).next_timer(),
    {
        proof {
            assert(old(ctx)@ + Seq::<ActionView>::empty() =~= old(ctx)@);
        }
        match self {
            State::Receiving(id, timeout) => {
                if id == eid {
                    State::Idle.recv(ctx, inner, timeout)
                } else {
                    State::Receiving(id, timeout)
                }
            },
            any => any,
        }
    }

    fn recv(self, ctx: &mut Context, inner: &mut Inner, timeout: Timeout) -> (s: State)
        requires
            old(inner).fq.inv(),
            old(inner).pipes.inv(),
            old(inner).bc.inv(),
        ensures
            final(inner).fq.inv(),
            final(inner).pipes.inv(),
            final(inner).bc.inv(),
            ({
                let v = BusView { state: self, pipes: old(inner).pipes@, bc: old(inner).bc@, fq: old(inner).fq@ };
                let (w, acts) = v.received(timeout);
                &&& s == w.state
                &&& final(inner).pipes@ == w.pipes
                &&& final(inner).bc@ == w.bc
                &&& final(inner).fq@ == w.fq
                &&& final(ctx)@ == old(ctx)@ + acts
            }),
            final(ctx).next_timer() == old(ctx).next_timer(),
    {
        if let Some(eid) = fair_queue::recv(&mut inner.fq, &mut inner.pipes, ctx) {
            State::Receiving(eid, timeout)
        } else {
            State::RecvOnHold(timeout)
        }
    }
}

} // verus!
