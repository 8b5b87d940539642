//! REP on the event-loop layer: requests are read from the pipes in turn;
//! the route a request came with is kept, and the reply, carrying it, goes
//! back on the pipe the request came from.
//!
//! What the socket asks of a pipe (register it, send or receive on it, give
//! up a send or a receive, hand it a poll's report) is recorded in the
//! context, in order, with the replies to the user and the timers.
use vstd::prelude::*;

use crate::common::{
    Action, ActionView, EndpointId, Failure, Message, MessageView, Readiness, Reply, ReplyView, Timeout,
};
use crate::context::{cancelled, Context};
use crate::proto::backtrace::route_len;
use crate::proto::pipes::{eid_removed, EidSet};
use crate::protocol::policy::clear_timeout;
use crate::protocol::priolist::{PrioList, TokenListModel};

verus! {

/// How many hops a request may have gone through.
pub const TTL: u8 = 8;

pub enum State {
    Idle,
    Receiving(Timeout),
    RecvOnHold(Timeout),
    Active(EndpointId),
    Sending(Message, Timeout),
    SendOnHold(Message, Timeout),
}

pub enum StateView {
    Idle,
    Receiving(Timeout),
    RecvOnHold(Timeout),
    Active(EndpointId),
    Sending(MessageView, Timeout),
    SendOnHold(MessageView, Timeout),
}

impl View for State {
    type V = StateView;

    open spec fn view(&self) -> StateView {
        match self {
            State::Idle => StateView::Idle,
            State::Receiving(t) => StateView::Receiving(*t),
            State::RecvOnHold(t) => StateView::RecvOnHold(*t),
            State::Active(e) => StateView::Active(*e),
            State::Sending(m, t) => StateView::Sending(m@, *t),
            State::SendOnHold(m, t) => StateView::SendOnHold(m@, *t),
        }
    }
}

/// A REP socket seen as its state, the tokens of its pipes, the list that
/// turns through them to receive, the number of hops a request may have gone
/// through, and the route of the last request.
pub struct RepView {
    pub state: StateView,
    pub pipes: Seq<EndpointId>,
    pub fq: TokenListModel,
    pub ttl: u8,
    pub backtrace: Seq<u8>,
}

/// A request as it arrived, as the user receives it: its route moves from
/// the body to the end of the header; nothing when the route ends beyond
/// `ttl` hops or beyond the body.
pub open spec fn route_taken(raw: MessageView, ttl: u8) -> Option<MessageView> {
    match route_len(raw.1, ttl as nat) {
        Some(n) => Some((raw.0 + raw.1.take(n as int), raw.1.skip(n as int))),
        None => None,
    }
}

/// A reply as it leaves: the route of its request follows its header.
pub open spec fn route_given(msg: MessageView, backtrace: Seq<u8>) -> MessageView {
    (msg.0 + backtrace, msg.1)
}

/// `a` when the socket has a pipe under `tok`, nothing otherwise.
pub open spec fn if_piped(pipes: Seq<EndpointId>, tok: EndpointId, a: ActionView) -> Seq<ActionView> {
    if pipes.contains(tok) {
        seq![a]
    } else {
        Seq::empty()
    }
}

impl RepView {
    /// The pipe that the list selects, if the socket has it.
    pub open spec fn active_pipe(self) -> Option<EndpointId> {
        match self.fq.current {
            Some(t) => if self.pipes.contains(t) {
                Some(t)
            } else {
                None
            },
            None => None,
        }
    }

    /// `a` applied to the selected pipe, if any.
    pub open spec fn on_active(self, a: spec_fn(EndpointId) -> ActionView) -> Seq<ActionView> {
        match self.active_pipe() {
            Some(t) => seq![a(t)],
            None => Seq::empty(),
        }
    }

    pub open spec fn add_pipe(self, tok: EndpointId) -> (RepView, Result<(), Failure>) {
        if self.pipes.contains(tok) {
            (self, Err(Failure::PipeAlreadyAdded))
        } else {
            (RepView { pipes: self.pipes.push(tok), ..self }, Ok(()))
        }
    }

    /// The list, once the pipe is dropped from it, no longer selects it, so
    /// a send or a receive on the selected pipe goes on.
    pub open spec fn remove_pipe(self, tok: EndpointId) -> (RepView, bool) {
        let had = self.pipes.contains(tok);
        let v = RepView { pipes: eid_removed(self.pipes, tok), fq: self.fq.removed(tok), ..self };
        if had {
            let active = v.fq.current == Some(tok);
            let state = match self.state {
                StateView::Sending(m, t) => if active {
                    StateView::SendOnHold(m, t)
                } else {
                    self.state
                },
                StateView::Receiving(t) => if active {
                    StateView::RecvOnHold(t)
                } else {
                    self.state
                },
                _ => self.state,
            };
            (RepView { state, ..v }, true)
        } else {
            (v, false)
        }
    }

    pub open spec fn register_pipe(self, tok: EndpointId) -> (RepView, Seq<ActionView>) {
        (RepView { fq: self.fq.inserted(tok), ..self }, if_piped(self.pipes, tok, ActionView::Open(tok)))
    }

    /// Sending from this state: a reply goes on the pipe its request came
    /// from, or waits for it; with no request, it fails.
    pub open spec fn state_send(self, msg: MessageView, t: Timeout) -> (RepView, Seq<ActionView>) {
        match self.state {
            StateView::Active(tok) => if self.pipes.contains(tok) {
                (RepView { state: StateView::Sending(msg, t), ..self }, seq![ActionView::Send(tok, msg)])
            } else {
                (RepView { state: StateView::SendOnHold(msg, t), ..self }, Seq::empty())
            },
            _ => (self, seq![ActionView::Reply(ReplyView::Error(Failure::SendWithoutPending))] + cancelled(t)),
        }
    }

    pub open spec fn send(self, msg: MessageView, t: Timeout) -> (RepView, Seq<ActionView>) {
        self.state_send(route_given(msg, self.backtrace), t)
    }

    /// Receiving from this state: the selected pipe is asked, or the receive
    /// waits for one.
    pub open spec fn state_recv(self, t: Timeout) -> (RepView, Seq<ActionView>) {
        match self.active_pipe() {
            Some(a) => (RepView { state: StateView::Receiving(t), ..self }, seq![ActionView::Recv(a)]),
            None => (RepView { state: StateView::RecvOnHold(t), ..self }, Seq::empty()),
        }
    }

    /// The pipe `tok` completed its registration: the list takes it, and a
    /// send or a receive on hold is tried again.
    pub open spec fn on_pipe_register(self, tok: EndpointId) -> (RepView, Seq<ActionView>) {
        let v = RepView { fq: self.fq.activated(tok), ..self };
        let told = if_piped(self.pipes, tok, ActionView::AckOpen(tok));
        match self.state {
            StateView::SendOnHold(m, t) => {
                let (w, acts) = RepView { state: StateView::Idle, ..v }.state_send(m, t);
                (w, told + acts)
            },
            StateView::RecvOnHold(t) => {
                let (w, acts) = RepView { state: StateView::Idle, ..v }.state_recv(t);
                (w, told + acts)
            },
            _ => (v, told),
        }
    }

    /// A pipe sent a message: when a reply was being sent, the user is told,
    /// the list advanced and the timer cancelled.
    pub open spec fn state_on_send_by_pipe(self) -> (RepView, Seq<ActionView>) {
        let v = RepView { state: StateView::Idle, ..self };
        match self.state {
            StateView::Sending(_, t) => (
                RepView { fq: self.fq.advanced(), ..v },
                seq![ActionView::Reply(ReplyView::Send)] + cancelled(t),
            ),
            _ => (v, Seq::empty()),
        }
    }

    /// A pipe sent a message: the route is forgotten first.
    pub open spec fn on_send_by_pipe(self) -> (RepView, Seq<ActionView>) {
        RepView { backtrace: Seq::empty(), ..self }.state_on_send_by_pipe()
    }

    pub open spec fn on_send_timeout(self) -> (RepView, Seq<ActionView>) {
        (
            RepView { state: StateView::Idle, fq: self.fq.advanced(), ..self },
            seq![ActionView::Reply(ReplyView::Error(Failure::SendTimedOut))] + self.on_active(
                |t: EndpointId| ActionView::CancelSend(t),
            ),
        )
    }

    /// A request came from `tok`: the user gets it when one was awaited,
    /// and the socket now answers that pipe.
    pub open spec fn state_on_recv_by_pipe(self, tok: EndpointId, msg: MessageView) -> (RepView, Seq<ActionView>) {
        let v = RepView { state: StateView::Active(tok), ..self };
        match self.state {
            StateView::Receiving(t) => (
                RepView { fq: self.fq.advanced(), ..v },
                seq![ActionView::Reply(ReplyView::Recv(msg))] + cancelled(t),
            ),
            _ => (v, Seq::empty()),
        }
    }

    /// What arrived is taken when its route is whole; its route is kept.
    pub open spec fn on_recv_by_pipe(self, tok: EndpointId, raw: MessageView) -> (RepView, Seq<ActionView>) {
        match route_taken(raw, self.ttl) {
            Some(m) => RepView { backtrace: m.0, ..self }.state_on_recv_by_pipe(tok, m),
            None => (self, Seq::empty()),
        }
    }

    pub open spec fn ready(self, tok: EndpointId, events: Readiness) -> Seq<ActionView> {
        if_piped(self.pipes, tok, ActionView::Ready(tok, events))
    }

    pub open spec fn on_recv_timeout(self) -> (RepView, Seq<ActionView>) {
        (
            RepView { state: StateView::Idle, fq: self.fq.advanced(), ..self },
            seq![ActionView::Reply(ReplyView::Error(Failure::RecvTimedOut))] + self.on_active(
                |t: EndpointId| ActionView::CancelRecv(t),
            ),
        )
    }
}

/// A reply goes back on the pipe its request came from, carrying the route
/// that the request came with, when the socket still has that pipe.
pub proof fn lemma_reply_goes_back(v: RepView, tok: EndpointId, raw: MessageView, reply: MessageView, t: Timeout)
    requires
        route_taken(raw, v.ttl) is Some,
        v.pipes.contains(tok),
    ensures
        ({
            let req = route_taken(raw, v.ttl)->0;
            let (w, _) = v.on_recv_by_pipe(tok, raw);
            let (x, acts) = w.send(reply, t);
            &&& x.state == StateView::Sending(route_given(reply, req.0), t)
            &&& acts == seq![ActionView::Send(tok, route_given(reply, req.0))]
        }),
{
}

/// A reply without a request to answer fails, and the socket stays as it
/// was.
pub proof fn lemma_reply_needs_request(v: RepView, reply: MessageView, t: Timeout)
    requires
        !(v.state is Active),
    ensures
        v.send(reply, t) == (v, seq![ActionView::Reply(ReplyView::Error(Failure::SendWithoutPending))] + cancelled(t)),
{
}

/// Moves the route of a request from its body to its header: hops of four
/// bytes, up to the one whose first byte has its highest bit set.
pub fn decode(raw_msg: Message, _tok: EndpointId, ttl: u8) -> (r: Option<Message>)
    ensures
        r matches Some(m) ==> route_taken(raw_msg@, ttl) == Some(m@),
        r is None ==> route_taken(raw_msg@, ttl) is None,
{
    let ghost raw = raw_msg@;
    let (mut header, mut body) = raw_msg.split();
    let mut hops: u8 = 0;
    proof {
        assert(body@ =~= raw.1.skip(0));
        assert(header@ =~= raw.0 + raw.1.take(0));
    }

    loop
        invariant
            raw == raw_msg@,
            hops <= ttl,
            4 * hops <= raw.1.len(),
            body@ == raw.1.skip(4 * hops as int),
            header@ == raw.0 + raw.1.take(4 * hops as int),
            route_len(raw.1, ttl as nat) == match route_len(body@, (ttl - hops) as nat) {
                Some(n) => Some((n + 4 * hops) as nat),
                None => None::<nat>,
            },
        decreases ttl - hops,
    {
        if hops >= ttl {
            proof {
                assert(route_len(body@, (ttl - hops) as nat) is None);
            }
            return None;
        }
        hops = hops + 1;

        if body.len() < 4 {
            proof {
                assert(route_len(body@, (ttl - (hops - 1)) as nat) is None);
            }
            return None;
        }

        let ghost before = body@;
        let tail = body.split_off(4);
        header.extend_from_slice(body.as_slice());

        let position = header.len() - 4;
        let first = header[position];
        proof {
            assert(before.subrange(4, before.len() as int) =~= tail@);
            assert(first == before[0]);
            assert(raw.1.take(4 * hops as int) =~= raw.1.take(4 * (hops - 1) as int) + before.take(4));
            assert(body@ =~= before.take(4));
            assert(tail@ =~= raw.1.skip(4 * hops as int));
            assert((first & 0x80 != 0) == (first >= 0x80)) by (bit_vector);
        }
        if first & 0x80 != 0 {
            return Some(Message::from_header_and_body(header, tail));
        }
        body = tail;
    }
}

/// The reply with the route of its request after its header.
pub fn encode(msg: Message, backtrace: &[u8]) -> (raw: Message)
    ensures
        raw@ == route_given(msg@, backtrace@),
{
    let (mut header, body) = msg.split();
    header.extend_from_slice(backtrace);
    Message::from_header_and_body(header, body)
}

struct Body {
    pipes: EidSet,
    fq: PrioList,
    ttl: u8,
    backtrace: Vec<u8>,
}

impl Body {
    closed spec fn view_with(&self, s: StateView) -> RepView {
        RepView { state: s, pipes: self.pipes@, fq: self.fq@, ttl: self.ttl, backtrace: self.backtrace@ }
    }

    closed spec fn inv(&self) -> bool {
        &&& self.pipes.inv()
        &&& self.fq.inv()
    }

    fn get_backtrace(&self) -> (r: &[u8])
        ensures
            r@ == self.backtrace@,
    {
        self.backtrace.as_slice()
    }

    fn set_backtrace(&mut self, backtrace: &[u8])
        ensures
            final(self).backtrace@ == backtrace@,
            final(self).pipes == old(self).pipes,
            final(self).fq == old(self).fq,
            final(self).ttl == old(self).ttl,
    {
        self.backtrace.clear();
        self.backtrace.extend_from_slice(backtrace);
    }

    fn clear_backtrace(&mut self)
        ensures
            final(self).backtrace@ == Seq::<u8>::empty(),
            final(self).pipes == old(self).pipes,
            final(self).fq == old(self).fq,
            final(self).ttl == old(self).ttl,
    {
        self.backtrace.clear();
    }

    fn add_pipe(&mut self, tok: EndpointId) -> (r: Result<(), Failure>)
        requires
            old(self).inv(),
        ensures
            final(self).inv(),
            forall|s: StateView| (#[trigger] final(self).view_with(s), r) == old(self).view_with(s).add_pipe(tok),
    {
        if self.pipes.insert(tok) {
            Ok(())
        } else {
            Err(Failure::PipeAlreadyAdded)
        }
    }

    fn remove_pipe(&mut self, tok: EndpointId) -> (had: bool)
        requires
            old(self).inv(),
        ensures
            final(self).inv(),
            had == old(self).pipes@.contains(tok),
            forall|s: StateView| #[trigger] final(self).view_with(s) == (RepView {
                pipes: eid_removed(old(self).pipes@, tok),
                fq: old(self).fq@.removed(tok),
                ..old(self).view_with(s)
            }),
    {
        self.fq.remove(&tok);
        self.pipes.remove(&tok)
    }

    fn register_pipe(&mut self, ctx: &mut Context, tok: EndpointId)
        requires
            old(self).inv(),
        ensures
            final(self).inv(),
            forall|s: StateView| #[trigger] final(self).view_with(s) == old(self).view_with(s).register_pipe(tok).0,
            final(ctx)@ == old(ctx)@ + if_piped(old(self).pipes@, tok, ActionView::Open(tok)),
            final(ctx).next_timer() == old(ctx).next_timer(),
    {
        self.fq.insert(tok, 8);
        if self.pipes.contains(&tok) {
            ctx.record(Action::Open(tok));
        } else {
            proof {
                assert(old(ctx)@ + Seq::<ActionView>::empty() =~= old(ctx)@);
            }
        }
    }

    fn on_pipe_register(&mut self, ctx: &mut Context, tok: EndpointId)
        requires
            old(self).inv(),
        ensures
            final(self).inv(),
            forall|s: StateView| #[trigger] final(self).view_with(s) == (RepView {
                fq: old(self).fq@.activated(tok),
                ..old(self).view_with(s)
            }),
            final(ctx)@ == old(ctx)@ + if_piped(old(self).pipes@, tok, ActionView::AckOpen(tok)),
            final(ctx).next_timer() == old(ctx).next_timer(),
    {
        self.fq.activate(tok);
        if self.pipes.contains(&tok) {
            ctx.record(Action::AckOpen(tok));
        } else {
            proof {
                assert(old(ctx)@ + Seq::<ActionView>::empty() =~= old(ctx)@);
            }
        }
    }

    /// The pipe that the list selects, if one is kept under its token.
    fn get_active_pipe(&self) -> (r: Option<EndpointId>)
        ensures
            r == self.view_with(StateView::Idle).active_pipe(),
    {
        match self.fq.get() {
            Some(tok) => if self.pipes.contains(&tok) {
                Some(tok)
            } else {
                None
            },
            None => None,
        }
    }

    fn is_active_pipe(&self, tok: EndpointId) -> (b: bool)
        ensures
            b == (self.fq@.current == Some(tok)),
    {
        match self.fq.get() {
            Some(t) => t == tok,
            None => false,
        }
    }

    fn advance_pipe(&mut self)
        requires
            old(self).inv(),
        ensures
            final(self).inv(),
            forall|s: StateView| #[trigger] final(self).view_with(s) == (RepView {
                fq: old(self).fq@.advanced(),
                ..old(self).view_with(s)
            }),
    {
        self.fq.advance();
    }
}

impl State {
    fn on_pipe_removed(self, body: &Body, tok: EndpointId) -> (s: State)
        ensures
            s@ == match self@ {
                StateView::Sending(m, t) => if body.fq@.current == Some(tok) {
                    StateView::SendOnHold(m, t)
                } else {
                    self@
                },
                StateView::Receiving(t) => if body.fq@.current == Some(tok) {
                    StateView::RecvOnHold(t)
                } else {
                    self@
                },
                _ => self@,
            },
    {
        match self {
            State::Sending(msg, t) => {
                if body.is_active_pipe(tok) {
                    State::SendOnHold(msg, t)
                } else {
                    State::Sending(msg, t)
                }
            },
            State::Receiving(t) => {
                if body.is_active_pipe(tok) {
                    State::RecvOnHold(t)
                } else {
                    State::Receiving(t)
                }
            },
            other => other,
        }
    }

    fn send(self, body: &Body, ctx: &mut Context, msg: Message, timeout: Timeout) -> (s: State)
        ensures
            ({
                let (w, acts) = body.view_with(self@).state_send(msg@, timeout);
                &&& body.view_with(s@) == w
                &&& final(ctx)@ == old(ctx)@ + acts
            }),
            final(ctx).next_timer() == old(ctx).next_timer(),
    {
        if let State::Active(tok) = self {
            if body.pipes.contains(&tok) {
                ctx.record(Action::Send(tok, msg.clone()));
                proof {
                    assert(ctx@ =~= old(ctx)@ + seq![ActionView::Send(tok, msg@)]);
                }
                State::Sending(msg, timeout)
            } else {
                proof {
                    assert(ctx@ =~= old(ctx)@ + Seq::<ActionView>::empty());
                }
                State::SendOnHold(msg, timeout)
            }
        } else {
            ctx.reply(Reply::Error(Failure::SendWithoutPending));
            clear_timeout(ctx, timeout);
            proof {
                assert(ctx@ =~= old(ctx)@ + (seq![ActionView::Reply(ReplyView::Error(Failure::SendWithoutPending))]
                    + cancelled(timeout)));
            }
            self
        }
    }

    fn recv(self, body: &Body, ctx: &mut Context, timeout: Timeout) -> (s: State)
        ensures
            ({
                let (w, acts) = body.view_with(self@).state_recv(timeout);
                &&& body.view_with(s@) == w
                &&& final(ctx)@ == old(ctx)@ + acts
            }),
            final(ctx).next_timer() == old(ctx).next_timer(),
    {
        if let Some(tok) = body.get_active_pipe() {
            ctx.record(Action::Recv(tok));
            proof {
                assert(ctx@ =~= old(ctx)@ + seq![ActionView::Recv(tok)]);
            }
            State::Receiving(timeout)
        } else {
            proof {
                assert(ctx@ =~= old(ctx)@ + Seq::<ActionView>::empty());
            }
            State::RecvOnHold(timeout)
        }
    }

    fn on_pipe_register(self, body: &mut Body, ctx: &mut Context, tok: EndpointId) -> (s: State)
        requires
            old(body).inv(),
        ensures
            final(body).inv(),
            ({
                let (w, acts) = old(body).view_with(self@).on_pipe_register(tok);
                &&& final(body).view_with(s@) == w
                &&& final(ctx)@ == old(ctx)@ + acts
            }),
            final(ctx).next_timer() == old(ctx).next_timer(),
    {
        body.on_pipe_register(ctx, tok);
        let ghost told = ctx@;
        match self {
            State::SendOnHold(msg, t) => {
                let s = State::Idle.send(body, ctx, msg, t);
                proof {
                    assert(ctx@ =~= old(ctx)@ + old(body).view_with(self@).on_pipe_register(tok).1);
                }
                s
            },
            State::RecvOnHold(t) => {
                let s = State::Idle.recv(body, ctx, t);
                proof {
                    assert(ctx@ =~= old(ctx)@ + old(body).view_with(self@).on_pipe_register(tok).1);
                }
                s
            },
            other => other,
        }
    }

    fn on_send_by_pipe(self, body: &mut Body, ctx: &mut Context) -> (s: State)
        requires
            old(body).inv(),
        ensures
            final(body).inv(),
            ({
                let (w, acts) = old(body).view_with(self@).state_on_send_by_pipe();
                &&& final(body).view_with(s@) == w
                &&& final(ctx)@ == old(ctx)@ + acts
            }),
            final(ctx).next_timer() == old(ctx).next_timer(),
    {
        if let State::Sending(_, timeout) = self {
            ctx.reply(Reply::Send);
            body.advance_pipe();
            clear_timeout(ctx, timeout);
            proof {
                assert(ctx@ =~= old(ctx)@ + (seq![ActionView::Reply(ReplyView::Send)] + cancelled(timeout)));
            }
        } else {
            proof {
                assert(ctx@ =~= old(ctx)@ + Seq::<ActionView>::empty());
            }
        }
        State::Idle
    }

    fn on_send_timeout(self, body: &mut Body, ctx: &mut Context) -> (s: State)
        requires
            old(body).inv(),
        ensures
            final(body).inv(),
            ({
                let (w, acts) = old(body).view_with(self@).on_send_timeout();
                &&& final(body).view_with(s@) == w
                &&& final(ctx)@ == old(ctx)@ + acts
            }),
            final(ctx).next_timer() == old(ctx).next_timer(),
    {
        ctx.reply(Reply::Error(Failure::SendTimedOut));
        if let Some(tok) = body.get_active_pipe() {
            ctx.record(Action::CancelSend(tok));
        }
        body.advance_pipe();
        proof {
            assert(ctx@ =~= old(ctx)@ + old(body).view_with(self@).on_send_timeout().1);
        }
        State::Idle
    }

    fn on_recv_by_pipe(self, body: &mut Body, ctx: &mut Context, tok: EndpointId, msg: Message) -> (s: State)
        requires
            old(body).inv(),
        ensures
            final(body).inv(),
            ({
                let (w, acts) = old(body).view_with(self@).state_on_recv_by_pipe(tok, msg@);
                &&& final(body).view_with(s@) == w
                &&& final(ctx)@ == old(ctx)@ + acts
            }),
            final(ctx).next_timer() == old(ctx).next_timer(),
    {
        if let State::Receiving(timeout) = self {
            let ghost m = msg@;
            ctx.reply(Reply::Recv(msg));
            body.advance_pipe();
            clear_timeout(ctx, timeout);
            proof {
                assert(ctx@ =~= old(ctx)@ + (seq![ActionView::Reply(ReplyView::Recv(m))] + cancelled(timeout)));
            }
        } else {
            proof {
                assert(ctx@ =~= old(ctx)@ + Seq::<ActionView>::empty());
            }
        }
        State::Active(tok)
    }

    fn on_recv_timeout(self, body: &mut Body, ctx: &mut Context) -> (s: State)
        requires
            old(body).inv(),
        ensures
            final(body).inv(),
            ({
                let (w, acts) = old(body).view_with(self@).on_recv_timeout();
                &&& final(body).view_with(s@) == w
                &&& final(ctx)@ == old(ctx)@ + acts
            }),
            final(ctx).next_timer() == old(ctx).next_timer(),
    {
        ctx.reply(Reply::Error(Failure::RecvTimedOut));
        if let Some(tok) = body.get_active_pipe() {
            ctx.record(Action::CancelRecv(tok));
        }
        body.advance_pipe();
        proof {
            assert(ctx@ =~= old(ctx)@ + old(body).view_with(self@).on_recv_timeout().1);
        }
        State::Idle
    }
}

pub struct Rep {
    body: Body,
    state: Option<State>,
}

impl View for Rep {
    type V = RepView;

    closed spec fn view(&self) -> RepView {
        self.body.view_with(
            match self.state {
                Some(s) => s@,
                None => StateView::Idle,
            },
        )
    }
}

impl Rep {
    pub closed spec fn inv(&self) -> bool {
        &&& self.state is Some
        &&& self.body.inv()
    }

    pub fn new() -> (r: Rep)
        ensures
            r.inv(),
            r@ == (RepView {
                state: StateView::Idle,
                pipes: Seq::empty(),
                fq: TokenListModel { pending: Set::empty(), active: Set::empty(), current: None },
                ttl: TTL,
                backtrace: Seq::empty(),
            }),
    {
        let body = Body { pipes: EidSet::new(), fq: PrioList::new(), ttl: TTL, backtrace: Vec::new() };
        let r = Rep { body, state: Some(State::Idle) };
        proof {
            assert(r@.backtrace =~= Seq::<u8>::empty());
        }
        r
    }

    pub fn id(&self) -> (id: u16)
        ensures
            id == crate::proto::REP,
    {
        crate::proto::REP
    }

    pub fn peer_id(&self) -> (id: u16)
        ensures
            id == crate::proto::REQ,
    {
        crate::proto::REQ
    }

    fn take_state(&mut self) -> (s: State)
        requires
            old(self).inv(),
        ensures
            s@ == old(self)@.state,
            final(self).body == old(self).body,
            final(self).state is None,
    {
        match self.state.take() {
            Some(s) => s,
            None => State::Idle,
        }
    }

    /// Keeps the pipe `tok`; fails when a pipe is already kept under that
    /// token.
    pub fn add_pipe(&mut self, tok: EndpointId) -> (r: Result<(), Failure>)
        requires
            old(self).inv(),
        ensures
            final(self).inv(),
            (final(self)@, r) == old(self)@.add_pipe(tok),
    {
        self.body.add_pipe(tok)
    }

    /// Forgets the pipe `tok`; tells whether the socket kept it.
    pub fn remove_pipe(&mut self, tok: EndpointId) -> (had: bool)
        requires
            old(self).inv(),
        ensures
            final(self).inv(),
            (final(self)@, had) == old(self)@.remove_pipe(tok),
    {
        let s = self.take_state();
        let had = self.body.remove_pipe(tok);
        if had {
            self.state = Some(s.on_pipe_removed(&self.body, tok));
        } else {
            self.state = Some(s);
        }
        had
    }

    pub fn register_pipe(&mut self, ctx: &mut Context, tok: EndpointId)
        requires
            old(self).inv(),
        ensures
            final(self).inv(),
            final(self)@ == old(self)@.register_pipe(tok).0,
            final(ctx)@ == old(ctx)@ + old(self)@.register_pipe(tok).1,
            final(ctx).next_timer() == old(ctx).next_timer(),
    {
        self.body.register_pipe(ctx, tok);
    }

    pub fn on_pipe_register(&mut self, ctx: &mut Context, tok: EndpointId)
        requires
            old(self).inv(),
        ensures
            final(self).inv(),
            final(self)@ == old(self)@.on_pipe_register(tok).0,
            final(ctx)@ == old(ctx)@ + old(self)@.on_pipe_register(tok).1,
            final(ctx).next_timer() == old(ctx).next_timer(),
    {
        let s = self.take_state();
        let s = s.on_pipe_register(&mut self.body, ctx, tok);
        self.state = Some(s);
    }

    /// Sends the reply to the request received last.
    pub fn send(&mut self, ctx: &mut Context, msg: Message, timeout: Timeout)
        requires
            old(self).inv(),
        ensures
            final(self).inv(),
            final(self)@ == old(self)@.send(msg@, timeout).0,
            final(ctx)@ == old(ctx)@ + old(self)@.send(msg@, timeout).1,
            final(ctx).next_timer() == old(ctx).next_timer(),
    {
        let raw_msg = encode(msg, self.body.get_backtrace());
        let s = self.take_state();
        let s = s.send(&self.body, ctx, raw_msg, timeout);
        self.state = Some(s);
    }

    /// A pipe sent the message it was given.
    pub fn on_send_by_pipe(&mut self, ctx: &mut Context, _tok: EndpointId)
        requires
            old(self).inv(),
        ensures
            final(self).inv(),
            final(self)@ == old(self)@.on_send_by_pipe().0,
            final(ctx)@ == old(ctx)@ + old(self)@.on_send_by_pipe().1,
            final(ctx).next_timer() == old(ctx).next_timer(),
    {
        self.body.clear_backtrace();
        let s = self.take_state();
        let s = s.on_send_by_pipe(&mut self.body, ctx);
        self.state = Some(s);
    }

    pub fn on_send_timeout(&mut self, ctx: &mut Context)
        requires
            old(self).inv(),
        ensures
            final(self).inv(),
            final(self)@ == old(self)@.on_send_timeout().0,
            final(ctx)@ == old(ctx)@ + old(self)@.on_send_timeout().1,
            final(ctx).next_timer() == old(ctx).next_timer(),
    {
        let s = self.take_state();
        let s = s.on_send_timeout(&mut self.body, ctx);
        self.state = Some(s);
    }

    pub fn recv(&mut self, ctx: &mut Context, timeout: Timeout)
        requires
            old(self).inv(),
        ensures
            final(self).inv(),
            final(self)@ == old(self)@.state_recv(timeout).0,
            final(ctx)@ == old(ctx)@ + old(self)@.state_recv(timeout).1,
            final(ctx).next_timer() == old(ctx).next_timer(),
    {
        let s = self.take_state();
        let s = s.recv(&self.body, ctx, timeout);
        self.state = Some(s);
    }

    /// A message came from pipe `tok`; one whose route is not whole is left
    /// aside.
    pub fn on_recv_by_pipe(&mut self, ctx: &mut Context, tok: EndpointId, raw_msg: Message)
        requires
            old(self).inv(),
        ensures
            final(self).inv(),
            final(self)@ == old(self)@.on_recv_by_pipe(tok, raw_msg@).0,
            final(ctx)@ == old(ctx)@ + old(self)@.on_recv_by_pipe(tok, raw_msg@).1,
            final(ctx).next_timer() == old(ctx).next_timer(),
    {
        if let Some(msg) = decode(raw_msg, tok, self.body.ttl) {
            self.body.set_backtrace(msg.get_header().as_slice());
            let s = self.take_state();
            let s = s.on_recv_by_pipe(&mut self.body, ctx, tok, msg);
            self.state = Some(s);
        } else {
            proof {
                assert(ctx@ =~= old(ctx)@ + Seq::<ActionView>::empty());
            }
        }
    }

    pub fn on_recv_timeout(&mut self, ctx: &mut Context)
        requires
            old(self).inv(),
        ensures
            final(self).inv(),
            final(self)@ == old(self)@.on_recv_timeout().0,
            final(ctx)@ == old(ctx)@ + old(self)@.on_recv_timeout().1,
            final(ctx).next_timer() == old(ctx).next_timer(),
    {
        let s = self.take_state();
        let s = s.on_recv_timeout(&mut self.body, ctx);
        self.state = Some(s);
    }

    /// A poll reported `events` on pipe `tok`: the pipe gets the report.
    pub fn ready(&self, ctx: &mut Context, tok: EndpointId, events: Readiness)
        requires
            self.inv(),
        ensures
            final(ctx)@ == old(ctx)@ + self@.ready(tok, events),
            final(ctx).next_timer() == old(ctx).next_timer(),
    {
        if self.body.pipes.contains(&tok) {
            ctx.record(Action::Ready(tok, events));
        } else {
            proof {
                assert(old(ctx)@ + Seq::<ActionView>::empty() =~= old(ctx)@);
            }
        }
    }
}

} // verus!
