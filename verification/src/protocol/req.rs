//! REQ on the event-loop layer: a request goes to the pipe that the
//! load-balancing list selects, the socket then waits for the reply from that
//! pipe, taking only the one that carries the id of the request, and keeps a
//! resend timer running while it waits.
//!
//! The pipes themselves are driven from outside: what the socket asks of a
//! pipe (open it, send or receive on it, poll it again, close it) is recorded
//! in the context, in order, with the replies to the user and the timers.
use vstd::prelude::*;

use crate::common::{
    Action, ActionView, EndpointId, Failure, Message, MessageView, Readiness, Reply, ReplyView, Schedulable, Timeout,
};
use crate::context::{cancelled, Context};
use crate::proto::pipes::{eid_removed, EidSet};
use crate::proto::req::{clock_nanos, decode, encode, id_decoded, id_encoded, req_id_of};
use crate::protocol::policy::clear_timeout;
use crate::protocol::policy::priolist::{PrioList, PrioListModel};

verus! {

/// A request that went out and waits for its reply: the pipe it went to,
/// the request, and the resend timer.
pub struct PendingRequest {
    pub peer: EndpointId,
    pub req: Message,
    pub timeout: Timeout,
}

pub struct PendingView {
    pub peer: EndpointId,
    pub req: MessageView,
    pub timeout: Timeout,
}

impl View for PendingRequest {
    type V = PendingView;

    open spec fn view(&self) -> PendingView {
        PendingView { peer: self.peer, req: self.req@, timeout: self.timeout }
    }
}

pub enum State {
    Idle,
    Sending(EndpointId, Message, Timeout),
    SendOnHold(Message, Timeout),
    WaitingReply(PendingRequest),
    Receiving(PendingRequest, Timeout),
    RecvOnHold(PendingRequest, Timeout),
}

pub enum StateView {
    Idle,
    Sending(EndpointId, MessageView, Timeout),
    SendOnHold(MessageView, Timeout),
    WaitingReply(PendingView),
    Receiving(PendingView, Timeout),
    RecvOnHold(PendingView, Timeout),
}

impl View for State {
    type V = StateView;

    open spec fn view(&self) -> StateView {
        match self {
            State::Idle => StateView::Idle,
            State::Sending(e, m, t) => StateView::Sending(*e, m@, *t),
            State::SendOnHold(m, t) => StateView::SendOnHold(m@, *t),
            State::WaitingReply(p) => StateView::WaitingReply(p@),
            State::Receiving(p, t) => StateView::Receiving(p@, *t),
            State::RecvOnHold(p, t) => StateView::RecvOnHold(p@, *t),
        }
    }
}

/// A REQ socket seen as its state, the tokens of its pipes, its
/// load-balancing list, the sequence of request ids, the resend interval in
/// milliseconds (none when zero) and whether it serves a device.
pub struct ReqView {
    pub state: StateView,
    pub pipes: Seq<EndpointId>,
    pub lb: PrioListModel,
    pub req_id_seq: u32,
    pub resend_interval: u64,
    pub is_device_item: bool,
}

/// `a` when the socket has a pipe under `tok`, nothing otherwise.
pub open spec fn if_piped(pipes: Seq<EndpointId>, tok: EndpointId, a: ActionView) -> Seq<ActionView> {
    if pipes.contains(tok) {
        seq![a]
    } else {
        Seq::empty()
    }
}

/// Closing the pipes, in order.
pub open spec fn closed_each(pipes: Seq<EndpointId>) -> Seq<ActionView> {
    pipes.map_values(|t: EndpointId| ActionView::Close(t))
}

impl ReqView {
    pub open spec fn cur_req_id(self) -> u32 {
        req_id_of(self.req_id_seq)
    }

    /// The pipe that the list selects, if the socket has it.
    pub open spec fn active_pipe(self) -> Option<EndpointId> {
        match self.lb.get() {
            Some(t) => if self.pipes.contains(t) {
                Some(t)
            } else {
                None
            },
            None => None,
        }
    }

    /// The pipe a message goes to, and the sending.
    pub open spec fn sent_to(self, msg: MessageView) -> (Option<EndpointId>, Seq<ActionView>) {
        match self.active_pipe() {
            Some(t) => (Some(t), seq![ActionView::Send(t, msg)]),
            None => (None, Seq::empty()),
        }
    }

    /// The resend timer, started with identifier `nt` when the interval is
    /// not zero and an identifier is left.
    pub open spec fn resend_scheduled(self, nt: nat) -> (Timeout, Seq<ActionView>, nat) {
        if self.resend_interval > 0 && nt < usize::MAX {
            (
                Some(nt as usize),
                seq![ActionView::Schedule(nt as usize, Schedulable::ReqResend, self.resend_interval)],
                nt + 1,
            )
        } else {
            (None, Seq::empty(), nt)
        }
    }

    pub open spec fn add_pipe(self, tok: EndpointId, priority: u8) -> (ReqView, Result<(), Failure>) {
        if self.pipes.contains(tok) {
            (self, Err(Failure::PipeAlreadyAdded))
        } else {
            (ReqView { pipes: self.pipes.push(tok), lb: self.lb.inserted(tok, priority), ..self }, Ok(()))
        }
    }

    /// A send on pipe `tok` stops waiting for it, and a receive from it
    /// waits for it again.
    pub open spec fn on_pipe_removed(self, tok: EndpointId) -> StateView {
        match self.state {
            StateView::Sending(t, m, timeout) => if t == tok {
                StateView::SendOnHold(m, timeout)
            } else {
                self.state
            },
            StateView::Receiving(p, timeout) => if p.peer == tok {
                StateView::RecvOnHold(p, timeout)
            } else {
                self.state
            },
            _ => self.state,
        }
    }

    pub open spec fn remove_pipe(self, tok: EndpointId) -> (ReqView, bool) {
        let had = self.pipes.contains(tok);
        let v = ReqView { pipes: eid_removed(self.pipes, tok), lb: self.lb.removed(tok), ..self };
        if had {
            (ReqView { state: self.on_pipe_removed(tok), ..v }, true)
        } else {
            (v, false)
        }
    }

    pub open spec fn on_pipe_opened(self, tok: EndpointId) -> (ReqView, Seq<ActionView>) {
        (ReqView { lb: self.lb.shown(tok), ..self }, if_piped(self.pipes, tok, ActionView::AckOpen(tok)))
    }

    /// Sending from this state: the resend timer of a request waiting for its
    /// reply is cancelled, then the message goes to the selected pipe or
    /// waits for one.
    pub open spec fn state_send(self, msg: MessageView, t: Timeout) -> (ReqView, Seq<ActionView>) {
        let cancel = match self.state {
            StateView::WaitingReply(p) => cancelled(p.timeout),
            _ => Seq::empty(),
        };
        let (sent, acts) = self.sent_to(msg);
        let state = match sent {
            Some(tok) => StateView::Sending(tok, msg, t),
            None => StateView::SendOnHold(msg, t),
        };
        (ReqView { state, ..self }, cancel + acts)
    }

    /// The request as it goes out, and the sequence afterwards: it gets the
    /// next id, unless the socket serves a device.
    pub open spec fn outgoing(self, msg: MessageView) -> (MessageView, u32) {
        if self.is_device_item {
            (msg, self.req_id_seq)
        } else {
            (id_encoded(msg, req_id_of((self.req_id_seq + 1) as u32)), (self.req_id_seq + 1) as u32)
        }
    }

    pub open spec fn send(self, msg: MessageView, t: Timeout) -> (ReqView, Seq<ActionView>) {
        let (raw, seq) = self.outgoing(msg);
        ReqView { req_id_seq: seq, ..self }.state_send(raw, t)
    }

    /// A pipe that took its message is shown again and polled again.
    pub open spec fn sent_late(self, tok: EndpointId) -> (ReqView, Seq<ActionView>) {
        (ReqView { lb: self.lb.shown(tok), ..self }, if_piped(self.pipes, tok, ActionView::Resync(tok)))
    }

    /// The pipe `tok` took its message. When it is the one the request went
    /// to, the user is told, the selected pipe polled again, the list
    /// advanced, the send timer cancelled, and the request waits for its
    /// reply with a resend timer (identifier `nt`).
    pub open spec fn on_send_done(self, tok: EndpointId, nt: nat) -> (ReqView, Seq<ActionView>, nat) {
        match self.state {
            StateView::Sending(t, m, timeout) => if t == tok {
                let resync = match self.active_pipe() {
                    Some(a) => seq![ActionView::Resync(a)],
                    None => Seq::empty(),
                };
                let v = ReqView { lb: self.lb.advanced(), ..self };
                let (rt, sched, nt2) = v.resend_scheduled(nt);
                (
                    ReqView { state: StateView::WaitingReply(PendingView { peer: tok, req: m, timeout: rt }), ..v },
                    seq![ActionView::Reply(ReplyView::Send)] + resync + cancelled(timeout) + sched,
                    nt2,
                )
            } else {
                let (w, acts) = self.sent_late(tok);
                (w, acts, nt)
            },
            _ => {
                let (w, acts) = self.sent_late(tok);
                (w, acts, nt)
            },
        }
    }

    pub open spec fn on_send_timeout(self) -> (ReqView, Seq<ActionView>) {
        (
            ReqView { state: StateView::Idle, lb: self.lb.skipped(), ..self },
            seq![ActionView::Reply(ReplyView::Error(Failure::SendTimedOut))],
        )
    }

    /// The resend timer fired: a request waiting for its reply keeps waiting,
    /// with a new resend timer.
    pub open spec fn resend(self, nt: nat) -> (ReqView, Seq<ActionView>, nat) {
        match self.state {
            StateView::WaitingReply(p) => {
                let (rt, sched, nt2) = self.resend_scheduled(nt);
                (ReqView { state: StateView::WaitingReply(PendingView { timeout: rt, ..p }), ..self }, sched, nt2)
            },
            _ => (self, Seq::empty(), nt),
        }
    }

    /// Reading the reply to `p` from its pipe, or waiting for the pipe.
    pub open spec fn try_recv(self, t: Timeout, p: PendingView) -> (ReqView, Seq<ActionView>) {
        if self.pipes.contains(p.peer) {
            (ReqView { state: StateView::Receiving(p, t), ..self }, seq![ActionView::Recv(p.peer)])
        } else {
            (ReqView { state: StateView::RecvOnHold(p, t), ..self }, Seq::empty())
        }
    }

    pub open spec fn recv(self, t: Timeout) -> (ReqView, Seq<ActionView>) {
        match self.state {
            StateView::WaitingReply(p) => self.try_recv(t, p),
            _ => (self, seq![ActionView::Reply(ReplyView::Error(Failure::RecvWithoutPending))] + cancelled(t)),
        }
    }

    /// A message with id `req_id` came from pipe `tok`.
    pub open spec fn state_on_recv_done(self, tok: EndpointId, msg: MessageView, req_id: u32) -> (
        ReqView,
        Seq<ActionView>,
    ) {
        match self.state {
            StateView::Receiving(p, t) => if p.peer == tok {
                if req_id == self.cur_req_id() {
                    (
                        ReqView { state: StateView::Idle, ..self },
                        seq![ActionView::Reply(ReplyView::Recv(msg))] + cancelled(t) + cancelled(p.timeout),
                    )
                } else {
                    self.try_recv(t, p)
                }
            } else {
                (self, Seq::empty())
            },
            _ => (ReqView { state: StateView::Idle, ..self }, Seq::empty()),
        }
    }

    /// The reply and its id, as read from what arrived: a device takes the
    /// id of the current request for any message.
    pub open spec fn incoming(self, raw: MessageView) -> Option<(MessageView, u32)> {
        if self.is_device_item {
            Some((raw, self.cur_req_id()))
        } else {
            id_decoded(raw)
        }
    }

    pub open spec fn on_recv_done(self, tok: EndpointId, raw: MessageView) -> (ReqView, Seq<ActionView>) {
        match self.incoming(raw) {
            Some((m, id)) => self.state_on_recv_done(tok, m, id),
            None => (self, Seq::empty()),
        }
    }

    pub open spec fn on_recv_timeout(self) -> (ReqView, Seq<ActionView>) {
        let acts = match self.state {
            StateView::Receiving(p, _) | StateView::RecvOnHold(p, _) => seq![
                ActionView::Reply(ReplyView::Error(Failure::RecvTimedOut)),
            ] + cancelled(p.timeout),
            _ => Seq::empty(),
        };
        (ReqView { state: StateView::Idle, ..self }, acts)
    }

    /// A poll reported on pipe `tok`: the list takes it as able to send or
    /// not, the pipe gets the report, and a request on hold goes out.
    pub open spec fn ready(self, tok: EndpointId, events: Readiness) -> (ReqView, Seq<ActionView>) {
        let lb = if events.writable {
            self.lb.activated(tok)
        } else {
            self.lb.deactivated(tok)
        };
        let told = if_piped(self.pipes, tok, ActionView::Ready(tok, events));
        let v = ReqView { lb, ..self };
        match self.state {
            StateView::SendOnHold(m, t) => {
                let (w, acts) = ReqView { state: StateView::Idle, ..v }.state_send(m, t);
                (w, told + acts)
            },
            _ => (v, told),
        }
    }
}

/// A socket that waits on a pipe for the reply to its request takes, from
/// that pipe, only the reply that carries the id of its request: the user
/// gets it, both timers are cancelled and the socket is idle; a reply with
/// another id is dropped unseen and the socket reads from the pipe again.
pub proof fn lemma_reply_needs_current_id(v: ReqView, tok: EndpointId, raw: MessageView)
    requires
        !v.is_device_item,
        v.state matches StateView::Receiving(p, _) && p.peer == tok,
        id_decoded(raw) is Some,
    ensures
        ({
            let (m, rid) = id_decoded(raw)->0;
            let (w, acts) = v.on_recv_done(tok, raw);
            &&& rid == v.cur_req_id() ==> acts[0] == ActionView::Reply(ReplyView::Recv(m)) && w.state is Idle
            &&& rid != v.cur_req_id() ==> (forall|i: int| 0 <= i < acts.len() ==> !(#[trigger] acts[i] is Reply)) && (
            w.state is Receiving || w.state is RecvOnHold)
        }),
{
}

/// A request goes out carrying the id that the socket then takes replies
/// for: whether it went to a pipe or waits for one, the message it holds is
/// the request with that id at the end of its header.
pub proof fn lemma_request_carries_current_id(v: ReqView, msg: MessageView, t: Timeout)
    requires
        !v.is_device_item,
        v.req_id_seq < u32::MAX,
    ensures
        ({
            let (w, _) = v.send(msg, t);
            match w.state {
                StateView::Sending(_, raw, _) => raw == id_encoded(msg, w.cur_req_id()),
                StateView::SendOnHold(raw, _) => raw == id_encoded(msg, w.cur_req_id()),
                _ => false,
            }
        }),
{
}

/// A request put on hold because its pipe went away goes out, as it was, as
/// soon as a poll reports a pipe that the list then selects.
pub proof fn lemma_held_request_goes_out(v: ReqView, tok: EndpointId, events: Readiness)
    requires
        v.state is SendOnHold,
        ({
            let lb = if events.writable {
                v.lb.activated(tok)
            } else {
                v.lb.deactivated(tok)
            };
            ReqView { lb, ..v }.active_pipe() is Some
        }),
    ensures
        ({
            let (w, acts) = v.ready(tok, events);
            let told = if_piped(v.pipes, tok, ActionView::Ready(tok, events));
            &&& w.state is Sending
            &&& w.state->Sending_1 == v.state->SendOnHold_0
            &&& acts[told.len() as int] == ActionView::Send(w.state->Sending_0, v.state->SendOnHold_0)
        }),
{
}

/// Losing the pipe that a request is being sent on, or that its reply is
/// being read from, keeps the request: it waits for a pipe, or for its
/// pipe, again; any other state stays as it was.
pub proof fn lemma_removed_pipe_keeps_request(v: ReqView, tok: EndpointId)
    requires
        v.pipes.no_duplicates(),
        v.pipes.contains(tok),
    ensures
        ({
            let (w, had) = v.remove_pipe(tok);
            &&& had
            &&& !w.pipes.contains(tok)
            &&& match v.state {
                StateView::Sending(t, m, timeout) => w.state == if t == tok {
                    StateView::SendOnHold(m, timeout)
                } else {
                    v.state
                },
                StateView::Receiving(p, timeout) => w.state == if p.peer == tok {
                    StateView::RecvOnHold(p, timeout)
                } else {
                    v.state
                },
                _ => w.state == v.state,
            }
        }),
{
    let i = v.pipes.index_of(tok);
    let w = eid_removed(v.pipes, tok);
    assert(w == v.pipes.remove(i));
    if w.contains(tok) {
        let k = choose|k: int| 0 <= k < w.len() && w[k] == tok;
        let ok = if k < i { k } else { k + 1 };
        assert(v.pipes[ok] == tok);
        assert(v.pipes[i] == tok);
    }
}

struct Body {
    pipes: EidSet,
    lb: PrioList,
    req_id_seq: u32,
    resend_interval: u64,
    is_device_item: bool,
}

impl Body {
    closed spec fn view_with(&self, s: StateView) -> ReqView {
        ReqView {
            state: s,
            pipes: self.pipes@,
            lb: self.lb@,
            req_id_seq: self.req_id_seq,
            resend_interval: self.resend_interval,
            is_device_item: self.is_device_item,
        }
    }

    closed spec fn inv(&self) -> bool {
        &&& self.pipes.inv()
        &&& self.lb.inv()
    }

    /// Keeps the pipe `tok`, which sends with `priority`, unless one is
    /// already kept under that token.
    fn add_pipe(&mut self, tok: EndpointId, priority: u8) -> (r: Result<(), Failure>)
        requires
            old(self).inv(),
        ensures
            final(self).inv(),
            forall|s: StateView| (#[trigger] final(self).view_with(s), r) == old(self).view_with(s).add_pipe(tok, priority),
    {
        if self.pipes.insert(tok) {
            self.lb.insert(tok, priority);
            Ok(())
        } else {
            Err(Failure::PipeAlreadyAdded)
        }
    }

    fn remove_pipe(&mut self, tok: EndpointId) -> (had: bool)
        requires
            old(self).inv(),
        ensures
            final(self).inv(),
            had == old(self).pipes@.contains(tok),
            final(self).pipes@ == eid_removed(old(self).pipes@, tok),
            final(self).lb@ == old(self).lb@.removed(tok),
            final(self).req_id_seq == old(self).req_id_seq,
            final(self).resend_interval == old(self).resend_interval,
            final(self).is_device_item == old(self).is_device_item,
    {
        self.lb.remove(&tok);
        self.pipes.remove(&tok)
    }

    fn open_pipe(&self, ctx: &mut Context, tok: EndpointId)
        ensures
            final(ctx)@ == old(ctx)@ + if_piped(self.pipes@, tok, ActionView::Open(tok)),
            final(ctx).next_timer() == old(ctx).next_timer(),
    {
        if self.pipes.contains(&tok) {
            ctx.record(Action::Open(tok));
        } else {
            proof {
                assert(old(ctx)@ + Seq::<ActionView>::empty() =~= old(ctx)@);
            }
        }
    }

    fn on_pipe_opened(&mut self, ctx: &mut Context, tok: EndpointId)
        requires
            old(self).inv(),
        ensures
            final(self).inv(),
            forall|s: StateView| #[trigger] final(self).view_with(s) == old(self).view_with(s).on_pipe_opened(tok).0,
            final(ctx)@ == old(ctx)@ + if_piped(old(self).pipes@, tok, ActionView::AckOpen(tok)),
            final(ctx).next_timer() == old(ctx).next_timer(),
    {
        self.lb.show(tok);
        if self.pipes.contains(&tok) {
            ctx.record(Action::AckOpen(tok));
        } else {
            proof {
                assert(old(ctx)@ + Seq::<ActionView>::empty() =~= old(ctx)@);
            }
        }
    }

    /// The pipe that the list selects, if one is kept under its token.
    fn get_active_pipe(&self) -> (r: Option<EndpointId>)
        requires
            self.inv(),
        ensures
            r == self.view_with(StateView::Idle).active_pipe(),
    {
        match self.lb.get() {
            Some(tok) => if self.pipes.contains(&tok) {
                Some(tok)
            } else {
                None
            },
            None => None,
        }
    }

    fn send_to(&self, ctx: &mut Context, msg: Message) -> (r: Option<EndpointId>)
        requires
            self.inv(),
        ensures
            r == self.view_with(StateView::Idle).sent_to(msg@).0,
            final(ctx)@ == old(ctx)@ + self.view_with(StateView::Idle).sent_to(msg@).1,
            final(ctx).next_timer() == old(ctx).next_timer(),
    {
        match self.get_active_pipe() {
            Some(tok) => {
                ctx.record(Action::Send(tok, msg));
                proof {
                    assert(ctx@ =~= old(ctx)@ + self.view_with(StateView::Idle).sent_to(msg@).1);
                }
                Some(tok)
            },
            None => {
                proof {
                    assert(ctx@ =~= old(ctx)@ + Seq::<ActionView>::empty());
                }
                None
            },
        }
    }

    fn schedule_resend(&self, ctx: &mut Context) -> (t: Timeout)
        ensures
            ({
                let (rt, sched, nt) = self.view_with(StateView::Idle).resend_scheduled(old(ctx).next_timer());
                &&& t == rt
                &&& final(ctx)@ == old(ctx)@ + sched
                &&& final(ctx).next_timer() == nt
            }),
    {
        if self.resend_interval > 0 {
            match ctx.schedule(Schedulable::ReqResend, self.resend_interval) {
                Ok(id) => Some(id),
                Err(_) => {
                    proof {
                        assert(old(ctx)@ + Seq::<ActionView>::empty() =~= old(ctx)@);
                    }
                    None
                },
            }
        } else {
            proof {
                assert(old(ctx)@ + Seq::<ActionView>::empty() =~= old(ctx)@);
            }
            None
        }
    }

    /// The pipe `tok` took its message after the socket moved on: it is shown
    /// again and polled again.
    fn on_send_done_late(&mut self, ctx: &mut Context, tok: EndpointId)
        requires
            old(self).inv(),
        ensures
            final(self).inv(),
            forall|s: StateView| #[trigger] final(self).view_with(s) == old(self).view_with(s).sent_late(tok).0,
            final(ctx)@ == old(ctx)@ + if_piped(old(self).pipes@, tok, ActionView::Resync(tok)),
            final(ctx).next_timer() == old(ctx).next_timer(),
    {
        self.lb.show(tok);
        if self.pipes.contains(&tok) {
            ctx.record(Action::Resync(tok));
        } else {
            proof {
                assert(old(ctx)@ + Seq::<ActionView>::empty() =~= old(ctx)@);
            }
        }
    }

    fn on_send_timeout(&mut self, ctx: &mut Context)
        requires
            old(self).inv(),
        ensures
            final(self).inv(),
            forall|s: StateView| #[trigger] final(self).view_with(s) == (ReqView { lb: old(self).lb@.skipped(), ..old(self).view_with(s) }),
            final(ctx)@ == old(ctx)@.push(ActionView::Reply(ReplyView::Error(Failure::SendTimedOut))),
            final(ctx).next_timer() == old(ctx).next_timer(),
    {
        ctx.reply(Reply::Error(Failure::SendTimedOut));
        self.lb.skip();
    }

    /// Asks the pipe `tok` for a message; false when no pipe is kept under
    /// that token.
    fn recv(&self, ctx: &mut Context, tok: EndpointId) -> (started: bool)
        ensures
            started == self.pipes@.contains(tok),
            final(ctx)@ == old(ctx)@ + if_piped(self.pipes@, tok, ActionView::Recv(tok)),
            final(ctx).next_timer() == old(ctx).next_timer(),
    {
        if self.pipes.contains(&tok) {
            ctx.record(Action::Recv(tok));
            true
        } else {
            proof {
                assert(old(ctx)@ + Seq::<ActionView>::empty() =~= old(ctx)@);
            }
            false
        }
    }

    fn ready(&mut self, ctx: &mut Context, tok: EndpointId, events: Readiness)
        requires
            old(self).inv(),
        ensures
            final(self).inv(),
            forall|s: StateView| #[trigger] final(self).view_with(s) == (ReqView {
                lb: if events.writable {
                    old(self).lb@.activated(tok)
                } else {
                    old(self).lb@.deactivated(tok)
                },
                ..old(self).view_with(s)
            }),
            final(ctx)@ == old(ctx)@ + if_piped(old(self).pipes@, tok, ActionView::Ready(tok, events)),
            final(ctx).next_timer() == old(ctx).next_timer(),
    {
        if events.writable {
            self.lb.activate(tok);
        } else {
            self.lb.deactivate(tok);
        }
        if self.pipes.contains(&tok) {
            ctx.record(Action::Ready(tok, events));
        } else {
            proof {
                assert(old(ctx)@ + Seq::<ActionView>::empty() =~= old(ctx)@);
            }
        }
    }

    /// Closes every pipe, in the order they were kept, and forgets them.
    fn destroy_pipes(&mut self, ctx: &mut Context)
        requires
            old(self).inv(),
        ensures
            final(self).inv(),
            forall|s: StateView| #[trigger] final(self).view_with(s) == (ReqView { pipes: Seq::empty(), ..old(self).view_with(s) }),
            final(ctx)@ == old(ctx)@ + closed_each(old(self).pipes@),
            final(ctx).next_timer() == old(ctx).next_timer(),
    {
        let all = self.pipes.drain();
        let mut i: usize = 0;
        while i < all.len()
            invariant
                i <= all@.len(),
                all@ == old(self).pipes@,
                ctx@ == old(ctx)@ + closed_each(all@.take(i as int)),
                ctx.next_timer() == old(ctx).next_timer(),
            decreases all@.len() - i,
        {
            ctx.record(Action::Close(all[i]));
            proof {
                assert(closed_each(all@.take(i + 1)) =~= closed_each(all@.take(i as int)).push(ActionView::Close(all@[i as int])));
            }
            i = i + 1;
        }
        proof {
            assert(all@.take(i as int) =~= all@);
        }
    }

    fn cur_req_id(&self) -> (id: u32)
        ensures
            id == req_id_of(self.req_id_seq),
    {
        self.req_id_seq | 0x8000_0000u32
    }

    fn next_req_id(&mut self) -> (id: u32)
        requires
            old(self).req_id_seq < u32::MAX,
        ensures
            final(self).req_id_seq == old(self).req_id_seq + 1,
            id == req_id_of(final(self).req_id_seq),
            final(self).pipes == old(self).pipes,
            final(self).lb == old(self).lb,
            final(self).resend_interval == old(self).resend_interval,
            final(self).is_device_item == old(self).is_device_item,
    {
        self.req_id_seq = self.req_id_seq + 1;
        self.req_id_seq | 0x8000_0000u32
    }

    /// What arrived, as the reply and its id.
    fn raw_msg_to_msg(&self, raw_msg: Message) -> (r: Option<(Message, u32)>)
        ensures
            match r {
                Some((m, id)) => self.view_with(StateView::Idle).incoming(raw_msg@) == Some((m@, id)),
                None => self.view_with(StateView::Idle).incoming(raw_msg@) is None,
            },
    {
        if self.is_device_item {
            Some((raw_msg, self.cur_req_id()))
        } else {
            decode(raw_msg)
        }
    }

    /// The request as it goes out; unless the socket serves a device, it
    /// takes the next id.
    fn msg_to_raw_msg(&mut self, msg: Message) -> (raw: Message)
        requires
            !old(self).is_device_item ==> old(self).req_id_seq < u32::MAX,
        ensures
            (raw@, final(self).req_id_seq) == old(self).view_with(StateView::Idle).outgoing(msg@),
            final(self).pipes == old(self).pipes,
            final(self).lb == old(self).lb,
            final(self).resend_interval == old(self).resend_interval,
            final(self).is_device_item == old(self).is_device_item,
    {
        if self.is_device_item {
            msg
        } else {
            let id = self.next_req_id();
            encode(msg, id)
        }
    }
    /// The request went out on `tok`: the user is told, the selected pipe
    /// polled again, the list advanced and the send timer cancelled; the
    /// request then waits for its reply, with a resend timer.
    fn on_send_done(&mut self, ctx: &mut Context, tok: EndpointId, msg: Message, timeout: Timeout) -> (p: PendingRequest)
        requires
            old(self).inv(),
        ensures
            final(self).inv(),
            ({
                let v = old(self).view_with(StateView::Sending(tok, msg@, timeout));
                let (w, acts, nt) = v.on_send_done(tok, old(ctx).next_timer());
                &&& final(self).view_with(StateView::WaitingReply(p@)) == w
                &&& final(ctx)@ == old(ctx)@ + acts
                &&& final(ctx).next_timer() == nt
            }),
    {
        let ghost before = ctx@;
        ctx.reply(Reply::Send);
        if let Some(active) = self.get_active_pipe() {
            ctx.record(Action::Resync(active));
        }
        let ghost told = ctx@;
        self.lb.advance();
        clear_timeout(ctx, timeout);
        let ghost cancel = ctx@;
        let rt = self.schedule_resend(ctx);
        proof {
            let v = old(self).view_with(StateView::Sending(tok, msg@, timeout));
            let resync = match v.active_pipe() {
                Some(a) => seq![ActionView::Resync(a)],
                None => Seq::<ActionView>::empty(),
            };
            assert(told =~= before + (seq![ActionView::Reply(ReplyView::Send)] + resync));
            let acts = v.on_send_done(tok, old(ctx).next_timer()).1;
            assert(ctx@ =~= old(ctx)@ + acts);
        }
        PendingRequest { peer: tok, req: msg, timeout: rt }
    }

    fn on_recv_done(&self, ctx: &mut Context, msg: Message, p: PendingRequest, timeout: Timeout)
        ensures
            final(ctx)@ == old(ctx)@ + (seq![ActionView::Reply(ReplyView::Recv(msg@))] + cancelled(timeout) + cancelled(
                p.timeout,
            )),
            final(ctx).next_timer() == old(ctx).next_timer(),
    {
        let ghost m = msg@;
        ctx.reply(Reply::Recv(msg));
        clear_timeout(ctx, timeout);
        clear_timeout(ctx, p.timeout);
        proof {
            assert(ctx@ =~= old(ctx)@ + (seq![ActionView::Reply(ReplyView::Recv(m))] + cancelled(timeout) + cancelled(
                p.timeout,
            )));
        }
    }

    fn on_recv_timeout(&self, ctx: &mut Context, p: PendingRequest)
        ensures
            final(ctx)@ == old(ctx)@ + (seq![ActionView::Reply(ReplyView::Error(Failure::RecvTimedOut))] + cancelled(
                p.timeout,
            )),
            final(ctx).next_timer() == old(ctx).next_timer(),
    {
        ctx.reply(Reply::Error(Failure::RecvTimedOut));
        clear_timeout(ctx, p.timeout);
        proof {
            assert(ctx@ =~= old(ctx)@ + (seq![ActionView::Reply(ReplyView::Error(Failure::RecvTimedOut))] + cancelled(
                p.timeout,
            )));
        }
    }
}

/// Reads the reply to `p` from its pipe, or waits for the pipe.
fn try_recv(body: &Body, ctx: &mut Context, timeout: Timeout, p: PendingRequest) -> (s: State)
    ensures
        ({
            let (w, acts) = body.view_with(StateView::Idle).try_recv(timeout, p@);
            &&& body.view_with(s@) == w
            &&& final(ctx)@ == old(ctx)@ + acts
        }),
        final(ctx).next_timer() == old(ctx).next_timer(),
{
    if body.recv(ctx, p.peer) {
        State::Receiving(p, timeout)
    } else {
        State::RecvOnHold(p, timeout)
    }
}

impl State {
    fn on_pipe_removed(self, body: &Body, tok: EndpointId) -> (s: State)
        ensures
            s@ == body.view_with(self@).on_pipe_removed(tok),
    {
        match self {
            State::Sending(token, msg, timeout) => {
                if token == tok {
                    State::SendOnHold(msg, timeout)
                } else {
                    State::Sending(token, msg, timeout)
                }
            },
            State::Receiving(p, t) => {
                if p.peer == tok {
                    State::RecvOnHold(p, t)
                } else {
                    State::Receiving(p, t)
                }
            },
            other => other,
        }
    }

    fn send(self, body: &Body, ctx: &mut Context, msg: Message, timeout: Timeout) -> (s: State)
        requires
            body.inv(),
        ensures
            ({
                let (w, acts) = body.view_with(self@).state_send(msg@, timeout);
                &&& body.view_with(s@) == w
                &&& final(ctx)@ == old(ctx)@ + acts
            }),
            final(ctx).next_timer() == old(ctx).next_timer(),
    {
        let ghost before = ctx@;
        if let State::WaitingReply(p) = self {
            clear_timeout(ctx, p.timeout);
        } else {
            proof {
                assert(ctx@ =~= before + Seq::<ActionView>::empty());
            }
        }
        let ghost mid = ctx@;
        let copy = msg.clone();
        let sent = body.send_to(ctx, copy);
        proof {
            assert(ctx@ =~= old(ctx)@ + body.view_with(self@).state_send(msg@, timeout).1);
        }
        match sent {
            Some(tok) => State::Sending(tok, msg, timeout),
            None => State::SendOnHold(msg, timeout),
        }
    }

    fn on_send_done(self, body: &mut Body, ctx: &mut Context, tok: EndpointId) -> (s: State)
        requires
            old(body).inv(),
        ensures
            final(body).inv(),
            ({
                let (w, acts, nt) = old(body).view_with(self@).on_send_done(tok, old(ctx).next_timer());
                &&& final(body).view_with(s@) == w
                &&& final(ctx)@ == old(ctx)@ + acts
                &&& final(ctx).next_timer() == nt
            }),
    {
        match self {
            State::Sending(token, msg, timeout) => {
                if token == tok {
                    let pending_request = body.on_send_done(ctx, tok, msg, timeout);
                    State::WaitingReply(pending_request)
                } else {
                    body.on_send_done_late(ctx, tok);
                    State::Sending(token, msg, timeout)
                }
            },
            other => {
                body.on_send_done_late(ctx, tok);
                other
            },
        }
    }

    fn on_send_timeout(self, body: &mut Body, ctx: &mut Context) -> (s: State)
        requires
            old(body).inv(),
        ensures
            final(body).inv(),
            ({
                let (w, acts) = old(body).view_with(self@).on_send_timeout();
                &&& final(body).view_with(s@) == w
                &&& final(ctx)@ == old(ctx)@ + acts
            }),
            final(ctx).next_timer() == old(ctx).next_timer(),
    {
        body.on_send_timeout(ctx);
        State::Idle
    }

    fn resend(self, body: &Body, ctx: &mut Context) -> (s: State)
        ensures
            ({
                let (w, acts, nt) = body.view_with(self@).resend(old(ctx).next_timer());
                &&& body.view_with(s@) == w
                &&& final(ctx)@ == old(ctx)@ + acts
                &&& final(ctx).next_timer() == nt
            }),
    {
        match self {
            State::WaitingReply(p) => {
                let resend_timeout = body.schedule_resend(ctx);
                let pending_request = PendingRequest { peer: p.peer, req: p.req, timeout: resend_timeout };
                State::WaitingReply(pending_request)
            },
            other => {
                proof {
                    assert(ctx@ =~= old(ctx)@ + Seq::<ActionView>::empty());
                }
                other
            },
        }
    }

    fn recv(self, body: &Body, ctx: &mut Context, timeout: Timeout) -> (s: State)
        ensures
            ({
                let (w, acts) = body.view_with(self@).recv(timeout);
                &&& body.view_with(s@) == w
                &&& final(ctx)@ == old(ctx)@ + acts
            }),
            final(ctx).next_timer() == old(ctx).next_timer(),
    {
        match self {
            State::WaitingReply(p) => try_recv(body, ctx, timeout, p),
            other => {
                ctx.reply(Reply::Error(Failure::RecvWithoutPending));
                clear_timeout(ctx, timeout);
                proof {
                    assert(ctx@ =~= old(ctx)@ + (seq![ActionView::Reply(ReplyView::Error(Failure::RecvWithoutPending))]
                        + cancelled(timeout)));
                }
                other
            },
        }
    }

    fn on_recv_done(self, body: &Body, ctx: &mut Context, tok: EndpointId, msg: Message, req_id: u32) -> (s: State)
        ensures
            ({
                let (w, acts) = body.view_with(self@).state_on_recv_done(tok, msg@, req_id);
                &&& body.view_with(s@) == w
                &&& final(ctx)@ == old(ctx)@ + acts
            }),
            final(ctx).next_timer() == old(ctx).next_timer(),
    {
        if let State::Receiving(p, timeout) = self {
            if p.peer == tok {
                if req_id == body.cur_req_id() {
                    body.on_recv_done(ctx, msg, p, timeout);
                    State::Idle
                } else {
                    try_recv(body, ctx, timeout, p)
                }
            } else {
                proof {
                    assert(ctx@ =~= old(ctx)@ + Seq::<ActionView>::empty());
                }
                State::Receiving(p, timeout)
            }
        } else {
            proof {
                assert(ctx@ =~= old(ctx)@ + Seq::<ActionView>::empty());
            }
            State::Idle
        }
    }

    fn on_recv_timeout(self, body: &Body, ctx: &mut Context) -> (s: State)
        ensures
            ({
                let (w, acts) = body.view_with(self@).on_recv_timeout();
                &&& body.view_with(s@) == w
                &&& final(ctx)@ == old(ctx)@ + acts
            }),
            final(ctx).next_timer() == old(ctx).next_timer(),
    {
        match self {
            State::Receiving(p, _) | State::RecvOnHold(p, _) => body.on_recv_timeout(ctx, p),
            _ => {
                proof {
                    assert(ctx@ =~= old(ctx)@ + Seq::<ActionView>::empty());
                }
            },
        }
        State::Idle
    }

    fn ready(self, body: &mut Body, ctx: &mut Context, tok: EndpointId, events: Readiness) -> (s: State)
        requires
            old(body).inv(),
        ensures
            final(body).inv(),
            ({
                let (w, acts) = old(body).view_with(self@).ready(tok, events);
                &&& final(body).view_with(s@) == w
                &&& final(ctx)@ == old(ctx)@ + acts
            }),
            final(ctx).next_timer() == old(ctx).next_timer(),
    {
        let ghost before = ctx@;
        body.ready(ctx, tok, events);
        let ghost told = ctx@;
        match self {
            State::SendOnHold(msg, t) => {
                let s = State::Idle.send(body, ctx, msg, t);
                proof {
                    assert(ctx@ =~= old(ctx)@ + old(body).view_with(self@).ready(tok, events).1);
                }
                s
            },
            other => other,
        }
    }
}

pub struct Req {
    body: Body,
    state: Option<State>,
}

impl View for Req {
    type V = ReqView;

    closed spec fn view(&self) -> ReqView {
        self.body.view_with(
            match self.state {
                Some(s) => s@,
                None => StateView::Idle,
            },
        )
    }
}

impl Req {
    pub closed spec fn inv(&self) -> bool {
        &&& self.state is Some
        &&& self.body.inv()
    }

    /// A socket whose request ids start after `seq`.
    pub fn with_req_id_seq(seq: u32) -> (r: Req)
        ensures
            r.inv(),
            r@ == (ReqView {
                state: StateView::Idle,
                pipes: Seq::empty(),
                lb: PrioListModel { items: Seq::empty(), current: None },
                req_id_seq: seq,
                resend_interval: 60_000,
                is_device_item: false,
            }),
    {
        let body = Body {
            pipes: EidSet::new(),
            lb: PrioList::new(),
            req_id_seq: seq,
            resend_interval: 60_000,
            is_device_item: false,
        };
        Req { body, state: Some(State::Idle) }
    }

    /// A socket whose request ids start after a value read from the clock.
    pub fn new() -> (r: Req)
        ensures
            r.inv(),
            r@ == (ReqView {
                state: StateView::Idle,
                pipes: Seq::empty(),
                lb: PrioListModel { items: Seq::empty(), current: None },
                req_id_seq: r@.req_id_seq,
                resend_interval: 60_000,
                is_device_item: false,
            }),
            r@.req_id_seq < 1_000_000_000,
    {
        Req::with_req_id_seq(clock_nanos())
    }

    /// The sequence that the id of the current request is made of.
    pub fn req_id_seq(&self) -> (seq: u32)
        ensures
            seq == self@.req_id_seq,
    {
        self.body.req_id_seq
    }

    pub fn id(&self) -> (id: u16)
        ensures
            id == crate::proto::REQ,
    {
        crate::proto::REQ
    }

    pub fn peer_id(&self) -> (id: u16)
        ensures
            id == crate::proto::REP,
    {
        crate::proto::REP
    }

    fn take_state(&mut self) -> (s: State)
        requires
            old(self).inv(),
        ensures
            s@ == old(self)@.state,
            final(self).body == old(self).body,
            final(self).state is None,
    {
        match self.state.take() {
            Some(s) => s,
            None => State::Idle,
        }
    }

    /// Keeps the pipe `tok`, which sends with `send_priority`; fails when a
    /// pipe is already kept under that token.
    pub fn add_pipe(&mut self, tok: EndpointId, send_priority: u8) -> (r: Result<(), Failure>)
        requires
            old(self).inv(),
        ensures
            final(self).inv(),
            (final(self)@, r) == old(self)@.add_pipe(tok, send_priority),
    {
        self.body.add_pipe(tok, send_priority)
    }

    /// Forgets the pipe `tok`; tells whether the socket kept it.
    pub fn remove_pipe(&mut self, tok: EndpointId) -> (had: bool)
        requires
            old(self).inv(),
        ensures
            final(self).inv(),
            (final(self)@, had) == old(self)@.remove_pipe(tok),
    {
        let s = self.take_state();
        let had = self.body.remove_pipe(tok);
        if had {
            self.state = Some(s.on_pipe_removed(&self.body, tok));
        } else {
            self.state = Some(s);
        }
        had
    }

    pub fn open_pipe(&self, ctx: &mut Context, tok: EndpointId)
        requires
            self.inv(),
        ensures
            final(ctx)@ == old(ctx)@ + if_piped(self@.pipes, tok, ActionView::Open(tok)),
            final(ctx).next_timer() == old(ctx).next_timer(),
    {
        self.body.open_pipe(ctx, tok);
    }

    pub fn on_pipe_opened(&mut self, ctx: &mut Context, tok: EndpointId)
        requires
            old(self).inv(),
        ensures
            final(self).inv(),
            final(self)@ == old(self)@.on_pipe_opened(tok).0,
            final(ctx)@ == old(ctx)@ + old(self)@.on_pipe_opened(tok).1,
            final(ctx).next_timer() == old(ctx).next_timer(),
    {
        self.body.on_pipe_opened(ctx, tok);
    }

    /// Sends a request; unless the socket serves a device, it gets the next
    /// id, so the sequence must not be at its end.
    pub fn send(&mut self, ctx: &mut Context, msg: Message, timeout: Timeout)
        requires
            old(self).inv(),
            !old(self)@.is_device_item ==> old(self)@.req_id_seq < u32::MAX,
        ensures
            final(self).inv(),
            final(self)@ == old(self)@.send(msg@, timeout).0,
            final(ctx)@ == old(ctx)@ + old(self)@.send(msg@, timeout).1,
            final(ctx).next_timer() == old(ctx).next_timer(),
    {
        let raw_msg = self.body.msg_to_raw_msg(msg);
        let s = self.take_state();
        let s = s.send(&self.body, ctx, raw_msg, timeout);
        self.state = Some(s);
    }

    /// The pipe `tok` took the message it was given.
    pub fn on_send_done(&mut self, ctx: &mut Context, tok: EndpointId)
        requires
            old(self).inv(),
        ensures
            final(self).inv(),
            final(self)@ == old(self)@.on_send_done(tok, old(ctx).next_timer()).0,
            final(ctx)@ == old(ctx)@ + old(self)@.on_send_done(tok, old(ctx).next_timer()).1,
            final(ctx).next_timer() == old(self)@.on_send_done(tok, old(ctx).next_timer()).2,
    {
        let s = self.take_state();
        let s = s.on_send_done(&mut self.body, ctx, tok);
        self.state = Some(s);
    }

    pub fn on_send_timeout(&mut self, ctx: &mut Context)
        requires
            old(self).inv(),
        ensures
            final(self).inv(),
            final(self)@ == old(self)@.on_send_timeout().0,
            final(ctx)@ == old(ctx)@ + old(self)@.on_send_timeout().1,
            final(ctx).next_timer() == old(ctx).next_timer(),
    {
        let s = self.take_state();
        let s = s.on_send_timeout(&mut self.body, ctx);
        self.state = Some(s);
    }

    pub fn recv(&mut self, ctx: &mut Context, timeout: Timeout)
        requires
            old(self).inv(),
        ensures
            final(self).inv(),
            final(self)@ == old(self)@.recv(timeout).0,
            final(ctx)@ == old(ctx)@ + old(self)@.recv(timeout).1,
            final(ctx).next_timer() == old(ctx).next_timer(),
    {
        let s = self.take_state();
        let s = s.recv(&self.body, ctx, timeout);
        self.state = Some(s);
    }

    /// A message came from pipe `tok`; one without an id is left aside.
    pub fn on_recv_done(&mut self, ctx: &mut Context, tok: EndpointId, raw_msg: Message)
        requires
            old(self).inv(),
        ensures
            final(self).inv(),
            final(self)@ == old(self)@.on_recv_done(tok, raw_msg@).0,
            final(ctx)@ == old(ctx)@ + old(self)@.on_recv_done(tok, raw_msg@).1,
            final(ctx).next_timer() == old(ctx).next_timer(),
    {
        if let Some((msg, req_id)) = self.body.raw_msg_to_msg(raw_msg) {
            let s = self.take_state();
            let s = s.on_recv_done(&self.body, ctx, tok, msg, req_id);
            self.state = Some(s);
        } else {
            proof {
                assert(ctx@ =~= old(ctx)@ + Seq::<ActionView>::empty());
            }
        }
    }

    pub fn on_recv_timeout(&mut self, ctx: &mut Context)
        requires
            old(self).inv(),
        ensures
            final(self).inv(),
            final(self)@ == old(self)@.on_recv_timeout().0,
            final(ctx)@ == old(ctx)@ + old(self)@.on_recv_timeout().1,
            final(ctx).next_timer() == old(ctx).next_timer(),
    {
        let s = self.take_state();
        let s = s.on_recv_timeout(&self.body, ctx);
        self.state = Some(s);
    }

    /// A poll reported `events` on pipe `tok`.
    pub fn ready(&mut self, ctx: &mut Context, tok: EndpointId, events: Readiness)
        requires
            old(self).inv(),
        ensures
            final(self).inv(),
            final(self)@ == old(self)@.ready(tok, events).0,
            final(ctx)@ == old(ctx)@ + old(self)@.ready(tok, events).1,
            final(ctx).next_timer() == old(ctx).next_timer(),
    {
        let s = self.take_state();
        let s = s.ready(&mut self.body, ctx, tok, events);
        self.state = Some(s);
    }

    /// Whether a reply can be read now: the socket waits for one, and the
    /// pipe it waits on, asked through `pipe_can_recv`, says so.
    pub fn can_recv<F: Fn(EndpointId) -> bool>(&self, pipe_can_recv: F) -> (b: bool)
        requires
            self.inv(),
            forall|t: EndpointId| pipe_can_recv.requires((t,)),
        ensures
            match self@.state {
                StateView::WaitingReply(p) => pipe_can_recv.ensures((p.peer,), b),
                _ => !b,
            },
    {
        match &self.state {
            Some(State::WaitingReply(p)) => pipe_can_recv(p.peer),
            _ => false,
        }
    }

    pub fn set_device_item(&mut self, value: bool) -> (r: Result<(), Failure>)
        requires
            old(self).inv(),
        ensures
            final(self).inv(),
            r is Ok,
            final(self)@ == (ReqView { is_device_item: value, ..old(self)@ }),
    {
        self.body.is_device_item = value;
        Ok(())
    }

    /// The resend timer fired.
    pub fn resend(&mut self, ctx: &mut Context)
        requires
            old(self).inv(),
        ensures
            final(self).inv(),
            final(self)@ == old(self)@.resend(old(ctx).next_timer()).0,
            final(ctx)@ == old(ctx)@ + old(self)@.resend(old(ctx).next_timer()).1,
            final(ctx).next_timer() == old(self)@.resend(old(ctx).next_timer()).2,
    {
        let s = self.take_state();
        let s = s.resend(&self.body, ctx);
        self.state = Some(s);
    }

    /// Closes every pipe, in the order they were added.
    pub fn destroy(&mut self, ctx: &mut Context)
        requires
            old(self).inv(),
        ensures
            final(self).inv(),
            final(self)@ == (ReqView { pipes: Seq::empty(), ..old(self)@ }),
            final(ctx)@ == old(ctx)@ + closed_each(old(self)@.pipes),
            final(ctx).next_timer() == old(ctx).next_timer(),
    {
        self.body.destroy_pipes(ctx);
    }
}

} // verus!
