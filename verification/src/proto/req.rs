//! REQ: sends each request to one of the peers that can take it, waits for
//! the reply that carries the request's id, and sends the request again when
//! no reply came within the resend interval.
use vstd::prelude::*;

use crate::common::{
    ActionView, ConfigOption, EndpointId, Failure, Message, MessageView, Reply, ReplyView, Schedulable, Timeout,
};
use crate::context::{cancelled, lemma_changes_only_raise, recv_change, send_change, Context};
use crate::proto::codec::{be_bytes, be_u32, read_u32_be, u32_to_be_vec};
use crate::proto::pipes::{closed_all, eid_inserted, eid_removed, entry_inserted, entry_pipe, entry_removed, has_entry, EidSet, Pipe, PipeCollection};
use crate::proto::policy::fair_queue::{self, fq_received};
use crate::proto::policy::load_balancing::{self, lb_sent};
use crate::proto::priolist::{Priolist, PriolistModel};
use crate::proto::{REP, REQ};

verus! {

/// A message with `id` appended to its header.
pub open spec fn id_encoded(msg: MessageView, id: u32) -> MessageView {
    (msg.0 + be_bytes(id), msg.1)
}

/// A received message whose body starts with an id: the id moves to the end
/// of the header and is read; nothing when the body is shorter than an id.
pub open spec fn id_decoded(raw: MessageView) -> Option<(MessageView, u32)> {
    if raw.1.len() < 4 {
        None
    } else {
        Some(((raw.0 + raw.1.take(4), raw.1.skip(4)), be_u32(raw.1)))
    }
}

pub fn encode(msg: Message, req_id: u32) -> (raw: Message)
    ensures
        raw@ == id_encoded(msg@, req_id),
{
    let mut raw_msg = msg;
    let req_id_bytes = u32_to_be_vec(req_id);
    raw_msg.header.extend_from_slice(req_id_bytes.as_slice());
    proof {
        assert(raw_msg.header@ =~= msg.header@ + be_bytes(req_id));
    }
    raw_msg
}

pub fn decode(raw_msg: Message) -> (r: Option<(Message, u32)>)
    ensures
        r matches Some((m, id)) ==> id_decoded(raw_msg@) == Some((m@, id)),
        r is None ==> id_decoded(raw_msg@) is None,
{
    if raw_msg.get_body().len() < 4 {
        return None;
    }
    let ghost raw = raw_msg@;
    let (mut header, mut payload) = raw_msg.split();
    let body = payload.split_off(4);
    let req_id = read_u32_be(payload.as_slice());

    if header.len() == 0 {
        header = payload;
    } else {
        header.extend_from_slice(payload.as_slice());
    }
    proof {
        assert(header@ =~= raw.0 + raw.1.take(4));
        assert(body@ =~= raw.1.skip(4));
    }
    Some((Message::from_header_and_body(header, body), req_id))
}

/// What a peer reads of a request, once the header and the body went over
/// the wire as one body, is the id the request was sent with.
pub proof fn lemma_id_round_trip(msg: MessageView, id: u32)
    requires
        msg.0.len() == 0,
    ensures
        ({
            let sent = id_encoded(msg, id);
            id_decoded((Seq::empty(), sent.0 + sent.1)) == Some(((be_bytes(id), msg.1), id))
        }),
{
    let sent = id_encoded(msg, id);
    let wire = sent.0 + sent.1;
    assert(sent.0 =~= be_bytes(id));
    assert(wire.take(4) =~= be_bytes(id));
    assert(wire.skip(4) =~= msg.1);
    assert(Seq::<u8>::empty() + wire.take(4) =~= be_bytes(id));
    crate::proto::codec::lemma_be_round_trip(id);
    assert(be_u32(wire) == be_u32(be_bytes(id)));
}

/// The id of the current request: the sequence with its highest bit set.
pub open spec fn req_id_of(seq: u32) -> u32 {
    seq | 0x8000_0000u32
}

/// Calls `time::get_time`, the current time, and keeps the nanoseconds of
/// it. What the value is depends on the clock; that it is under one second
/// is what `Timespec::new`, which builds the result, asserts.
#[verifier::external_body]
pub(crate) fn clock_nanos() -> (n: u32)
    ensures
        n < 1_000_000_000,
{
    time::get_time().nsec as u32
}

/// Every request id has its highest bit set, which marks the end of a
/// route.
pub proof fn lemma_request_id_marked(seq: u32)
    ensures
        req_id_of(seq) & 0x8000_0000u32 == 0x8000_0000u32,
        req_id_of(seq) >= 0x8000_0000u32,
{
    assert((seq | 0x8000_0000u32) & 0x8000_0000u32 == 0x8000_0000u32) by (bit_vector);
    assert((seq | 0x8000_0000u32) >= 0x8000_0000u32) by (bit_vector);
}

pub struct PendingRequest {
    pub req: Message,
    pub retry_timeout: Timeout,
}

pub struct PendingView {
    pub req: MessageView,
    pub retry_timeout: Timeout,
}

impl View for PendingRequest {
    type V = PendingView;

    open spec fn view(&self) -> PendingView {
        PendingView { req: self.req@, retry_timeout: self.retry_timeout }
    }
}

pub enum State {
    Idle,
    Sending(EndpointId, Message, Timeout, bool),
    SendOnHold(Message, Timeout, bool),
    Active(EndpointId, PendingRequest),
    Receiving(EndpointId, Option<PendingRequest>, Timeout),
    RecvOnHold(Option<EndpointId>, Option<PendingRequest>, Timeout),
}

pub enum StateView {
    Idle,
    Sending(EndpointId, MessageView, Timeout, bool),
    SendOnHold(MessageView, Timeout, bool),
    Active(EndpointId, PendingView),
    Receiving(EndpointId, Option<PendingView>, Timeout),
    RecvOnHold(Option<EndpointId>, Option<PendingView>, Timeout),
}

pub open spec fn pending_view(p: Option<PendingRequest>) -> Option<PendingView> {
    match p {
        Some(p) => Some(p@),
        None => None,
    }
}

impl View for State {
    type V = StateView;

    open spec fn view(&self) -> StateView {
        match self {
            State::Idle => StateView::Idle,
            State::Sending(e, m, t, r) => StateView::Sending(*e, m@, *t, *r),
            State::SendOnHold(m, t, r) => StateView::SendOnHold(m@, *t, *r),
            State::Active(e, p) => StateView::Active(*e, p@),
            State::Receiving(e, p, t) => StateView::Receiving(*e, pending_view(*p), *t),
            State::RecvOnHold(e, p, t) => StateView::RecvOnHold(*e, pending_view(*p), *t),
        }
    }
}

pub struct Inner {
    pipes: PipeCollection,
    lb: Priolist,
    fq: Priolist,
    rv: EidSet,
    req_id_seq: u32,
    is_device_item: bool,
    resend_ivl: u64,
}

/// A REQ socket seen as its state, its pipes, its load-balancing and
/// fair-queuing lists, the endpoints a reply can be read from, the sequence
/// of request ids, whether it serves a device and the resend interval.
pub struct ReqView {
    pub state: StateView,
    pub pipes: Seq<(EndpointId, Pipe)>,
    pub lb: PriolistModel,
    pub fq: PriolistModel,
    pub rv: Seq<EndpointId>,
    pub req_id_seq: u32,
    pub is_device_item: bool,
    pub resend_ivl: u64,
}

impl ReqView {
    pub open spec fn is_send_ready(self) -> bool {
        self.lb.has_current()
    }

    pub open spec fn is_recv_ready(self) -> bool {
        if self.is_device_item {
            self.fq.has_current()
        } else {
            match self.state {
                StateView::Active(eid, _) => self.rv.contains(eid),
                _ => false,
            }
        }
    }

    pub open spec fn changes(self, other: ReqView) -> Seq<ActionView> {
        send_change(self.is_send_ready(), other.is_send_ready()) + recv_change(
            self.is_recv_ready(),
            other.is_recv_ready(),
        )
    }

    pub open spec fn with_event(self, step: (ReqView, Seq<ActionView>)) -> (ReqView, Seq<ActionView>) {
        (step.0, step.1 + self.changes(step.0))
    }

    pub open spec fn cur_req_id(self) -> u32 {
        req_id_of(self.req_id_seq)
    }

    /// Sending a request from this state: a pending request's resend timer
    /// is cancelled, then the request goes to the next pipe of the list or
    /// waits for one.
    pub open spec fn state_send(self, msg: MessageView, t: Timeout, retry: bool) -> (ReqView, Seq<ActionView>) {
        let cancel = match self.state {
            StateView::Active(_, p) => cancelled(p.retry_timeout),
            _ => Seq::empty(),
        };
        let (e, lb, acts) = lb_sent(self.lb, self.pipes, msg);
        let state = match e {
            Some(eid) => StateView::Sending(eid, msg, t, retry),
            None => StateView::SendOnHold(msg, t, retry),
        };
        (ReqView { state, lb, ..self }, cancel + acts)
    }

    /// The request as it goes out, and the sequence afterwards: it gets the
    /// next id, unless the socket serves a device.
    pub open spec fn outgoing(self, msg: MessageView) -> (MessageView, u32) {
        if self.is_device_item {
            (msg, self.req_id_seq)
        } else {
            (id_encoded(msg, req_id_of((self.req_id_seq + 1) as u32)), (self.req_id_seq + 1) as u32)
        }
    }

    pub open spec fn send(self, msg: MessageView, t: Timeout) -> (ReqView, Seq<ActionView>) {
        let (raw, seq) = self.outgoing(msg);
        let v = ReqView { req_id_seq: seq, ..self };
        v.with_event(v.state_send(raw, t, false))
    }

    /// A send that completed: the user is told (unless it was a resend), its
    /// timer cancelled and, unless the socket serves a device, the resend
    /// timer started with identifier `nt`, when one is left.
    pub open spec fn on_send_ack(self, eid: EndpointId, nt: nat) -> (ReqView, Seq<ActionView>, nat) {
        match self.state {
            StateView::Sending(id, m, t, retry) => if id != eid {
                (self, Seq::empty(), nt)
            } else {
                let told = if !retry {
                    seq![ActionView::Reply(ReplyView::Send)]
                } else {
                    Seq::empty()
                };
                let (rt, sched, nt2) = if self.is_device_item || nt >= usize::MAX {
                    (None::<usize>, Seq::<ActionView>::empty(), nt)
                } else {
                    (
                        Some(nt as usize),
                        seq![ActionView::Schedule(nt as usize, Schedulable::ReqResend, self.resend_ivl)],
                        nt + 1,
                    )
                };
                let state = if self.is_device_item {
                    StateView::Idle
                } else {
                    StateView::Active(eid, PendingView { req: m, retry_timeout: rt })
                };
                let w = ReqView { state, ..self };
                (w, told + cancelled(t) + sched + self.changes(w), nt2)
            },
            _ => (self, Seq::empty(), nt),
        }
    }

    pub open spec fn on_send_timeout(self) -> (ReqView, Seq<ActionView>) {
        self.with_event(
            (
                ReqView { state: StateView::Idle, ..self },
                seq![ActionView::Reply(ReplyView::Error(Failure::SendTimedOut))],
            ),
        )
    }

    pub open spec fn on_send_ready(self, eid: EndpointId) -> (ReqView, Seq<ActionView>) {
        let v = ReqView { lb: self.lb.activated(eid), ..self };
        self.with_event(
            match self.state {
                StateView::SendOnHold(m, t, retry) => ReqView { state: StateView::Idle, ..v }.state_send(m, t, retry),
                _ => (v, Seq::empty()),
            },
        )
    }

    /// Waiting for the reply to `p` from `eid`.
    pub open spec fn recv_reply_for(self, t: Timeout, eid: EndpointId, p: PendingView) -> (ReqView, Seq<ActionView>) {
        let v = ReqView { rv: eid_removed(self.rv, eid), ..self };
        if has_entry(self.pipes, eid) {
            (ReqView { state: StateView::Receiving(eid, Some(p), t), ..v }, seq![ActionView::Recv(eid)])
        } else {
            (ReqView { state: StateView::RecvOnHold(Some(eid), Some(p), t), ..v }, Seq::empty())
        }
    }

    /// Receiving from this state: a device takes any message in turn, a
    /// socket with a request waits for its reply, and one without fails.
    pub open spec fn state_recv(self, t: Timeout) -> (ReqView, Seq<ActionView>) {
        if self.is_device_item {
            let (e, fq, acts) = fq_received(self.fq, self.pipes);
            let state = match e {
                Some(eid) => StateView::Receiving(eid, None, t),
                None => StateView::RecvOnHold(None, None, t),
            };
            (ReqView { state, fq, ..self }, acts)
        } else {
            match self.state {
                StateView::Active(eid, p) => ReqView { state: StateView::Idle, ..self }.recv_reply_for(t, eid, p),
                _ => (
                    ReqView { state: StateView::Idle, ..self },
                    seq![ActionView::Reply(ReplyView::Error(Failure::RecvWithoutPending))] + cancelled(t),
                ),
            }
        }
    }

    pub open spec fn recv(self, t: Timeout) -> (ReqView, Seq<ActionView>) {
        self.with_event(self.state_recv(t))
    }

    /// The reply and its id, as read from what arrived: a device takes the
    /// id of the current request for any of them.
    pub open spec fn incoming(self, raw: MessageView) -> Option<(MessageView, u32)> {
        match id_decoded(raw) {
            Some((m, id)) => Some((m, if self.is_device_item { self.cur_req_id() } else { id })),
            None => None,
        }
    }

    pub open spec fn state_on_recv_ack(self, eid: EndpointId, msg: MessageView, req_id: u32) -> (ReqView, Seq<ActionView>) {
        match self.state {
            StateView::Receiving(id, None, t) => if eid == id {
                (
                    ReqView { state: StateView::Idle, ..self },
                    seq![ActionView::Reply(ReplyView::Recv(msg))] + cancelled(t),
                )
            } else {
                (self, Seq::empty())
            },
            StateView::Receiving(id, Some(p), t) => if eid == id {
                if self.cur_req_id() == req_id {
                    (
                        ReqView { state: StateView::Idle, ..self },
                        seq![ActionView::Reply(ReplyView::Recv(msg))] + cancelled(t) + cancelled(p.retry_timeout),
                    )
                } else {
                    ReqView { state: StateView::Idle, ..self }.recv_reply_for(t, id, p)
                }
            } else {
                (self, Seq::empty())
            },
            _ => (self, Seq::empty()),
        }
    }

    pub open spec fn on_recv_ack(self, eid: EndpointId, raw: MessageView) -> (ReqView, Seq<ActionView>) {
        match self.incoming(raw) {
            Some((msg, req_id)) => self.with_event(self.state_on_recv_ack(eid, msg, req_id)),
            None => (self, seq![ActionView::Reply(ReplyView::Error(Failure::RecvMalformed))]),
        }
    }

    pub open spec fn on_recv_timeout(self) -> (ReqView, Seq<ActionView>) {
        let acts = match self.state {
            StateView::Receiving(_, None, _) | StateView::RecvOnHold(_, None, _) => seq![
                ActionView::Reply(ReplyView::Error(Failure::RecvTimedOut)),
            ],
            StateView::Receiving(_, Some(p), _) | StateView::RecvOnHold(_, Some(p), _) => seq![
                ActionView::Reply(ReplyView::Error(Failure::RecvTimedOut)),
            ] + cancelled(p.retry_timeout),
            _ => Seq::empty(),
        };
        self.with_event((ReqView { state: StateView::Idle, ..self }, acts))
    }

    pub open spec fn on_recv_ready(self, eid: EndpointId) -> (ReqView, Seq<ActionView>) {
        let v = ReqView { fq: self.fq.activated(eid), rv: eid_inserted(self.rv, eid), ..self };
        self.with_event(
            match self.state {
                StateView::RecvOnHold(None, None, t) => ReqView { state: StateView::Idle, ..v }.state_recv(t),
                StateView::RecvOnHold(Some(id), Some(p), t) => if eid == id {
                    ReqView { state: StateView::Active(id, p), ..v }.state_recv(t)
                } else {
                    (v, Seq::empty())
                },
                _ => (v, Seq::empty()),
            },
        )
    }

    /// The resend timer fired: a request still waiting for its reply is sent
    /// again.
    pub open spec fn on_retry_timeout(self) -> (ReqView, Seq<ActionView>) {
        self.with_event(
            match self.state {
                StateView::Active(_, p) => ReqView { state: StateView::Idle, ..self }.state_send(p.req, None, true),
                _ => (self, Seq::empty()),
            },
        )
    }

    pub open spec fn on_pipe_removed(self, eid: EndpointId) -> (ReqView, Seq<ActionView>) {
        match self.state {
            StateView::Sending(id, m, t, retry) => if id == eid {
                ReqView { state: StateView::Idle, ..self }.state_send(m, t, retry)
            } else {
                (self, Seq::empty())
            },
            StateView::Receiving(id, p, t) => if eid == id {
                ReqView { state: StateView::Idle, ..self }.state_recv(t)
            } else {
                (self, Seq::empty())
            },
            _ => (self, Seq::empty()),
        }
    }

    pub open spec fn remove_pipe(self, eid: EndpointId) -> (ReqView, Seq<ActionView>) {
        let removed = ReqView {
            lb: self.lb.removed(eid),
            fq: self.fq.removed(eid),
            rv: eid_removed(self.rv, eid),
            pipes: entry_removed(self.pipes, eid),
            ..self
        };
        let outer = self.changes(removed);
        if entry_pipe(self.pipes, eid) is Some {
            let then = removed.with_event(removed.on_pipe_removed(eid));
            (then.0, then.1 + outer)
        } else {
            (removed, outer)
        }
    }
}

/// A socket that waits on a pipe for the reply to its request takes, from
/// that pipe, only the reply that carries the id of its request: the user
/// gets it and the socket is idle again; a reply with another id is dropped
/// unseen and the socket waits for the next one.
pub proof fn lemma_reply_needs_current_id(v: ReqView, eid: EndpointId, raw: MessageView)
    requires
        !v.is_device_item,
        v.state matches StateView::Receiving(id, Some(_), _) && id == eid,
        id_decoded(raw) is Some,
    ensures
        ({
            let (m, rid) = id_decoded(raw)->0;
            let (w, acts) = v.on_recv_ack(eid, raw);
            &&& rid == v.cur_req_id() ==> acts[0] == ActionView::Reply(ReplyView::Recv(m)) && w.state is Idle
            &&& rid != v.cur_req_id() ==> (forall|i: int| 0 <= i < acts.len() ==> !(#[trigger] acts[i] is Reply)) && (
            w.state is Receiving || w.state is RecvOnHold)
        }),
{
    let (m, rid) = id_decoded(raw)->0;
    let (w, acts) = v.on_recv_ack(eid, raw);
    let step = v.state_on_recv_ack(eid, m, rid);
    assert(acts == step.1 + v.changes(step.0));
    let ch = v.changes(step.0);
    assert forall|i: int| 0 <= i < ch.len() implies !(#[trigger] ch[i] is Reply) by {
        let a = send_change(v.is_send_ready(), step.0.is_send_ready());
        let b = recv_change(v.is_recv_ready(), step.0.is_recv_ready());
        assert(ch == a + b);
        if i < a.len() {
            assert(ch[i] == a[i]);
        } else {
            assert(ch[i] == b[i - a.len()]);
        }
    }
    if rid != v.cur_req_id() {
        assert forall|i: int| 0 <= i < acts.len() implies !(#[trigger] acts[i] is Reply) by {
            if i < step.1.len() {
                assert(acts[i] == step.1[i]);
            } else {
                assert(acts[i] == ch[i - step.1.len()]);
            }
        }
    }
}

/// When the resend timer fires while a request waits for its reply, the
/// request goes out again, as it was, to the next pipe that can take it.
pub proof fn lemma_request_is_resent(v: ReqView)
    requires
        v.state is Active,
        v.lb.popped().0 matches Some(e) && has_entry(v.pipes, e),
    ensures
        v.on_retry_timeout().1[0] == ActionView::Send(v.lb.popped().0->0, v.state->Active_1.req),
{
}

pub struct Req {
    inner: Inner,
    state: Option<State>,
}

impl Inner {
    pub closed spec fn view_with(&self, s: StateView) -> ReqView {
        ReqView {
            state: s,
            pipes: self.pipes@,
            lb: self.lb@,
            fq: self.fq@,
            rv: self.rv@,
            req_id_seq: self.req_id_seq,
            is_device_item: self.is_device_item,
            resend_ivl: self.resend_ivl,
        }
    }

    pub closed spec fn inv(&self) -> bool {
        &&& self.pipes.inv()
        &&& self.lb.inv()
        &&& self.fq.inv()
        &&& self.rv.inv()
    }

    fn send(&mut self, ctx: &mut Context, state: State, msg: Message, timeout: Timeout, retry: bool) -> (s: State)
        requires
            old(self).inv(),
        ensures
            final(self).inv(),
            ({
                let (w, acts) = old(self).view_with(state@).state_send(msg@, timeout, retry);
                &&& final(self).view_with(s@) == w
                &&& final(ctx)@ == old(ctx)@ + acts
            }),
            final(ctx).next_timer() == old(ctx).next_timer(),
    {
        let ghost before = ctx@;
        if let State::Active(_, p) = state {
            ctx.cancel_timeout(p.retry_timeout);
        } else {
            proof {
                assert(ctx@ =~= old(ctx)@ + Seq::<ActionView>::empty());
            }
        }
        let ghost mid = ctx@;
        let copy = msg.clone();
        let r = load_balancing::send(&mut self.lb, &mut self.pipes, ctx, copy);
        proof {
            assert(ctx@ =~= old(ctx)@ + old(self).view_with(state@).state_send(msg@, timeout, retry).1);
        }
        if let Some(eid) = r {
            State::Sending(eid, msg, timeout, retry)
        } else {
            State::SendOnHold(msg, timeout, retry)
        }
    }

    fn recv_reply_for(&mut self, ctx: &mut Context, timeout: Timeout, eid: EndpointId, p: PendingRequest) -> (s: State)
        requires
            old(self).inv(),
        ensures
            final(self).inv(),
            ({
                let (w, acts) = old(self).view_with(StateView::Idle).recv_reply_for(timeout, eid, p@);
                &&& final(self).view_with(s@) == w
                &&& final(ctx)@ == old(ctx)@ + acts
            }),
            final(ctx).next_timer() == old(ctx).next_timer(),
    {
        self.rv.remove(&eid);
        proof {
            assert(old(ctx)@ + Seq::<ActionView>::empty() =~= old(ctx)@);
        }
        if self.pipes.recv_from(ctx, eid).is_some() {
            State::Receiving(eid, Some(p), timeout)
        } else {
            State::RecvOnHold(Some(eid), Some(p), timeout)
        }
    }

    fn recv(&mut self, ctx: &mut Context, state: State, timeout: Timeout) -> (s: State)
        requires
            old(self).inv(),
        ensures
            final(self).inv(),
            ({
                let (w, acts) = old(self).view_with(state@).state_recv(timeout);
                &&& final(self).view_with(s@) == w
                &&& final(ctx)@ == old(ctx)@ + acts
            }),
            final(ctx).next_timer() == old(ctx).next_timer(),
    {
        if self.is_device_item {
            if let Some(eid) = fair_queue::recv(&mut self.fq, &mut self.pipes, ctx) {
                State::Receiving(eid, None, timeout)
            } else {
                State::RecvOnHold(None, None, timeout)
            }
        } else if let State::Active(eid, p) = state {
            self.recv_reply_for(ctx, timeout, eid, p)
        } else {
            ctx.reply(Reply::Error(Failure::RecvWithoutPending));
            ctx.cancel_timeout(timeout);
            proof {
                assert(ctx@ =~= old(ctx)@ + (seq![ActionView::Reply(ReplyView::Error(Failure::RecvWithoutPending))]
                    + cancelled(timeout)));
            }
            State::Idle
        }
    }

    fn is_recv_ready_in(&self, state: &State) -> (b: bool)
        ensures
            b == self.view_with(state@).is_recv_ready(),
    {
        if self.is_device_item {
            self.fq.peek()
        } else if let State::Active(eid, _) = state {
            self.rv.contains(eid)
        } else {
            false
        }
    }

    fn cur_req_id(&self) -> (id: u32)
        ensures
            id == req_id_of(self.req_id_seq),
    {
        self.req_id_seq | 0x8000_0000u32
    }
}

impl View for Req {
    type V = ReqView;

    closed spec fn view(&self) -> ReqView {
        self.inner.view_with(
            match self.state {
                Some(s) => s@,
                None => StateView::Idle,
            },
        )
    }
}

impl Req {
    pub closed spec fn inv(&self) -> bool {
        &&& self.state is Some
        &&& self.inner.inv()
    }

    /// A socket whose request ids start after `seq`.
    pub fn with_req_id_seq(seq: u32) -> (r: Req)
        ensures
            r.inv(),
            r@ == (ReqView {
                state: StateView::Idle,
                pipes: Seq::empty(),
                lb: PriolistModel { items: Seq::empty(), current: None },
                fq: PriolistModel { items: Seq::empty(), current: None },
                rv: Seq::empty(),
                req_id_seq: seq,
                is_device_item: false,
                resend_ivl: 60_000,
            }),
    {
        Req {
            inner: Inner {
                pipes: PipeCollection::new(),
                lb: Priolist::new(),
                fq: Priolist::new(),
                rv: EidSet::new(),
                req_id_seq: seq,
                is_device_item: false,
                resend_ivl: 60_000,
            },
            state: Some(State::Idle),
        }
    }

    /// A socket whose request ids start after a value read from the clock.
    pub fn new() -> (r: Req)
        ensures
            r.inv(),
            r@ == (ReqView {
                state: StateView::Idle,
                pipes: Seq::empty(),
                lb: PriolistModel { items: Seq::empty(), current: None },
                fq: PriolistModel { items: Seq::empty(), current: None },
                rv: Seq::empty(),
                req_id_seq: r@.req_id_seq,
                is_device_item: false,
                resend_ivl: 60_000,
            }),
            r@.req_id_seq < 1_000_000_000,
    {
        Req::with_req_id_seq(clock_nanos())
    }

    /// The sequence that the id of the current request is made of.
    pub fn req_id_seq(&self) -> (seq: u32)
        ensures
            seq == self@.req_id_seq,
    {
        self.inner.req_id_seq
    }

    pub fn id(&self) -> (id: u16)
        ensures
            id == REQ,
    {
        REQ
    }

    pub fn peer_id(&self) -> (id: u16)
        ensures
            id == REP,
    {
        REP
    }

    fn take_state(&mut self) -> (s: State)
        requires
            old(self).inv(),
        ensures
            s@ == old(self)@.state,
            old(self).inner.view_with(s@) == old(self)@,
            final(self).inner == old(self).inner,
            final(self).state is None,
    {
        match self.state.take() {
            Some(s) => s,
            None => State::Idle,
        }
    }

    fn finish(&mut self, ctx: &mut Context, s: State, was_ready: (bool, bool), Ghost(was): Ghost<ReqView>)
        requires
            old(self).inner.inv(),
            was_ready.0 == was.is_send_ready(),
            was_ready.1 == was.is_recv_ready(),
        ensures
            final(self).inv(),
            final(self)@ == old(self).inner.view_with(s@),
            final(ctx)@ == old(ctx)@ + was.changes(final(self)@),
            final(ctx).next_timer() == old(ctx).next_timer(),
    {
        let is_send_ready = self.inner.lb.peek();
        let is_recv_ready = self.inner.is_recv_ready_in(&s);
        let (was_send_ready, was_recv_ready) = was_ready;
        self.state = Some(s);
        ctx.check_send_ready_change(was_send_ready, is_send_ready);
        ctx.check_recv_ready_change(was_recv_ready, is_recv_ready);
    }

    pub fn add_pipe(&mut self, ctx: &mut Context, eid: EndpointId, pipe: Pipe)
        requires
            old(self).inv(),
            pipe.send_priority < 255,
            pipe.recv_priority < 255,
        ensures
            final(self).inv(),
            final(self)@ == (ReqView {
                lb: old(self)@.lb.inserted(eid, pipe.send_priority),
                fq: old(self)@.fq.inserted(eid, pipe.recv_priority),
                pipes: entry_inserted(old(self)@.pipes, eid, pipe),
                ..old(self)@
            }),
            *final(ctx) == *old(ctx),
    {
        self.inner.lb.insert(eid, pipe.get_send_priority());
        self.inner.fq.insert(eid, pipe.get_recv_priority());
        self.inner.pipes.insert(eid, pipe);
    }

    /// What follows the removal of a pipe that the socket held: a request
    /// being sent on it goes to another pipe, a reply awaited on it is awaited
    /// elsewhere.
    fn on_pipe_removed(&mut self, ctx: &mut Context, eid: EndpointId)
        requires
            old(self).inv(),
        ensures
            final(self).inv(),
            final(self)@ == old(self)@.with_event(old(self)@.on_pipe_removed(eid)).0,
            final(ctx)@ == old(ctx)@ + old(self)@.with_event(old(self)@.on_pipe_removed(eid)).1,
            final(ctx).next_timer() == old(ctx).next_timer(),
    {
        let ghost was = self@;
        let was_ready = (self.is_send_ready(), self.is_recv_ready());
        let s = self.take_state();
        proof {
            assert(old(ctx)@ + Seq::<ActionView>::empty() =~= old(ctx)@);
        }
        let s = match s {
            State::Sending(id, msg, timeout, retry) => {
                if id == eid {
                    self.inner.send(ctx, State::Idle, msg, timeout, retry)
                } else {
                    State::Sending(id, msg, timeout, retry)
                }
            },
            State::Receiving(id, p, timeout) => {
                if eid == id {
                    self.inner.recv(ctx, State::Idle, timeout)
                } else {
                    State::Receiving(id, p, timeout)
                }
            },
            any => any,
        };
        self.finish(ctx, s, was_ready, Ghost(was));
        proof {
            assert(ctx@ =~= old(ctx)@ + old(self)@.with_event(old(self)@.on_pipe_removed(eid)).1);
        }
    }

    pub fn remove_pipe(&mut self, ctx: &mut Context, eid: EndpointId) -> (r: Option<Pipe>)
        requires
            old(self).inv(),
        ensures
            final(self).inv(),
            r == entry_pipe(old(self)@.pipes, eid),
            final(self)@ == old(self)@.remove_pipe(eid).0,
            final(ctx)@ == old(ctx)@ + old(self)@.remove_pipe(eid).1,
            final(ctx).next_timer() == old(ctx).next_timer(),
    {
        let was_send_ready = self.is_send_ready();
        let was_recv_ready = self.is_recv_ready();
        self.inner.lb.remove(&eid);
        self.inner.fq.remove(&eid);
        self.inner.rv.remove(&eid);
        let pipe = self.inner.pipes.remove(&eid);
        let is_send_ready = self.is_send_ready();
        let is_recv_ready = self.is_recv_ready();

        if pipe.is_some() {
            self.on_pipe_removed(ctx, eid);
        }

        ctx.check_send_ready_change(was_send_ready, is_send_ready);
        ctx.check_recv_ready_change(was_recv_ready, is_recv_ready);
        proof {
            assert(ctx@ =~= old(ctx)@ + old(self)@.remove_pipe(eid).1);
        }
        pipe
    }

    /// Sends a request; unless the socket serves a device, it gets the next
    /// id, so the sequence must not be at its end.
    pub fn send(&mut self, ctx: &mut Context, msg: Message, timeout: Timeout)
        requires
            old(self).inv(),
            !old(self)@.is_device_item ==> old(self)@.req_id_seq < u32::MAX,
        ensures
            final(self).inv(),
            final(self)@ == old(self)@.send(msg@, timeout).0,
            final(ctx)@ == old(ctx)@ + old(self)@.send(msg@, timeout).1,
            final(ctx).next_timer() == old(ctx).next_timer(),
    {
        let raw_msg = if self.inner.is_device_item {
            msg
        } else {
            self.inner.req_id_seq = self.inner.req_id_seq + 1;
            let id = self.inner.cur_req_id();
            encode(msg, id)
        };
        let ghost was = self@;
        let was_ready = (self.is_send_ready(), self.is_recv_ready());
        let s = self.take_state();
        let s = self.inner.send(ctx, s, raw_msg, timeout, false);
        self.finish(ctx, s, was_ready, Ghost(was));
        proof {
            assert(ctx@ =~= old(ctx)@ + old(self)@.send(msg@, timeout).1);
        }
    }

    pub fn on_send_ack(&mut self, ctx: &mut Context, eid: EndpointId)
        requires
            old(self).inv(),
        ensures
            final(self).inv(),
            final(self)@ == old(self)@.on_send_ack(eid, old(ctx).next_timer()).0,
            final(ctx)@ == old(ctx)@ + old(self)@.on_send_ack(eid, old(ctx).next_timer()).1,
            final(ctx).next_timer() == old(self)@.on_send_ack(eid, old(ctx).next_timer()).2,
    {
        let ghost was = self@;
        let was_ready = (self.is_send_ready(), self.is_recv_ready());
        let s = self.take_state();
        match s {
            State::Sending(id, msg, timeout, retry) => {
                if id != eid {
                    self.state = Some(State::Sending(id, msg, timeout, retry));
                    proof {
                        assert(ctx@ =~= old(ctx)@ + Seq::<ActionView>::empty());
                    }
                    return;
                }
                if !retry {
                    ctx.reply(Reply::Send);
                }
                ctx.cancel_timeout(timeout);
                let retry_timeout = if self.inner.is_device_item {
                    None
                } else {
                    ctx.schedule(Schedulable::ReqResend, self.inner.resend_ivl).ok()
                };
                let s = if self.inner.is_device_item {
                    State::Idle
                } else {
                    State::Active(eid, PendingRequest { req: msg, retry_timeout: retry_timeout })
                };
                self.finish(ctx, s, was_ready, Ghost(was));
                proof {
                    assert(ctx@ =~= old(ctx)@ + old(self)@.on_send_ack(eid, old(ctx).next_timer()).1);
                }
            },
            any => {
                self.state = Some(any);
                proof {
                    assert(ctx@ =~= old(ctx)@ + Seq::<ActionView>::empty());
                }
            },
        }
    }

    pub fn on_send_timeout(&mut self, ctx: &mut Context)
        requires
            old(self).inv(),
        ensures
            final(self).inv(),
            final(self)@ == old(self)@.on_send_timeout().0,
            final(ctx)@ == old(ctx)@ + old(self)@.on_send_timeout().1,
            final(ctx).next_timer() == old(ctx).next_timer(),
    {
        let ghost was = self@;
        let was_ready = (self.is_send_ready(), self.is_recv_ready());
        let _ = self.take_state();
        ctx.reply(Reply::Error(Failure::SendTimedOut));
        self.finish(ctx, State::Idle, was_ready, Ghost(was));
        proof {
            assert(ctx@ =~= old(ctx)@ + old(self)@.on_send_timeout().1);
        }
    }

    pub fn on_send_ready(&mut self, ctx: &mut Context, eid: EndpointId)
        requires
            old(self).inv(),
        ensures
            final(self).inv(),
            final(self)@ == old(self)@.on_send_ready(eid).0,
            final(ctx)@ == old(ctx)@ + old(self)@.on_send_ready(eid).1,
            final(ctx).next_timer() == old(ctx).next_timer(),
    {
        let ghost was = self@;
        let was_ready = (self.is_send_ready(), self.is_recv_ready());
        let s = self.take_state();
        self.inner.lb.activate(&eid);
        let s = match s {
            State::SendOnHold(msg, timeout, retry) => self.inner.send(ctx, State::Idle, msg, timeout, retry),
            any => {
                proof {
                    assert(ctx@ =~= old(ctx)@ + Seq::<ActionView>::empty());
                }
                any
            },
        };
        self.finish(ctx, s, was_ready, Ghost(was));
        proof {
            assert(ctx@ =~= old(ctx)@ + old(self)@.on_send_ready(eid).1);
        }
    }

    pub fn recv(&mut self, ctx: &mut Context, timeout: Timeout)
        requires
            old(self).inv(),
        ensures
            final(self).inv(),
            final(self)@ == old(self)@.recv(timeout).0,
            final(ctx)@ == old(ctx)@ + old(self)@.recv(timeout).1,
            final(ctx).next_timer() == old(ctx).next_timer(),
    {
        let ghost was = self@;
        let was_ready = (self.is_send_ready(), self.is_recv_ready());
        let s = self.take_state();
        let s = self.inner.recv(ctx, s, timeout);
        self.finish(ctx, s, was_ready, Ghost(was));
        proof {
            assert(ctx@ =~= old(ctx)@ + old(self)@.recv(timeout).1);
        }
    }

    pub fn on_recv_ack(&mut self, ctx: &mut Context, eid: EndpointId, raw_msg: Message)
        requires
            old(self).inv(),
        ensures
            final(self).inv(),
            final(self)@ == old(self)@.on_recv_ack(eid, raw_msg@).0,
            final(ctx)@ == old(ctx)@ + old(self)@.on_recv_ack(eid, raw_msg@).1,
            final(ctx).next_timer() == old(ctx).next_timer(),
    {
        let decoded = match decode(raw_msg) {
            Some((msg, id)) => Some((msg, if self.inner.is_device_item { self.inner.cur_req_id() } else { id })),
            None => None,
        };
        if let Some((msg, req_id)) = decoded {
            let ghost was = self@;
            let ghost m = msg@;
            let was_ready = (self.is_send_ready(), self.is_recv_ready());
            let s = self.take_state();
            proof {
                assert(old(ctx)@ + Seq::<ActionView>::empty() =~= old(ctx)@);
            }
            let s = match s {
                State::Receiving(id, None, timeout) => {
                    if eid == id {
                        ctx.reply(Reply::Recv(msg));
                        ctx.cancel_timeout(timeout);
                        proof {
                            assert(ctx@ =~= old(ctx)@ + (seq![ActionView::Reply(ReplyView::Recv(m))] + cancelled(timeout)));
                        }
                        State::Idle
                    } else {
                        State::Receiving(id, None, timeout)
                    }
                },
                State::Receiving(id, Some(p), timeout) => {
                    if eid == id {
                        if self.inner.cur_req_id() == req_id {
                            ctx.reply(Reply::Recv(msg));
                            ctx.cancel_timeout(timeout);
                            ctx.cancel_timeout(p.retry_timeout);
                            proof {
                                assert(ctx@ =~= old(ctx)@ + (seq![ActionView::Reply(ReplyView::Recv(m))] + cancelled(timeout)
                                    + cancelled(p.retry_timeout)));
                            }
                            State::Idle
                        } else {
                            self.inner.recv_reply_for(ctx, timeout, id, p)
                        }
                    } else {
                        State::Receiving(id, Some(p), timeout)
                    }
                },
                any => any,
            };
            self.finish(ctx, s, was_ready, Ghost(was));
            proof {
                assert(ctx@ =~= old(ctx)@ + old(self)@.on_recv_ack(eid, raw_msg@).1);
            }
        } else {
            ctx.reply(Reply::Error(Failure::RecvMalformed));
        }
    }

    pub fn on_recv_timeout(&mut self, ctx: &mut Context)
        requires
            old(self).inv(),
        ensures
            final(self).inv(),
            final(self)@ == old(self)@.on_recv_timeout().0,
            final(ctx)@ == old(ctx)@ + old(self)@.on_recv_timeout().1,
            final(ctx).next_timer() == old(ctx).next_timer(),
    {
        let ghost was = self@;
        let was_ready = (self.is_send_ready(), self.is_recv_ready());
        let s = self.take_state();
        match s {
            State::Receiving(_, None, _) | State::RecvOnHold(_, None, _) => {
                ctx.reply(Reply::Error(Failure::RecvTimedOut));
            },
            State::Receiving(_, Some(p), _) | State::RecvOnHold(_, Some(p), _) => {
                ctx.reply(Reply::Error(Failure::RecvTimedOut));
                ctx.cancel_timeout(p.retry_timeout);
            },
            _ => {},
        }
        self.finish(ctx, State::Idle, was_ready, Ghost(was));
        proof {
            assert(ctx@ =~= old(ctx)@ + old(self)@.on_recv_timeout().1);
        }
    }

    pub fn on_recv_ready(&mut self, ctx: &mut Context, eid: EndpointId)
        requires
            old(self).inv(),
        ensures
            final(self).inv(),
            final(self)@ == old(self)@.on_recv_ready(eid).0,
            final(ctx)@ == old(ctx)@ + old(self)@.on_recv_ready(eid).1,
            final(ctx).next_timer() == old(ctx).next_timer(),
    {
        let ghost was = self@;
        let was_ready = (self.is_send_ready(), self.is_recv_ready());
        let s = self.take_state();
        self.inner.fq.activate(&eid);
        self.inner.rv.insert(eid);
        proof {
            assert(old(ctx)@ + Seq::<ActionView>::empty() =~= old(ctx)@);
        }
        let s = match s {
            State::RecvOnHold(None, None, timeout) => self.inner.recv(ctx, State::Idle, timeout),
            State::RecvOnHold(Some(id), Some(p), timeout) => {
                if eid == id {
                    self.inner.recv(ctx, State::Active(id, p), timeout)
                } else {
                    State::RecvOnHold(Some(id), Some(p), timeout)
                }
            },
            any => any,
        };
        self.finish(ctx, s, was_ready, Ghost(was));
        proof {
            assert(ctx@ =~= old(ctx)@ + old(self)@.on_recv_ready(eid).1);
        }
    }

    /// A timer fired: when it is the resend timer, a request still waiting
    /// for its reply is sent again.
    pub fn on_timer_tick(&mut self, ctx: &mut Context, task: Schedulable)
        requires
            old(self).inv(),
        ensures
            final(self).inv(),
            task == Schedulable::ReqResend ==> final(self)@ == old(self)@.on_retry_timeout().0 && final(ctx)@
                == old(ctx)@ + old(self)@.on_retry_timeout().1,
            task != Schedulable::ReqResend ==> final(self)@ == old(self)@ && final(ctx)@ == old(ctx)@,
            final(ctx).next_timer() == old(ctx).next_timer(),
    {
        if let Schedulable::ReqResend = task {
            let ghost was = self@;
            let was_ready = (self.is_send_ready(), self.is_recv_ready());
            let s = self.take_state();
            let s = match s {
                State::Active(_, p) => self.inner.send(ctx, State::Idle, p.req, None, true),
                any => {
                    proof {
                        assert(ctx@ =~= old(ctx)@ + Seq::<ActionView>::empty());
                    }
                    any
                },
            };
            self.finish(ctx, s, was_ready, Ghost(was));
            proof {
                assert(ctx@ =~= old(ctx)@ + old(self)@.on_retry_timeout().1);
            }
        }
    }

    /// Takes the resend interval; refuses any other option.
    pub fn set_option(&mut self, opt: ConfigOption) -> (r: Result<(), Failure>)
        requires
            old(self).inv(),
        ensures
            final(self).inv(),
            opt matches ConfigOption::ReqResendIvl(ivl) ==> r is Ok && final(self)@ == (ReqView {
                resend_ivl: ivl,
                ..old(self)@
            }),
            !(opt is ReqResendIvl) ==> r == Err::<(), Failure>(Failure::OptionNotSupported) && final(self)@ == old(self)@,
    {
        match opt {
            ConfigOption::ReqResendIvl(ivl) => {
                self.inner.resend_ivl = ivl;
                Ok(())
            },
            _ => Err(Failure::OptionNotSupported),
        }
    }

    /// From now on the socket serves a device: requests go out as they are
    /// and any reply is taken.
    pub fn on_device_plugged(&mut self, ctx: &mut Context)
        requires
            old(self).inv(),
        ensures
            final(self).inv(),
            final(self)@ == (ReqView { is_device_item: true, ..old(self)@ }),
            *final(ctx) == *old(ctx),
    {
        self.inner.is_device_item = true;
    }

    pub fn is_send_ready(&self) -> (b: bool)
        ensures
            b == self@.is_send_ready(),
    {
        self.inner.lb.peek()
    }

    pub fn is_recv_ready(&self) -> (b: bool)
        requires
            self.inv(),
        ensures
            b == self@.is_recv_ready(),
    {
        match &self.state {
            Some(s) => self.inner.is_recv_ready_in(s),
            None => false,
        }
    }

    /// Closes every pipe.
    pub fn close(&mut self, ctx: &mut Context)
        requires
            old(self).inv(),
        ensures
            final(self).inv(),
            final(self)@ == (ReqView { pipes: Seq::empty(), ..old(self)@ }),
            final(ctx)@ == old(ctx)@ + closed_all(old(self)@.pipes),
            final(ctx).next_timer() == old(ctx).next_timer(),
    {
        self.inner.pipes.close_all(ctx)
    }
}

/// The user hears once of a request that went out: when the pipe that a
/// request went to takes it, the first send is reported to the user, first
/// of what is recorded and only once, while a resend of the same request is
/// never reported, since the user sent nothing more and waits for the reply.
pub proof fn lemma_send_reported_once(v: ReqView, eid: EndpointId, nt: nat)
    requires
        v.state matches StateView::Sending(id, _, _, _) && id == eid,
    ensures
        ({
            let acts = v.on_send_ack(eid, nt).1;
            let retry = v.state->Sending_3;
            &&& !retry ==> acts[0] == ActionView::Reply(ReplyView::Send)
            &&& forall|i: int| 0 <= i < acts.len() && #[trigger] acts[i] is Reply ==> !retry && i == 0
        }),
{
    let (w, acts, nt2) = v.on_send_ack(eid, nt);
    let retry = v.state->Sending_3;
    let t = v.state->Sending_2;
    lemma_changes_only_raise(v.is_send_ready(), w.is_send_ready(), v.is_recv_ready(), w.is_recv_ready());
    let told: Seq<ActionView> = if !retry {
        seq![ActionView::Reply(ReplyView::Send)]
    } else {
        Seq::empty()
    };
    let sched: Seq<ActionView> = if v.is_device_item || nt >= usize::MAX {
        Seq::empty()
    } else {
        seq![ActionView::Schedule(nt as usize, Schedulable::ReqResend, v.resend_ivl)]
    };
    let rest = cancelled(t) + sched + v.changes(w);
    assert(acts == told + rest);
    assert forall|i: int| 0 <= i < rest.len() implies !(#[trigger] rest[i] is Reply) by {
        let c = cancelled(t);
        if i < c.len() {
            assert(rest[i] == c[i]);
        } else if i < c.len() + sched.len() {
            assert(rest[i] == sched[i - c.len()]);
        } else {
            assert(rest[i] == v.changes(w)[i - c.len() - sched.len()]);
        }
    }
    assert forall|i: int| 0 <= i < acts.len() && #[trigger] acts[i] is Reply implies !retry && i == 0 by {
        if i >= told.len() {
            assert(acts[i] == rest[i - told.len()]);
        }
    }
}

} // verus!
