//! SURVEYOR: sends each survey to every peer that can take it, then collects
//! the answers that carry the survey's id until the survey's deadline.
use vstd::prelude::*;

use crate::common::{ActionView, ConfigOption, EndpointId, Failure, Message, MessageView, Reply, ReplyView, Schedulable, Timeout};
use crate::context::{cancelled, lemma_changes_only_raise, recv_change, send_change, Context};
use crate::proto::pipes::{closed_all, eid_inserted, eid_removed, entry_inserted, entry_pipe, entry_removed, EidSet, Pipe, PipeCollection};
use crate::proto::policy::broadcast::{self, broadcast_sends};
use crate::proto::policy::fair_queue::{self, fq_received};
use crate::proto::priolist::{Priolist, PriolistModel};
use crate::proto::req::{clock_nanos, decode, encode, id_decoded, id_encoded, req_id_of};
use crate::proto::{RESPONDENT, SURVEYOR};

verus! {

/// The survey that was sent last: its id and the timer of its deadline.
#[derive(Clone, Copy)]
pub struct PendingSurvey {
    pub id: u32,
    pub timeout: Timeout,
}

#[derive(Clone, Copy)]
pub enum State {
    Idle,
    Active(PendingSurvey),
    Receiving(EndpointId, Option<PendingSurvey>, Timeout),
    RecvOnHold(Option<PendingSurvey>, Timeout),
}

pub struct Inner {
    pipes: PipeCollection,
    bc: EidSet,
    fq: Priolist,
    survey_id_seq: u32,
    is_device_item: bool,
    deadline: u64,
}

/// A SURVEYOR socket seen as its state, its pipes, the endpoints a survey
/// can be sent to, its fair-queuing list, the sequence of survey ids,
/// whether it serves a device and the deadline of a survey in milliseconds.
pub struct SurveyorView {
    pub state: State,
    pub pipes: Seq<(EndpointId, Pipe)>,
    pub bc: Seq<EndpointId>,
    pub fq: PriolistModel,
    pub survey_id_seq: u32,
    pub is_device_item: bool,
    pub deadline: u64,
}

impl SurveyorView {
    pub open spec fn is_send_ready(self) -> bool {
        self.bc.len() > 0
    }

    pub open spec fn is_recv_ready(self) -> bool {
        (self.is_device_item || self.state is Active) && self.fq.has_current()
    }

    pub open spec fn changes(self, other: SurveyorView) -> Seq<ActionView> {
        send_change(self.is_send_ready(), other.is_send_ready()) + recv_change(
            self.is_recv_ready(),
            other.is_recv_ready(),
        )
    }

    pub open spec fn with_event(self, step: (SurveyorView, Seq<ActionView>)) -> (SurveyorView, Seq<ActionView>) {
        (step.0, step.1 + self.changes(step.0))
    }

    pub open spec fn cur_survey_id(self) -> u32 {
        req_id_of(self.survey_id_seq)
    }

    /// The survey as it goes out, and the sequence afterwards: it gets the
    /// next id, unless the socket serves a device.
    pub open spec fn outgoing(self, msg: MessageView) -> (MessageView, u32) {
        if self.is_device_item {
            (msg, self.survey_id_seq)
        } else {
            (id_encoded(msg, req_id_of((self.survey_id_seq + 1) as u32)), (self.survey_id_seq + 1) as u32)
        }
    }

    /// Sending a survey from this state: the deadline of the previous one is
    /// cancelled, the survey goes to every endpoint that was ready, the user
    /// is told, the send timer is cancelled and the deadline is started with
    /// identifier `nt`, when one is left.
    pub open spec fn state_send(self, msg: MessageView, t: Timeout, nt: nat) -> (SurveyorView, Seq<ActionView>, nat) {
        let cancel = match self.state {
            State::Active(p) => cancelled(p.timeout),
            _ => Seq::empty(),
        };
        let (deadline_timer, sched, nt2) = if nt >= usize::MAX {
            (None::<usize>, Seq::<ActionView>::empty(), nt)
        } else {
            (Some(nt as usize), seq![ActionView::Schedule(nt as usize, Schedulable::SurveyCancel, self.deadline)], nt + 1)
        };
        let w = SurveyorView {
            state: State::Active(PendingSurvey { id: self.cur_survey_id(), timeout: deadline_timer }),
            bc: Seq::empty(),
            ..self
        };
        (
            w,
            cancel + broadcast_sends(self.bc, self.pipes, msg, None) + seq![ActionView::Reply(ReplyView::Send)]
                + cancelled(t) + sched,
            nt2,
        )
    }

    pub open spec fn send(self, msg: MessageView, t: Timeout, nt: nat) -> (SurveyorView, Seq<ActionView>, nat) {
        let (raw, seq) = self.outgoing(msg);
        let v = SurveyorView { survey_id_seq: seq, ..self };
        let (w, acts, nt2) = v.state_send(raw, t, nt);
        (w, acts + self.changes(w), nt2)
    }

    pub open spec fn on_send_ready(self, eid: EndpointId) -> (SurveyorView, Seq<ActionView>) {
        self.with_event((SurveyorView { bc: eid_inserted(self.bc, eid), ..self }, Seq::empty()))
    }

    /// Waiting for the answers to `p`, from the next endpoint of the list.
    pub open spec fn recv_reply_for(self, t: Timeout, p: PendingSurvey) -> (SurveyorView, Seq<ActionView>) {
        let (e, fq, acts) = fq_received(self.fq, self.pipes);
        let state = match e {
            Some(eid) => State::Receiving(eid, Some(p), t),
            None => State::RecvOnHold(Some(p), t),
        };
        (SurveyorView { state, fq, ..self }, acts)
    }

    /// Receiving from this state: a device takes any message in turn, a
    /// socket with a survey waits for an answer, and one without fails.
    pub open spec fn state_recv(self, t: Timeout) -> (SurveyorView, Seq<ActionView>) {
        if self.is_device_item {
            let (e, fq, acts) = fq_received(self.fq, self.pipes);
            let state = match e {
                Some(eid) => State::Receiving(eid, None, t),
                None => State::RecvOnHold(None, t),
            };
            (SurveyorView { state, fq, ..self }, acts)
        } else {
            match self.state {
                State::Active(p) => SurveyorView { state: State::Idle, ..self }.recv_reply_for(t, p),
                _ => (
                    SurveyorView { state: State::Idle, ..self },
                    seq![ActionView::Reply(ReplyView::Error(Failure::RecvWithoutPending))] + cancelled(t),
                ),
            }
        }
    }

    pub open spec fn recv(self, t: Timeout) -> (SurveyorView, Seq<ActionView>) {
        self.with_event(self.state_recv(t))
    }

    /// The answer and its survey id, as read from what arrived: a device
    /// keeps the id in the header and takes the current id for any answer,
    /// a socket drops the header.
    pub open spec fn incoming(self, raw: MessageView) -> Option<(MessageView, u32)> {
        match id_decoded(raw) {
            Some((m, id)) => if self.is_device_item {
                Some((m, self.cur_survey_id()))
            } else {
                Some(((Seq::empty(), m.1), id))
            },
            None => None,
        }
    }

    pub open spec fn state_on_recv_ack(self, eid: EndpointId, msg: MessageView, survey_id: u32) -> (
        SurveyorView,
        Seq<ActionView>,
    ) {
        match self.state {
            State::Receiving(id, None, t) => if id == eid {
                (
                    SurveyorView { state: State::Idle, ..self },
                    seq![ActionView::Reply(ReplyView::Recv(msg))] + cancelled(t),
                )
            } else {
                (self, Seq::empty())
            },
            State::Receiving(id, Some(p), t) => if id == eid {
                if p.id == survey_id {
                    (
                        SurveyorView { state: State::Active(p), ..self },
                        seq![ActionView::Reply(ReplyView::Recv(msg))] + cancelled(t),
                    )
                } else {
                    SurveyorView { state: State::Idle, ..self }.recv_reply_for(t, p)
                }
            } else {
                (self, Seq::empty())
            },
            _ => (self, Seq::empty()),
        }
    }

    pub open spec fn on_recv_ack(self, eid: EndpointId, raw: MessageView) -> (SurveyorView, Seq<ActionView>) {
        match self.incoming(raw) {
            Some((msg, survey_id)) => self.with_event(self.state_on_recv_ack(eid, msg, survey_id)),
            None => (self, seq![ActionView::Reply(ReplyView::Error(Failure::RecvMalformed))]),
        }
    }

    /// A receive timed out: the user is told, and the survey, if any, stays
    /// open.
    pub open spec fn on_recv_timeout(self) -> (SurveyorView, Seq<ActionView>) {
        let state = match self.state {
            State::Receiving(_, Some(p), _) | State::RecvOnHold(Some(p), _) => State::Active(p),
            _ => State::Idle,
        };
        self.with_event(
            (SurveyorView { state, ..self }, seq![ActionView::Reply(ReplyView::Error(Failure::RecvTimedOut))]),
        )
    }

    pub open spec fn on_recv_ready(self, eid: EndpointId) -> (SurveyorView, Seq<ActionView>) {
        let v = SurveyorView { fq: self.fq.activated(eid), ..self };
        self.with_event(
            match self.state {
                State::RecvOnHold(None, t) => SurveyorView { state: State::Idle, ..v }.state_recv(t),
                State::RecvOnHold(Some(p), t) => SurveyorView { state: State::Active(p), ..v }.state_recv(t),
                _ => (v, Seq::empty()),
            },
        )
    }

    /// The deadline of the survey passed: no more answers are taken.
    pub open spec fn on_survey_timeout(self) -> (SurveyorView, Seq<ActionView>) {
        self.with_event(
            match self.state {
                State::Active(_) => (SurveyorView { state: State::Idle, ..self }, Seq::empty()),
                _ => (self, Seq::empty()),
            },
        )
    }

    pub open spec fn on_pipe_removed(self, eid: EndpointId) -> (SurveyorView, Seq<ActionView>) {
        match self.state {
            State::Receiving(id, _, t) => if id == eid {
                SurveyorView { state: State::Idle, ..self }.state_recv(t)
            } else {
                (self, Seq::empty())
            },
            _ => (self, Seq::empty()),
        }
    }

    pub open spec fn remove_pipe(self, eid: EndpointId) -> (SurveyorView, Seq<ActionView>) {
        let removed = SurveyorView {
            bc: eid_removed(self.bc, eid),
            fq: self.fq.removed(eid),
            pipes: entry_removed(self.pipes, eid),
            ..self
        };
        let outer = self.changes(removed);
        if entry_pipe(self.pipes, eid) is Some {
            let then = removed.with_event(removed.on_pipe_removed(eid));
            (then.0, then.1 + outer)
        } else {
            (removed, outer)
        }
    }
}

/// Once the deadline of a survey passed, the socket holds no survey: a
/// receive fails until the next survey is sent.
pub proof fn lemma_deadline_ends_survey(v: SurveyorView, t: Timeout)
    requires
        !v.is_device_item,
        v.state is Active,
    ensures
        v.on_survey_timeout().0.state is Idle,
        v.on_survey_timeout().0.recv(t).1[0] == ActionView::Reply(ReplyView::Error(Failure::RecvWithoutPending)),
{
}

/// A socket that waits on a pipe for an answer to its survey takes only an
/// answer that carries the id of the survey: the user gets it and the survey
/// stays open for more answers; an answer with another id is dropped unseen
/// and the socket waits for the next one.
pub proof fn lemma_answer_needs_current_id(v: SurveyorView, eid: EndpointId, raw: MessageView)
    requires
        !v.is_device_item,
        v.state matches State::Receiving(id, Some(p), _) && id == eid,
        id_decoded(raw) is Some,
    ensures
        ({
            let (m, sid) = id_decoded(raw)->0;
            let (w, acts) = v.on_recv_ack(eid, raw);
            let p = v.state->Receiving_1->0;
            &&& sid == p.id ==> acts[0] == ActionView::Reply(ReplyView::Recv((Seq::empty(), m.1))) && w.state == State::Active(p)
            &&& sid != p.id ==> (forall|i: int| 0 <= i < acts.len() ==> !(#[trigger] acts[i] is Reply)) && (
            w.state is Receiving || w.state is RecvOnHold)
        }),
{
    let (m, sid) = id_decoded(raw)->0;
    let msg = (Seq::<u8>::empty(), m.1);
    let (w, acts) = v.on_recv_ack(eid, raw);
    let step = v.state_on_recv_ack(eid, msg, sid);
    assert(acts == step.1 + v.changes(step.0));
    let ch = v.changes(step.0);
    assert forall|i: int| 0 <= i < ch.len() implies !(#[trigger] ch[i] is Reply) by {
        let a = send_change(v.is_send_ready(), step.0.is_send_ready());
        let b = recv_change(v.is_recv_ready(), step.0.is_recv_ready());
        assert(ch == a + b);
        if i < a.len() {
            assert(ch[i] == a[i]);
        } else {
            assert(ch[i] == b[i - a.len()]);
        }
    }
    let p = v.state->Receiving_1->0;
    if sid != p.id {
        assert forall|i: int| 0 <= i < acts.len() implies !(#[trigger] acts[i] is Reply) by {
            if i < step.1.len() {
                assert(acts[i] == step.1[i]);
            } else {
                assert(acts[i] == ch[i - step.1.len()]);
            }
        }
    }
}

pub struct Surveyor {
    inner: Inner,
    state: Option<State>,
}

impl Inner {
    pub closed spec fn view_with(&self, s: State) -> SurveyorView {
        SurveyorView {
            state: s,
            pipes: self.pipes@,
            bc: self.bc@,
            fq: self.fq@,
            survey_id_seq: self.survey_id_seq,
            is_device_item: self.is_device_item,
            deadline: self.deadline,
        }
    }

    pub closed spec fn inv(&self) -> bool {
        &&& self.pipes.inv()
        &&& self.bc.inv()
        &&& self.fq.inv()
    }

    fn send(&mut self, ctx: &mut Context, state: State, msg: Message, timeout: Timeout) -> (s: State)
        requires
            old(self).inv(),
        ensures
            final(self).inv(),
            ({
                let (w, acts, nt) = old(self).view_with(state).state_send(msg@, timeout, old(ctx).next_timer());
                &&& final(self).view_with(s) == w
                &&& final(ctx)@ == old(ctx)@ + acts
                &&& final(ctx).next_timer() == nt
            }),
    {
        if let State::Active(p) = state {
            ctx.cancel_timeout(p.timeout);
        } else {
            proof {
                assert(ctx@ =~= old(ctx)@ + Seq::<ActionView>::empty());
            }
        }
        broadcast::send_to_all(&mut self.bc, &mut self.pipes, ctx, msg);
        ctx.reply(Reply::Send);
        ctx.cancel_timeout(timeout);
        let deadline_timer = ctx.schedule(Schedulable::SurveyCancel, self.deadline).ok();
        proof {
            assert(ctx@ =~= old(ctx)@ + old(self).view_with(state).state_send(msg@, timeout, old(ctx).next_timer()).1);
            assert(self.bc@ =~= Seq::<EndpointId>::empty());
        }
        State::Active(PendingSurvey { id: self.cur_survey_id(), timeout: deadline_timer })
    }

    fn recv_reply_for(&mut self, ctx: &mut Context, timeout: Timeout, p: PendingSurvey) -> (s: State)
        requires
            old(self).inv(),
        ensures
            final(self).inv(),
            ({
                let (w, acts) = old(self).view_with(State::Idle).recv_reply_for(timeout, p);
                &&& final(self).view_with(s) == w
                &&& final(ctx)@ == old(ctx)@ + acts
            }),
            final(ctx).next_timer() == old(ctx).next_timer(),
    {
        if let Some(eid) = fair_queue::recv(&mut self.fq, &mut self.pipes, ctx) {
            State::Receiving(eid, Some(p), timeout)
        } else {
            State::RecvOnHold(Some(p), timeout)
        }
    }

    fn recv(&mut self, ctx: &mut Context, state: State, timeout: Timeout) -> (s: State)
        requires
            old(self).inv(),
        ensures
            final(self).inv(),
            ({
                let (w, acts) = old(self).view_with(state).state_recv(timeout);
                &&& final(self).view_with(s) == w
                &&& final(ctx)@ == old(ctx)@ + acts
            }),
            final(ctx).next_timer() == old(ctx).next_timer(),
    {
        if self.is_device_item {
            if let Some(eid) = fair_queue::recv(&mut self.fq, &mut self.pipes, ctx) {
                State::Receiving(eid, None, timeout)
            } else {
                State::RecvOnHold(None, timeout)
            }
        } else if let State::Active(p) = state {
            self.recv_reply_for(ctx, timeout, p)
        } else {
            ctx.reply(Reply::Error(Failure::RecvWithoutPending));
            ctx.cancel_timeout(timeout);
            proof {
                assert(ctx@ =~= old(ctx)@ + (seq![ActionView::Reply(ReplyView::Error(Failure::RecvWithoutPending))]
                    + cancelled(timeout)));
            }
            State::Idle
        }
    }

    fn is_recv_ready_in(&self, state: &State) -> (b: bool)
        ensures
            b == self.view_with(*state).is_recv_ready(),
    {
        if self.is_device_item {
            self.fq.peek()
        } else if let State::Active(_) = state {
            self.fq.peek()
        } else {
            false
        }
    }

    fn cur_survey_id(&self) -> (id: u32)
        ensures
            id == req_id_of(self.survey_id_seq),
    {
        self.survey_id_seq | 0x8000_0000u32
    }
}

impl View for Surveyor {
    type V = SurveyorView;

    closed spec fn view(&self) -> SurveyorView {
        self.inner.view_with(
            match self.state {
                Some(s) => s,
                None => State::Idle,
            },
        )
    }
}

impl Surveyor {
    pub closed spec fn inv(&self) -> bool {
        &&& self.state is Some
        &&& self.inner.inv()
    }

    /// A socket whose survey ids start after `seq`.
    pub fn with_survey_id_seq(seq: u32) -> (r: Surveyor)
        ensures
            r.inv(),
            r@ == (SurveyorView {
                state: State::Idle,
                pipes: Seq::empty(),
                bc: Seq::empty(),
                fq: PriolistModel { items: Seq::empty(), current: None },
                survey_id_seq: seq,
                is_device_item: false,
                deadline: 1000,
            }),
    {
        Surveyor {
            inner: Inner {
                pipes: PipeCollection::new(),
                bc: EidSet::new(),
                fq: Priolist::new(),
                survey_id_seq: seq,
                is_device_item: false,
                deadline: 1000,
            },
            state: Some(State::Idle),
        }
    }

    /// A socket whose survey ids start after a value read from the clock.
    pub fn new() -> (r: Surveyor)
        ensures
            r.inv(),
            r@ == (SurveyorView {
                state: State::Idle,
                pipes: Seq::empty(),
                bc: Seq::empty(),
                fq: PriolistModel { items: Seq::empty(), current: None },
                survey_id_seq: r@.survey_id_seq,
                is_device_item: false,
                deadline: 1000,
            }),
            r@.survey_id_seq < 1_000_000_000,
    {
        Surveyor::with_survey_id_seq(clock_nanos())
    }

    /// The sequence that the id of the current survey is made of.
    pub fn survey_id_seq(&self) -> (seq: u32)
        ensures
            seq == self@.survey_id_seq,
    {
        self.inner.survey_id_seq
    }

    pub fn id(&self) -> (id: u16)
        ensures
            id == SURVEYOR,
    {
        SURVEYOR
    }

    pub fn peer_id(&self) -> (id: u16)
        ensures
            id == RESPONDENT,
    {
        RESPONDENT
    }

    fn take_state(&mut self) -> (s: State)
        requires
            old(self).inv(),
        ensures
            s == old(self)@.state,
            old(self).inner.view_with(s) == old(self)@,
            final(self).inner == old(self).inner,
            final(self).state is None,
    {
        match self.state.take() {
            Some(s) => s,
            None => State::Idle,
        }
    }

    fn finish(&mut self, ctx: &mut Context, s: State, was_ready: (bool, bool), Ghost(was): Ghost<SurveyorView>)
        requires
            old(self).inner.inv(),
            was_ready.0 == was.is_send_ready(),
            was_ready.1 == was.is_recv_ready(),
        ensures
            final(self).inv(),
            final(self)@ == old(self).inner.view_with(s),
            final(ctx)@ == old(ctx)@ + was.changes(final(self)@),
            final(ctx).next_timer() == old(ctx).next_timer(),
    {
        let is_send_ready = !self.inner.bc.is_empty();
        let is_recv_ready = self.inner.is_recv_ready_in(&s);
        let (was_send_ready, was_recv_ready) = was_ready;
        self.state = Some(s);
        ctx.check_send_ready_change(was_send_ready, is_send_ready);
        ctx.check_recv_ready_change(was_recv_ready, is_recv_ready);
    }

    pub fn add_pipe(&mut self, ctx: &mut Context, eid: EndpointId, pipe: Pipe)
        requires
            old(self).inv(),
            pipe.recv_priority < 255,
        ensures
            final(self).inv(),
            final(self)@ == (SurveyorView {
                fq: old(self)@.fq.inserted(eid, pipe.recv_priority),
                pipes: entry_inserted(old(self)@.pipes, eid, pipe),
                ..old(self)@
            }),
            *final(ctx) == *old(ctx),
    {
        self.inner.fq.insert(eid, pipe.get_recv_priority());
        self.inner.pipes.insert(eid, pipe);
    }

    /// What follows the removal of a pipe that the socket held: an answer
    /// awaited on it is awaited as if nothing had been sent.
    fn on_pipe_removed(&mut self, ctx: &mut Context, eid: EndpointId)
        requires
            old(self).inv(),
        ensures
            final(self).inv(),
            final(self)@ == old(self)@.with_event(old(self)@.on_pipe_removed(eid)).0,
            final(ctx)@ == old(ctx)@ + old(self)@.with_event(old(self)@.on_pipe_removed(eid)).1,
            final(ctx).next_timer() == old(ctx).next_timer(),
    {
        let ghost was = self@;
        let was_ready = (self.is_send_ready(), self.is_recv_ready());
        let s = self.take_state();
        proof {
            assert(old(ctx)@ + Seq::<ActionView>::empty() =~= old(ctx)@);
        }
        let s = match s {
            State::Receiving(id, p, timeout) => {
                if id == eid {
                    self.inner.recv(ctx, State::Idle, timeout)
                } else {
                    State::Receiving(id, p, timeout)
                }
            },
            any => any,
        };
        self.finish(ctx, s, was_ready, Ghost(was));
        proof {
            assert(ctx@ =~= old(ctx)@ + old(self)@.with_event(old(self)@.on_pipe_removed(eid)).1);
        }
    }

    pub fn remove_pipe(&mut self, ctx: &mut Context, eid: EndpointId) -> (r: Option<Pipe>)
        requires
            old(self).inv(),
        ensures
            final(self).inv(),
            r == entry_pipe(old(self)@.pipes, eid),
            final(self)@ == old(self)@.remove_pipe(eid).0,
            final(ctx)@ == old(ctx)@ + old(self)@.remove_pipe(eid).1,
            final(ctx).next_timer() == old(ctx).next_timer(),
    {
        let was_send_ready = self.is_send_ready();
        let was_recv_ready = self.is_recv_ready();
        self.inner.bc.remove(&eid);
        self.inner.fq.remove(&eid);
        let pipe = self.inner.pipes.remove(&eid);
        let is_send_ready = self.is_send_ready();
        let is_recv_ready = self.is_recv_ready();
        if pipe.is_some() {
            self.on_pipe_removed(ctx, eid);
        }
        ctx.check_send_ready_change(was_send_ready, is_send_ready);
        ctx.check_recv_ready_change(was_recv_ready, is_recv_ready);
        proof {
            assert(ctx@ =~= old(ctx)@ + old(self)@.remove_pipe(eid).1);
        }
        pipe
    }

    /// Sends a survey to every ready peer; unless the socket serves a
    /// device, it gets the next id, so the sequence must not be at its end.
    pub fn send(&mut self, ctx: &mut Context, msg: Message, timeout: Timeout)
        requires
            old(self).inv(),
            !old(self)@.is_device_item ==> old(self)@.survey_id_seq < u32::MAX,
        ensures
            final(self).inv(),
            final(self)@ == old(self)@.send(msg@, timeout, old(ctx).next_timer()).0,
            final(ctx)@ == old(ctx)@ + old(self)@.send(msg@, timeout, old(ctx).next_timer()).1,
            final(ctx).next_timer() == old(self)@.send(msg@, timeout, old(ctx).next_timer()).2,
    {
        let raw_msg = if self.inner.is_device_item {
            msg
        } else {
            self.inner.survey_id_seq = self.inner.survey_id_seq + 1;
            let id = self.inner.cur_survey_id();
            encode(msg, id)
        };
        let ghost was = old(self)@;
        let was_ready = (self.is_send_ready(), self.is_recv_ready());
        let s = self.take_state();
        let s = self.inner.send(ctx, s, raw_msg, timeout);
        let is_send_ready = !self.inner.bc.is_empty();
        let is_recv_ready = self.inner.is_recv_ready_in(&s);
        self.state = Some(s);
        ctx.check_send_ready_change(was_ready.0, is_send_ready);
        ctx.check_recv_ready_change(was_ready.1, is_recv_ready);
        proof {
            assert(ctx@ =~= old(ctx)@ + old(self)@.send(msg@, timeout, old(ctx).next_timer()).1);
        }
    }

    /// A send completed; a survey needs nothing more.
    pub fn on_send_ack(&mut self, ctx: &mut Context, _eid: EndpointId)
        ensures
            *final(self) == *old(self),
            *final(ctx) == *old(ctx),
    {
    }

    /// A send timed out; a survey needs nothing more.
    pub fn on_send_timeout(&mut self, ctx: &mut Context)
        ensures
            *final(self) == *old(self),
            *final(ctx) == *old(ctx),
    {
    }

    pub fn on_send_ready(&mut self, ctx: &mut Context, eid: EndpointId)
        requires
            old(self).inv(),
        ensures
            final(self).inv(),
            final(self)@ == old(self)@.on_send_ready(eid).0,
            final(ctx)@ == old(ctx)@ + old(self)@.on_send_ready(eid).1,
            final(ctx).next_timer() == old(ctx).next_timer(),
    {
        let ghost was = self@;
        let was_ready = (self.is_send_ready(), self.is_recv_ready());
        let s = self.take_state();
        self.inner.bc.insert(eid);
        self.finish(ctx, s, was_ready, Ghost(was));
        proof {
            assert(ctx@ =~= old(ctx)@ + old(self)@.on_send_ready(eid).1);
        }
    }

    pub fn recv(&mut self, ctx: &mut Context, timeout: Timeout)
        requires
            old(self).inv(),
        ensures
            final(self).inv(),
            final(self)@ == old(self)@.recv(timeout).0,
            final(ctx)@ == old(ctx)@ + old(self)@.recv(timeout).1,
            final(ctx).next_timer() == old(ctx).next_timer(),
    {
        let ghost was = self@;
        let was_ready = (self.is_send_ready(), self.is_recv_ready());
        let s = self.take_state();
        let s = self.inner.recv(ctx, s, timeout);
        self.finish(ctx, s, was_ready, Ghost(was));
        proof {
            assert(ctx@ =~= old(ctx)@ + old(self)@.recv(timeout).1);
        }
    }

    pub fn on_recv_ack(&mut self, ctx: &mut Context, eid: EndpointId, raw_msg: Message)
        requires
            old(self).inv(),
        ensures
            final(self).inv(),
            final(self)@ == old(self)@.on_recv_ack(eid, raw_msg@).0,
            final(ctx)@ == old(ctx)@ + old(self)@.on_recv_ack(eid, raw_msg@).1,
            final(ctx).next_timer() == old(ctx).next_timer(),
    {
        let decoded = match decode(raw_msg) {
            Some((msg, id)) => if self.inner.is_device_item {
                Some((msg, self.inner.cur_survey_id()))
            } else {
                Some((msg.without_header(), id))
            },
            None => None,
        };
        if let Some((msg, survey_id)) = decoded {
            let ghost was = self@;
            let ghost m = msg@;
            let was_ready = (self.is_send_ready(), self.is_recv_ready());
            let s = self.take_state();
            proof {
                assert(old(ctx)@ + Seq::<ActionView>::empty() =~= old(ctx)@);
            }
            let s = match s {
                State::Receiving(id, None, timeout) => {
                    if id == eid {
                        ctx.reply(Reply::Recv(msg));
                        ctx.cancel_timeout(timeout);
                        proof {
                            assert(ctx@ =~= old(ctx)@ + (seq![ActionView::Reply(ReplyView::Recv(m))] + cancelled(timeout)));
                        }
                        State::Idle
                    } else {
                        State::Receiving(id, None, timeout)
                    }
                },
                State::Receiving(id, Some(p), timeout) => {
                    if id == eid {
                        if p.id == survey_id {
                            ctx.reply(Reply::Recv(msg));
                            ctx.cancel_timeout(timeout);
                            proof {
                                assert(ctx@ =~= old(ctx)@ + (seq![ActionView::Reply(ReplyView::Recv(m))] + cancelled(timeout)));
                            }
                            State::Active(p)
                        } else {
                            self.inner.recv_reply_for(ctx, timeout, p)
                        }
                    } else {
                        State::Receiving(id, Some(p), timeout)
                    }
                },
                any => any,
            };
            self.finish(ctx, s, was_ready, Ghost(was));
            proof {
                assert(ctx@ =~= old(ctx)@ + old(self)@.on_recv_ack(eid, raw_msg@).1);
            }
        } else {
            ctx.reply(Reply::Error(Failure::RecvMalformed));
        }
    }

    pub fn on_recv_timeout(&mut self, ctx: &mut Context)
        requires
            old(self).inv(),
        ensures
            final(self).inv(),
            final(self)@ == old(self)@.on_recv_timeout().0,
            final(ctx)@ == old(ctx)@ + old(self)@.on_recv_timeout().1,
            final(ctx).next_timer() == old(ctx).next_timer(),
    {
        let ghost was = self@;
        let was_ready = (self.is_send_ready(), self.is_recv_ready());
        let s = self.take_state();
        ctx.reply(Reply::Error(Failure::RecvTimedOut));
        let s = match s {
            State::Receiving(_, Some(p), _) | State::RecvOnHold(Some(p), _) => State::Active(p),
            _ => State::Idle,
        };
        self.finish(ctx, s, was_ready, Ghost(was));
        proof {
            assert(ctx@ =~= old(ctx)@ + old(self)@.on_recv_timeout().1);
        }
    }

    pub fn on_recv_ready(&mut self, ctx: &mut Context, eid: EndpointId)
        requires
            old(self).inv(),
        ensures
            final(self).inv(),
            final(self)@ == old(self)@.on_recv_ready(eid).0,
            final(ctx)@ == old(ctx)@ + old(self)@.on_recv_ready(eid).1,
            final(ctx).next_timer() == old(ctx).next_timer(),
    {
        let ghost was = self@;
        let was_ready = (self.is_send_ready(), self.is_recv_ready());
        let s = self.take_state();
        self.inner.fq.activate(&eid);
        proof {
            assert(old(ctx)@ + Seq::<ActionView>::empty() =~= old(ctx)@);
        }
        let s = match s {
            State::RecvOnHold(None, timeout) => self.inner.recv(ctx, State::Idle, timeout),
            State::RecvOnHold(Some(p), timeout) => self.inner.recv(ctx, State::Active(p), timeout),
            any => any,
        };
        self.finish(ctx, s, was_ready, Ghost(was));
        proof {
            assert(ctx@ =~= old(ctx)@ + old(self)@.on_recv_ready(eid).1);
        }
    }

    /// A timer fired: when it is the deadline of the survey, no more answers
    /// are taken.
    pub fn on_timer_tick(&mut self, ctx: &mut Context, task: Schedulable)
        requires
            old(self).inv(),
        ensures
            final(self).inv(),
            task == Schedulable::SurveyCancel ==> final(self)@ == old(self)@.on_survey_timeout().0 && final(ctx)@
                == old(ctx)@ + old(self)@.on_survey_timeout().1,
            task != Schedulable::SurveyCancel ==> final(self)@ == old(self)@ && final(ctx)@ == old(ctx)@,
            final(ctx).next_timer() == old(ctx).next_timer(),
    {
        if let Schedulable::SurveyCancel = task {
            let ghost was = self@;
            let was_ready = (self.is_send_ready(), self.is_recv_ready());
            let s = self.take_state();
            let s = match s {
                State::Active(_) => State::Idle,
                any => any,
            };
            self.finish(ctx, s, was_ready, Ghost(was));
            proof {
                assert(ctx@ =~= old(ctx)@ + old(self)@.on_survey_timeout().1);
            }
        }
    }

    /// Takes the deadline of a survey; refuses any other option.
    pub fn set_option(&mut self, opt: ConfigOption) -> (r: Result<(), Failure>)
        requires
            old(self).inv(),
        ensures
            final(self).inv(),
            opt matches ConfigOption::SurveyDeadline(ivl) ==> r is Ok && final(self)@ == (SurveyorView {
                deadline: ivl,
                ..old(self)@
            }),
            !(opt is SurveyDeadline) ==> r == Err::<(), Failure>(Failure::OptionNotSupported) && final(self)@ == old(self)@,
    {
        match opt {
            ConfigOption::SurveyDeadline(ivl) => {
                self.inner.deadline = ivl;
                Ok(())
            },
            _ => Err(Failure::OptionNotSupported),
        }
    }

    /// From now on the socket serves a device: surveys go out as they are
    /// and any answer is taken.
    pub fn on_device_plugged(&mut self, ctx: &mut Context)
        requires
            old(self).inv(),
        ensures
            final(self).inv(),
            final(self)@ == (SurveyorView { is_device_item: true, ..old(self)@ }),
            *final(ctx) == *old(ctx),
    {
        self.inner.is_device_item = true;
    }

    pub fn is_send_ready(&self) -> (b: bool)
        ensures
            b == self@.is_send_ready(),
    {
        !self.inner.bc.is_empty()
    }

    pub fn is_recv_ready(&self) -> (b: bool)
        requires
            self.inv(),
        ensures
            b == self@.is_recv_ready(),
    {
        match &self.state {
            Some(s) => self.inner.is_recv_ready_in(s),
            None => false,
        }
    }

    /// Closes every pipe.
    pub fn close(&mut self, ctx: &mut Context)
        requires
            old(self).inv(),
        ensures
            final(self).inv(),
            final(self)@ == (SurveyorView { pipes: Seq::empty(), ..old(self)@ }),
            final(ctx)@ == old(ctx)@ + closed_all(old(self)@.pipes),
            final(ctx).next_timer() == old(ctx).next_timer(),
    {
        self.inner.pipes.close_all(ctx)
    }
}

/// A receive timeout ends the receive, not the survey: the user is told
/// that the receive timed out, and the survey that was open stays open, the
/// same survey, so the answers that come before its deadline can still be
/// received; nothing else is told to the user.
pub proof fn lemma_recv_timeout_keeps_survey(v: SurveyorView)
    ensures
        ({
            let open = match v.state {
                State::Receiving(_, p, _) => p,
                State::RecvOnHold(p, _) => p,
                _ => None,
            };
            let (w, acts) = v.on_recv_timeout();
            &&& open is Some ==> w.state == State::Active(open->0)
            &&& acts[0] == ActionView::Reply(ReplyView::Error(Failure::RecvTimedOut))
            &&& forall|i: int| 1 <= i < acts.len() ==> !(#[trigger] acts[i] is Reply)
        }),
{
    let (w, acts) = v.on_recv_timeout();
    lemma_changes_only_raise(v.is_send_ready(), w.is_send_ready(), v.is_recv_ready(), w.is_recv_ready());
    assert forall|i: int| 1 <= i < acts.len() implies !(#[trigger] acts[i] is Reply) by {
        assert(acts[i] == v.changes(w)[i - 1]);
    }
}

} // verus!
