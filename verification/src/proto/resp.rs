//! RESPONDENT: answers surveys. It keeps the state machine of REP, and also
//! tells the user that it can receive whenever a pipe becomes readable while
//! no receive is waiting for one.
use vstd::prelude::*;

use crate::common::{ActionView, EndpointId, Event, Message, Timeout};
use crate::context::Context;
use crate::proto::pipes::{closed_all, entry_inserted, entry_pipe, Pipe};
use crate::proto::rep::{Rep, RepView};
use crate::proto::{RESPONDENT, SURVEYOR};

verus! {

pub struct Respondent {
    inner: Rep,
}

impl View for Respondent {
    type V = RepView;

    closed spec fn view(&self) -> RepView {
        self.inner@
    }
}

/// What a respondent records when a pipe becomes readable: the event that
/// it can receive, unless a receive was waiting, then what REP records.
pub open spec fn respondent_on_recv_ready(v: RepView, eid: EndpointId) -> (RepView, Seq<ActionView>) {
    let raised = if v.state is RecvOnHold {
        Seq::empty()
    } else {
        seq![ActionView::Raise(Event::CanRecv(true))]
    };
    (v.on_recv_ready(eid).0, raised + v.on_recv_ready(eid).1)
}

impl Respondent {
    pub closed spec fn inv(&self) -> bool {
        self.inner.inv()
    }

    pub fn new() -> (r: Respondent)
        ensures
            r.inv(),
            r@ == Rep::new_view(),
    {
        Respondent { inner: Rep::new() }
    }

    pub fn id(&self) -> (id: u16)
        ensures
            id == RESPONDENT,
    {
        RESPONDENT
    }

    pub fn peer_id(&self) -> (id: u16)
        ensures
            id == SURVEYOR,
    {
        SURVEYOR
    }

    pub fn add_pipe(&mut self, ctx: &mut Context, eid: EndpointId, pipe: Pipe)
        requires
            old(self).inv(),
            pipe.recv_priority < 255,
        ensures
            final(self).inv(),
            final(self)@ == (RepView {
                fq: old(self)@.fq.inserted(eid, pipe.recv_priority),
                pipes: entry_inserted(old(self)@.pipes, eid, pipe),
                ..old(self)@
            }),
            *final(ctx) == *old(ctx),
    {
        self.inner.add_pipe(ctx, eid, pipe)
    }

    pub fn remove_pipe(&mut self, ctx: &mut Context, eid: EndpointId) -> (r: Option<Pipe>)
        requires
            old(self).inv(),
        ensures
            final(self).inv(),
            r == entry_pipe(old(self)@.pipes, eid),
            final(self)@ == old(self)@.remove_pipe(eid).0,
            final(ctx)@ == old(ctx)@ + old(self)@.remove_pipe(eid).1,
            final(ctx).next_timer() == old(ctx).next_timer(),
    {
        self.inner.remove_pipe(ctx, eid)
    }

    pub fn send(&mut self, ctx: &mut Context, msg: Message, timeout: Timeout)
        requires
            old(self).inv(),
        ensures
            final(self).inv(),
            final(self)@ == old(self)@.send(msg@, timeout).0,
            final(ctx)@ == old(ctx)@ + old(self)@.send(msg@, timeout).1,
            final(ctx).next_timer() == old(ctx).next_timer(),
    {
        self.inner.send(ctx, msg, timeout)
    }

    pub fn on_send_ack(&mut self, ctx: &mut Context, eid: EndpointId)
        requires
            old(self).inv(),
        ensures
            final(self).inv(),
            final(self)@ == old(self)@.on_send_ack(eid).0,
            final(ctx)@ == old(ctx)@ + old(self)@.on_send_ack(eid).1,
            final(ctx).next_timer() == old(ctx).next_timer(),
    {
        self.inner.on_send_ack(ctx, eid)
    }

    pub fn on_send_timeout(&mut self, ctx: &mut Context)
        requires
            old(self).inv(),
        ensures
            final(self).inv(),
            final(self)@ == old(self)@.on_send_timeout().0,
            final(ctx)@ == old(ctx)@ + old(self)@.on_send_timeout().1,
            final(ctx).next_timer() == old(ctx).next_timer(),
    {
        self.inner.on_send_timeout(ctx)
    }

    pub fn on_send_ready(&mut self, ctx: &mut Context, eid: EndpointId)
        requires
            old(self).inv(),
        ensures
            final(self).inv(),
            final(self)@ == old(self)@.on_send_ready(eid).0,
            final(ctx)@ == old(ctx)@ + old(self)@.on_send_ready(eid).1,
            final(ctx).next_timer() == old(ctx).next_timer(),
    {
        self.inner.on_send_ready(ctx, eid)
    }

    pub fn recv(&mut self, ctx: &mut Context, timeout: Timeout)
        requires
            old(self).inv(),
        ensures
            final(self).inv(),
            final(self)@ == old(self)@.recv(timeout).0,
            final(ctx)@ == old(ctx)@ + old(self)@.recv(timeout).1,
            final(ctx).next_timer() == old(ctx).next_timer(),
    {
        self.inner.recv(ctx, timeout)
    }

    pub fn on_recv_ack(&mut self, ctx: &mut Context, eid: EndpointId, raw_msg: Message)
        requires
            old(self).inv(),
        ensures
            final(self).inv(),
            final(self)@ == old(self)@.on_recv_ack(eid, raw_msg@).0,
            final(ctx)@ == old(ctx)@ + old(self)@.on_recv_ack(eid, raw_msg@).1,
            final(ctx).next_timer() == old(ctx).next_timer(),
    {
        self.inner.on_recv_ack(ctx, eid, raw_msg)
    }

    pub fn on_recv_timeout(&mut self, ctx: &mut Context)
        requires
            old(self).inv(),
        ensures
            final(self).inv(),
            final(self)@ == old(self)@.on_recv_timeout().0,
            final(ctx)@ == old(ctx)@ + old(self)@.on_recv_timeout().1,
            final(ctx).next_timer() == old(ctx).next_timer(),
    {
        self.inner.on_recv_timeout(ctx)
    }

    pub fn on_recv_ready(&mut self, ctx: &mut Context, eid: EndpointId)
        requires
            old(self).inv(),
        ensures
            final(self).inv(),
            final(self)@ == respondent_on_recv_ready(old(self)@, eid).0,
            final(ctx)@ == old(ctx)@ + respondent_on_recv_ready(old(self)@, eid).1,
            final(ctx).next_timer() == old(ctx).next_timer(),
    {
        if !self.inner.is_recv_on_hold() {
            ctx.raise(Event::CanRecv(true));
        }
        self.inner.on_recv_ready(ctx, eid);
        proof {
            assert(ctx@ =~= old(ctx)@ + respondent_on_recv_ready(old(self)@, eid).1);
        }
    }

    /// From now on the socket serves a device: answers go out with the
    /// route the user gives and surveys come with theirs.
    pub fn on_device_plugged(&mut self, ctx: &mut Context)
        requires
            old(self).inv(),
        ensures
            final(self).inv(),
            final(self)@ == (RepView { is_device_item: true, ..old(self)@ }),
            *final(ctx) == *old(ctx),
    {
        self.inner.on_device_plugged(ctx)
    }

    /// The route of the survey being answered.
    pub fn get_backtrace(&self) -> (bt: &Vec<u8>)
        ensures
            bt@ == self@.backtrace,
    {
        self.inner.get_backtrace()
    }

    pub fn is_send_ready(&self) -> (b: bool)
        requires
            self.inv(),
        ensures
            b == self@.is_send_ready(),
    {
        self.inner.is_send_ready()
    }

    pub fn is_recv_ready(&self) -> (b: bool)
        ensures
            b == self@.is_recv_ready(),
    {
        self.inner.is_recv_ready()
    }

    /// Closes every pipe.
    pub fn close(&mut self, ctx: &mut Context)
        requires
            old(self).inv(),
        ensures
            final(self).inv(),
            final(self)@ == (RepView { pipes: Seq::empty(), ..old(self)@ }),
            final(ctx)@ == old(ctx)@ + closed_all(old(self)@.pipes),
            final(ctx).next_timer() == old(ctx).next_timer(),
    {
        self.inner.close(ctx)
    }
}

} // verus!
