//! PUB: every message sent goes to every subscriber that can take it;
//! receiving is not supported.
use vstd::prelude::*;

use crate::common::{ActionView, EndpointId, Failure, Message, Reply, ReplyView, Timeout};
use crate::context::{cancelled, Context};
use crate::proto::pipes::{eid_inserted, eid_removed, entry_inserted, entry_pipe, entry_removed, EidSet, Pipe, PipeCollection};
use crate::proto::policy::broadcast::{self, broadcast_sends};
use crate::proto::{PUB, SUB};

verus! {

pub struct Pub {
    pipes: PipeCollection,
    bc: EidSet,
}

impl Pub {
    /// The pipes by endpoint.
    pub closed spec fn pipes(&self) -> Seq<(EndpointId, Pipe)> {
        self.pipes@
    }

    /// The endpoints that can take a message.
    pub closed spec fn bc(&self) -> Seq<EndpointId> {
        self.bc@
    }

    pub closed spec fn inv(&self) -> bool {
        self.pipes.inv() && self.bc.inv()
    }

    pub fn new() -> (p: Pub)
        ensures
            p.inv(),
            p.pipes() == Seq::<(EndpointId, Pipe)>::empty(),
            p.bc() == Seq::<EndpointId>::empty(),
    {
        Pub { pipes: PipeCollection::new(), bc: EidSet::new() }
    }

    pub fn id(&self) -> (id: u16)
        ensures
            id == PUB,
    {
        PUB
    }

    pub fn peer_id(&self) -> (id: u16)
        ensures
            id == SUB,
    {
        SUB
    }

    pub fn add_pipe(&mut self, ctx: &mut Context, eid: EndpointId, pipe: Pipe)
        requires
            old(self).inv(),
        ensures
            final(self).inv(),
            final(self).pipes() == entry_inserted(old(self).pipes(), eid, pipe),
            final(self).bc() == old(self).bc(),
            *final(ctx) == *old(ctx),
    {
        self.pipes.insert(eid, pipe);
    }

    pub fn remove_pipe(&mut self, ctx: &mut Context, eid: EndpointId) -> (r: Option<Pipe>)
        requires
            old(self).inv(),
        ensures
            final(self).inv(),
            r == entry_pipe(old(self).pipes(), eid),
            final(self).pipes() == entry_removed(old(self).pipes(), eid),
            final(self).bc() == eid_removed(old(self).bc(), eid),
            *final(ctx) == *old(ctx),
    {
        self.bc.remove(&eid);
        self.pipes.remove(&eid)
    }

    /// Sends `msg` to every ready subscriber; the send is done at once.
    pub fn send(&mut self, ctx: &mut Context, msg: Message, timeout: Timeout)
        requires
            old(self).inv(),
        ensures
            final(self).inv(),
            final(self).pipes() == old(self).pipes(),
            final(self).bc() == Seq::<EndpointId>::empty(),
            final(ctx)@ == old(ctx)@ + broadcast_sends(old(self).bc(), old(self).pipes(), msg@, None)
                + seq![ActionView::Reply(ReplyView::Send)] + cancelled(timeout),
            final(ctx).next_timer() == old(ctx).next_timer(),
    {
        broadcast::send_to_all(&mut self.bc, &mut self.pipes, ctx, msg);
        ctx.reply(Reply::Send);
        ctx.cancel_timeout(timeout);
        proof {
            assert(ctx@ =~= old(ctx)@ + broadcast_sends(old(self).bc(), old(self).pipes(), msg@, None)
                + seq![ActionView::Reply(ReplyView::Send)] + cancelled(timeout));
        }
    }

    /// A send completes at once: nothing changes.
    pub fn on_send_ack(&mut self, ctx: &mut Context, _eid: EndpointId)
        ensures
            final(self).pipes() == old(self).pipes(),
            final(self).bc() == old(self).bc(),
            final(self).inv() == old(self).inv(),
            *final(ctx) == *old(ctx),
    {
    }

    /// A send completes at once: nothing changes.
    pub fn on_send_timeout(&mut self, ctx: &mut Context)
        ensures
            final(self).pipes() == old(self).pipes(),
            final(self).bc() == old(self).bc(),
            final(self).inv() == old(self).inv(),
            *final(ctx) == *old(ctx),
    {
    }

    pub fn on_send_ready(&mut self, ctx: &mut Context, eid: EndpointId)
        requires
            old(self).inv(),
        ensures
            final(self).inv(),
            final(self).pipes() == old(self).pipes(),
            final(self).bc() == eid_inserted(old(self).bc(), eid),
            *final(ctx) == *old(ctx),
    {
        self.bc.insert(eid);
    }

    pub fn recv(&mut self, ctx: &mut Context, timeout: Timeout)
        ensures
            final(self).pipes() == old(self).pipes(),
            final(self).bc() == old(self).bc(),
            final(self).inv() == old(self).inv(),
            final(ctx)@ == old(ctx)@ + seq![ActionView::Reply(ReplyView::Error(Failure::RecvNotSupported))] + cancelled(
                timeout,
            ),
            final(ctx).next_timer() == old(ctx).next_timer(),
    {
        ctx.reply(Reply::Error(Failure::RecvNotSupported));
        ctx.cancel_timeout(timeout);
        proof {
            assert(ctx@ =~= old(ctx)@ + seq![ActionView::Reply(ReplyView::Error(Failure::RecvNotSupported))]
                + cancelled(timeout));
        }
    }

    /// Receiving is not supported: nothing changes.
    pub fn on_recv_ack(&mut self, ctx: &mut Context, _eid: EndpointId, _msg: Message)
        ensures
            final(self).pipes() == old(self).pipes(),
            final(self).bc() == old(self).bc(),
            final(self).inv() == old(self).inv(),
            *final(ctx) == *old(ctx),
    {
    }

    /// Receiving is not supported: nothing changes.
    pub fn on_recv_timeout(&mut self, ctx: &mut Context)
        ensures
            final(self).pipes() == old(self).pipes(),
            final(self).bc() == old(self).bc(),
            final(self).inv() == old(self).inv(),
            *final(ctx) == *old(ctx),
    {
    }

    /// Receiving is not supported: nothing changes.
    pub fn on_recv_ready(&mut self, ctx: &mut Context, _eid: EndpointId)
        ensures
            final(self).pipes() == old(self).pipes(),
            final(self).bc() == old(self).bc(),
            final(self).inv() == old(self).inv(),
            *final(ctx) == *old(ctx),
    {
    }
}

} // verus!
