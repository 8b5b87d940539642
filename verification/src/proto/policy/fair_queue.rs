//! Receiving through the current pipe of a priority list.
use vstd::prelude::*;

use crate::common::{ActionView, EndpointId};
use crate::context::Context;
use crate::proto::pipes::{has_entry, Pipe, PipeCollection};
use crate::proto::priolist::{Priolist, PriolistModel};

verus! {

/// Where the receive goes, the list afterwards and what is recorded: the
/// current endpoint of the list is given up and, if it has a pipe, asked to
/// receive.
pub open spec fn fq_received(fq: PriolistModel, pipes: Seq<(EndpointId, Pipe)>) -> (
    Option<EndpointId>,
    PriolistModel,
    Seq<ActionView>,
) {
    let (e, fq2) = fq.popped();
    match e {
        Some(eid) => if has_entry(pipes, eid) {
            (Some(eid), fq2, seq![ActionView::Recv(eid)])
        } else {
            (None, fq2, Seq::empty())
        },
        None => (None, fq2, Seq::empty()),
    }
}

pub fn recv(fq: &mut Priolist, pipes: &mut PipeCollection, ctx: &mut Context) -> (r: Option<EndpointId>)
    requires
        old(fq).inv(),
    ensures
        final(fq).inv(),
        final(pipes)@ == old(pipes)@,
        final(ctx).next_timer() == old(ctx).next_timer(),
        r == fq_received(old(fq)@, old(pipes)@).0,
        final(fq)@ == fq_received(old(fq)@, old(pipes)@).1,
        final(ctx)@ == old(ctx)@ + fq_received(old(fq)@, old(pipes)@).2,
{
    proof {
        assert(old(ctx)@ + Seq::<ActionView>::empty() =~= old(ctx)@);
    }
    match fq.pop() {
        Some(eid) => pipes.recv_from(ctx, eid),
        None => None,
    }
}

} // verus!
