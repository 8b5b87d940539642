//! Sending through the current pipe of a priority list.
use vstd::prelude::*;

use crate::common::{ActionView, EndpointId, Message, MessageView};
use crate::context::Context;
use crate::proto::pipes::{has_entry, Pipe, PipeCollection};
use crate::proto::priolist::{Priolist, PriolistModel};

verus! {

/// Where the message goes, the list afterwards and what is recorded: the
/// current endpoint of the list is given up and, if it has a pipe, sent the
/// message.
pub open spec fn lb_sent(lb: PriolistModel, pipes: Seq<(EndpointId, Pipe)>, msg: MessageView) -> (
    Option<EndpointId>,
    PriolistModel,
    Seq<ActionView>,
) {
    let (e, lb2) = lb.popped();
    match e {
        Some(eid) => if has_entry(pipes, eid) {
            (Some(eid), lb2, seq![ActionView::Send(eid, msg)])
        } else {
            (None, lb2, Seq::empty())
        },
        None => (None, lb2, Seq::empty()),
    }
}

pub fn send(lb: &mut Priolist, pipes: &mut PipeCollection, ctx: &mut Context, msg: Message) -> (r: Option<EndpointId>)
    requires
        old(lb).inv(),
    ensures
        final(lb).inv(),
        final(pipes)@ == old(pipes)@,
        final(ctx).next_timer() == old(ctx).next_timer(),
        r == lb_sent(old(lb)@, old(pipes)@, msg@).0,
        final(lb)@ == lb_sent(old(lb)@, old(pipes)@, msg@).1,
        final(ctx)@ == old(ctx)@ + lb_sent(old(lb)@, old(pipes)@, msg@).2,
{
    match lb.pop() {
        Some(eid) => {
            let r = pipes.send_to(ctx, msg, eid);
            proof {
                assert(old(ctx)@ + Seq::<ActionView>::empty() =~= old(ctx)@);
            }
            r
        },
        None => {
            proof {
                assert(old(ctx)@ + Seq::<ActionView>::empty() =~= old(ctx)@);
            }
            None
        },
    }
}

} // verus!
