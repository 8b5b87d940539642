//! Sending to every pipe that is ready.
use vstd::prelude::*;

use crate::common::{ActionView, EndpointId, Message, MessageView};
use crate::context::Context;
use crate::proto::pipes::{has_entry, EidSet, Pipe, PipeCollection};

verus! {

/// What sending `msg` to the endpoints `ids`, in order, records: one send
/// to each of them that has a pipe and is not `except`.
pub open spec fn broadcast_sends(
    ids: Seq<EndpointId>,
    pipes: Seq<(EndpointId, Pipe)>,
    msg: MessageView,
    except: Option<EndpointId>,
) -> Seq<ActionView>
    decreases ids.len(),
{
    if ids.len() == 0 {
        Seq::empty()
    } else {
        let id = ids.last();
        broadcast_sends(ids.drop_last(), pipes, msg, except) + if except != Some(id) && has_entry(pipes, id) {
            seq![ActionView::Send(id, msg)]
        } else {
            Seq::<ActionView>::empty()
        }
    }
}

fn send_each(
    ids: &Vec<EndpointId>,
    pipes: &mut PipeCollection,
    ctx: &mut Context,
    msg: &Message,
    except: Option<EndpointId>,
)
    ensures
        final(pipes)@ == old(pipes)@,
        final(ctx).next_timer() == old(ctx).next_timer(),
        final(ctx)@ == old(ctx)@ + broadcast_sends(ids@, old(pipes)@, msg@, except),
{
    let mut i: usize = 0;
    proof {
        assert(ids@.take(0) =~= Seq::<EndpointId>::empty());
        assert(old(ctx)@ + Seq::<ActionView>::empty() =~= old(ctx)@);
    }
    while i < ids.len()
        invariant
            i <= ids@.len(),
            pipes@ == old(pipes)@,
            ctx.next_timer() == old(ctx).next_timer(),
            ctx@ == old(ctx)@ + broadcast_sends(ids@.take(i as int), old(pipes)@, msg@, except),
        decreases ids@.len() - i,
    {
        let id = ids[i];
        let ghost before = ctx@;
        proof {
            assert(ids@.take(i as int + 1).drop_last() =~= ids@.take(i as int));
            assert(ids@.take(i as int + 1).last() == id);
        }
        if except != Some(id) {
            let copy = msg.clone();
            let _ = pipes.send_to(ctx, copy, id);
            proof {
                if has_entry(old(pipes)@, id) {
                    assert(ctx@ =~= old(ctx)@ + broadcast_sends(ids@.take(i as int + 1), old(pipes)@, msg@, except));
                } else {
                    assert(ctx@ =~= old(ctx)@ + broadcast_sends(ids@.take(i as int + 1), old(pipes)@, msg@, except));
                }
            }
        } else {
            proof {
                assert(ctx@ =~= old(ctx)@ + broadcast_sends(ids@.take(i as int + 1), old(pipes)@, msg@, except));
            }
        }
        i = i + 1;
    }
    proof {
        assert(ids@.take(ids@.len() as int) =~= ids@);
    }
}

/// Sends `msg` to every endpoint of `bc` that has a pipe, in the order of
/// the set, which ends empty.
pub fn send_to_all(bc: &mut EidSet, pipes: &mut PipeCollection, ctx: &mut Context, msg: Message)
    ensures
        final(bc)@ == Seq::<EndpointId>::empty(),
        final(bc).inv(),
        final(pipes)@ == old(pipes)@,
        final(ctx).next_timer() == old(ctx).next_timer(),
        final(ctx)@ == old(ctx)@ + broadcast_sends(old(bc)@, old(pipes)@, msg@, None),
{
    let ids = bc.drain();
    send_each(&ids, pipes, ctx, &msg, None);
}

/// Sends `msg` to every endpoint of `bc` but `except` that has a pipe, in
/// the order of the set, which ends holding `except` alone.
pub fn send_to_all_except(bc: &mut EidSet, pipes: &mut PipeCollection, ctx: &mut Context, msg: Message, except: EndpointId)
    ensures
        final(bc)@ == seq![except],
        final(bc).inv(),
        final(pipes)@ == old(pipes)@,
        final(ctx).next_timer() == old(ctx).next_timer(),
        final(ctx)@ == old(ctx)@ + broadcast_sends(old(bc)@, old(pipes)@, msg@, Some(except)),
{
    let ids = bc.drain();
    send_each(&ids, pipes, ctx, &msg, Some(except));
    bc.insert(except);
    proof {
        assert(Seq::<EndpointId>::empty().push(except) =~= seq![except]);
    }
}

} // verus!
