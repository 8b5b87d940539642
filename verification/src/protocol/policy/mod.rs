//! What the protocols of the event-loop layer share.

pub mod excl;
pub mod priolist;

use vstd::prelude::*;

use crate::common::Timeout;
use crate::context::{cancelled, Context};

verus! {

/// Cancels the timer, if there is one.
pub fn clear_timeout(ctx: &mut Context, handle: Timeout)
    ensures
        final(ctx)@ == old(ctx)@ + cancelled(handle),
        final(ctx).next_timer() == old(ctx).next_timer(),
{
    ctx.cancel_timeout(handle);
}

/// A socket that keeps the route of the request it answers: the bytes of
/// the header that the request arrived with.
pub trait WithBacktrace {
    /// What the socket holds besides the route.
    type Rest;

    /// The route kept.
    spec fn route(&self) -> Seq<u8>;

    /// What the socket holds besides the route, which the methods of this
    /// trait leave as it is.
    spec fn rest(&self) -> Self::Rest;

    fn get_backtrace(&self) -> (r: &Vec<u8>)
        ensures
            r@ == self.route(),
    ;

    fn get_backtrace_mut(&mut self) -> (r: &mut Vec<u8>)
        ensures
            r@ == old(self).route(),
            final(self).route() == final(r)@,
            final(self).rest() == old(self).rest(),
    ;

    /// The route kept.
    fn backtrace(&self) -> (r: &[u8])
        ensures
            r@ == self.route(),
    {
        self.get_backtrace().as_slice()
    }

    /// Keeps `backtrace` as the route.
    fn set_backtrace(&mut self, backtrace: &[u8])
        ensures
            final(self).route() == backtrace@,
            final(self).rest() == old(self).rest(),
    {
        let kept = self.get_backtrace_mut();
        kept.clear();
        kept.extend_from_slice(backtrace);
    }

    /// Forgets the route.
    fn clear_backtrace(&mut self)
        ensures
            final(self).route() == Seq::<u8>::empty(),
            final(self).rest() == old(self).rest(),
    {
        self.get_backtrace_mut().clear();
    }
}

} // verus!
