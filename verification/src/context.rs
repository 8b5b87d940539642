//! The context through which a protocol acts: it records, in order, what the
//! protocol asks of its pipes, of its user and of the timers, and hands out
//! the identifiers of the timers it schedules.
use vstd::prelude::*;

use crate::common::{Action, ActionView, Event, Reply, Schedulable, Scheduled, Timeout};

verus! {

pub struct Context {
    actions: Vec<Action>,
    next_timer: usize,
}

/// What cancelling an optional timer records.
pub open spec fn cancelled(t: Timeout) -> Seq<ActionView> {
    match t {
        Some(s) => seq![ActionView::Cancel(s)],
        None => Seq::empty(),
    }
}

/// What a change of the ability to send records.
pub open spec fn send_change(was: bool, is: bool) -> Seq<ActionView> {
    if was != is {
        seq![ActionView::Raise(Event::CanSend(is))]
    } else {
        Seq::empty()
    }
}

/// What a change of the ability to receive records.
pub open spec fn recv_change(was: bool, is: bool) -> Seq<ActionView> {
    if was != is {
        seq![ActionView::Raise(Event::CanRecv(is))]
    } else {
        Seq::empty()
    }
}

/// Whether every action of `s` tells the socket of a change of readiness.
pub open spec fn only_raises(s: Seq<ActionView>) -> bool {
    forall|i: int| 0 <= i < s.len() ==> #[trigger] s[i] is Raise
}

/// What a change of readiness records only tells the socket of it.
pub proof fn lemma_changes_only_raise(was_send: bool, is_send: bool, was_recv: bool, is_recv: bool)
    ensures
        only_raises(send_change(was_send, is_send)),
        only_raises(recv_change(was_recv, is_recv)),
        only_raises(send_change(was_send, is_send) + recv_change(was_recv, is_recv)),
{
    let a = send_change(was_send, is_send);
    let b = recv_change(was_recv, is_recv);
    assert forall|i: int| 0 <= i < (a + b).len() implies #[trigger] (a + b)[i] is Raise by {
        if i < a.len() {
            assert((a + b)[i] == a[i]);
        } else {
            assert((a + b)[i] == b[i - a.len()]);
        }
    }
}

impl View for Context {
    type V = Seq<ActionView>;

    /// The actions recorded so far, oldest first.
    closed spec fn view(&self) -> Seq<ActionView> {
        self.actions@.map_values(|a: Action| a@)
    }
}

impl Context {
    /// The identifier that the next scheduled timer gets.
    pub closed spec fn next_timer(&self) -> nat {
        self.next_timer as nat
    }

    pub fn new() -> (ctx: Context)
        ensures
            ctx@ == Seq::<ActionView>::empty(),
            ctx.next_timer() == 0,
    {
        let ctx = Context { actions: Vec::new(), next_timer: 0 };
        proof {
            assert(ctx@ =~= Seq::<ActionView>::empty());
        }
        ctx
    }

    /// Records an action.
    pub fn record(&mut self, a: Action)
        ensures
            final(self)@ == old(self)@.push(a@),
            final(self).next_timer() == old(self).next_timer(),
    {
        let ghost v = a@;
        self.actions.push(a);
        proof {
            assert(self.actions@.map_values(|a: Action| a@) =~= old(self).actions@.map_values(|a: Action| a@).push(v));
        }
    }

    pub fn raise(&mut self, evt: Event)
        ensures
            final(self)@ == old(self)@.push(ActionView::Raise(evt)),
            final(self).next_timer() == old(self).next_timer(),
    {
        self.record(Action::Raise(evt));
    }

    pub fn cancel(&mut self, sched: Scheduled)
        ensures
            final(self)@ == old(self)@.push(ActionView::Cancel(sched)),
            final(self).next_timer() == old(self).next_timer(),
    {
        self.record(Action::Cancel(sched));
    }

    /// Cancels the timer, if there is one.
    pub fn cancel_timeout(&mut self, timeout: Timeout)
        ensures
            final(self)@ == old(self)@ + cancelled(timeout),
            final(self).next_timer() == old(self).next_timer(),
    {
        if let Some(sched) = timeout {
            self.cancel(sched);
        } else {
            proof {
                assert(old(self)@ + cancelled(timeout) =~= old(self)@);
            }
        }
    }

    /// Starts a timer for `task`, due after `delay_ms` milliseconds, and
    /// gives its identifier; fails once every identifier has been handed out.
    pub fn schedule(&mut self, task: Schedulable, delay_ms: u64) -> (r: Result<Scheduled, ()>)
        ensures
            old(self).next_timer() < usize::MAX ==> {
                &&& r == Ok::<Scheduled, ()>(old(self).next_timer() as usize)
                &&& final(self)@ == old(self)@.push(ActionView::Schedule(old(self).next_timer() as usize, task, delay_ms))
                &&& final(self).next_timer() == old(self).next_timer() + 1
            },
            old(self).next_timer() >= usize::MAX ==> {
                &&& r is Err
                &&& final(self)@ == old(self)@
                &&& final(self).next_timer() == old(self).next_timer()
            },
    {
        if self.next_timer < usize::MAX {
            let id = self.next_timer;
            self.record(Action::Schedule(id, task, delay_ms));
            self.next_timer = id + 1;
            Ok(id)
        } else {
            Err(())
        }
    }

    pub fn check_send_ready_change(&mut self, was_ready: bool, is_ready: bool)
        ensures
            final(self)@ == old(self)@ + send_change(was_ready, is_ready),
            final(self).next_timer() == old(self).next_timer(),
    {
        if was_ready != is_ready {
            self.raise(Event::CanSend(is_ready));
        } else {
            proof {
                assert(old(self)@ + send_change(was_ready, is_ready) =~= old(self)@);
            }
        }
    }

    pub fn check_recv_ready_change(&mut self, was_ready: bool, is_ready: bool)
        ensures
            final(self)@ == old(self)@ + recv_change(was_ready, is_ready),
            final(self).next_timer() == old(self).next_timer(),
    {
        if was_ready != is_ready {
            self.raise(Event::CanRecv(is_ready));
        } else {
            proof {
                assert(old(self)@ + recv_change(was_ready, is_ready) =~= old(self)@);
            }
        }
    }

    /// Answers the socket's user.
    pub fn reply(&mut self, r: Reply)
        ensures
            final(self)@ == old(self)@.push(ActionView::Reply(r@)),
            final(self).next_timer() == old(self).next_timer(),
    {
        self.record(Action::Reply(r));
    }

    /// Hands over the recorded actions, oldest first, and forgets them.
    pub fn take_actions(&mut self) -> (actions: Vec<Action>)
        ensures
            actions@.map_values(|a: Action| a@) == old(self)@,
            final(self)@ == Seq::<ActionView>::empty(),
            final(self).next_timer() == old(self).next_timer(),
    {
        let mut actions = Vec::new();
        std::mem::swap(&mut actions, &mut self.actions);
        proof {
            assert(self.actions@.map_values(|a: Action| a@) =~= Seq::<ActionView>::empty());
        }
        actions
    }

    /// The number of recorded actions.
    pub fn len(&self) -> (n: usize)
        ensures
            n == self@.len(),
    {
        self.actions.len()
    }
}

} // verus!
