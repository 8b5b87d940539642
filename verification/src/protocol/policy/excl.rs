//! The single pipe of an exclusive socket (PAIR): the first pipe added is
//! kept until it is removed, and it can send or receive while it is active.
use vstd::prelude::*;

verus! {

pub struct Excl<P> {
    token: Option<usize>,
    pipe: Option<P>,
    active: bool,
}

/// The token of the pipe kept, the pipe, and whether it is active.
pub struct ExclView<P> {
    pub token: Option<usize>,
    pub pipe: Option<P>,
    pub active: bool,
}

impl<P> View for Excl<P> {
    type V = ExclView<P>;

    closed spec fn view(&self) -> ExclView<P> {
        ExclView { token: self.token, pipe: self.pipe, active: self.active }
    }
}

impl<P> Excl<P> {
    /// A pipe is kept with its token, and only a kept pipe is active.
    pub open spec fn inv(&self) -> bool {
        &&& (self@.token is Some) == (self@.pipe is Some)
        &&& self@.active ==> self@.token is Some
    }

    pub fn new() -> (e: Excl<P>)
        ensures
            e.inv(),
            e@ == (ExclView::<P> { token: None, pipe: None, active: false }),
    {
        Excl { token: None, pipe: None, active: false }
    }

    /// Keeps `pipe` when no pipe is kept yet, and says so; otherwise the
    /// pipe is dropped.
    pub fn add(&mut self, tok: usize, pipe: P) -> (added: bool)
        requires
            old(self).inv(),
        ensures
            final(self).inv(),
            added == (old(self)@.token is None),
            added ==> final(self)@ == (ExclView { token: Some(tok), pipe: Some(pipe), active: old(self)@.active }),
            !added ==> final(self)@ == old(self)@,
    {
        if self.token.is_some() {
            false
        } else {
            self.token = Some(tok);
            self.pipe = Some(pipe);
            true
        }
    }

    /// Gives the pipe back when it is the one of `tok`; it is then no longer
    /// kept nor active.
    pub fn remove(&mut self, tok: usize) -> (r: Option<P>)
        requires
            old(self).inv(),
        ensures
            final(self).inv(),
            old(self)@.token == Some(tok) ==> r == old(self)@.pipe && final(self)@ == (ExclView::<P> {
                token: None,
                pipe: None,
                active: false,
            }),
            old(self)@.token != Some(tok) ==> r is None && final(self)@ == old(self)@,
    {
        if self.token.is_none() {
            return None;
        }
        if self.token != Some(tok) {
            return None;
        }
        self.token = None;
        self.active = false;
        self.pipe.take()
    }

    /// The pipe becomes active when it is the one of `tok`.
    pub fn activate(&mut self, tok: usize)
        requires
            old(self).inv(),
        ensures
            final(self).inv(),
            final(self)@ == (ExclView { active: old(self)@.active || old(self)@.token == Some(tok), ..old(self)@ }),
    {
        self.active = if self.token == Some(tok) {
            true
        } else {
            self.active
        };
    }

    pub fn deactivate(&mut self)
        requires
            old(self).inv(),
        ensures
            final(self).inv(),
            final(self)@ == (ExclView { active: false, ..old(self)@ }),
    {
        self.active = false;
    }

    /// The pipe, to be changed in place, when it is the one of `tok`.
    pub fn get(&mut self, tok: usize) -> (r: Option<&mut P>)
        ensures
            old(self)@.token == Some(tok) && old(self)@.pipe is Some ==> r is Some && *r->0 == old(self)@.pipe->0
                && final(self)@ == (ExclView { pipe: Some(*final(r->0)), ..old(self)@ }),
            !(old(self)@.token == Some(tok) && old(self)@.pipe is Some) ==> r is None && final(self)@ == old(self)@,
    {
        if self.token == Some(tok) {
            self.pipe.as_mut()
        } else {
            None
        }
    }

    /// The pipe, to be changed in place, when it is active.
    pub fn get_active_mut(&mut self) -> (r: Option<&mut P>)
        ensures
            old(self)@.active && old(self)@.pipe is Some ==> r is Some && *r->0 == old(self)@.pipe->0 && final(self)@
                == (ExclView { pipe: Some(*final(r->0)), ..old(self)@ }),
            !(old(self)@.active && old(self)@.pipe is Some) ==> r is None && final(self)@ == old(self)@,
    {
        if self.active {
            self.pipe.as_mut()
        } else {
            None
        }
    }

    /// The pipe when it is active.
    pub fn get_active(&self) -> (r: Option<&P>)
        ensures
            self@.active && self@.pipe is Some ==> r is Some && *r->0 == self@.pipe->0,
            !(self@.active && self@.pipe is Some) ==> r is None,
    {
        if self.active {
            self.pipe.as_ref()
        } else {
            None
        }
    }

    /// The pipe kept, to be changed in place.
    pub fn get_pipe(&mut self) -> (r: Option<&mut P>)
        ensures
            old(self)@.pipe is Some ==> r is Some && *r->0 == old(self)@.pipe->0 && final(self)@ == (ExclView {
                pipe: Some(*final(r->0)),
                ..old(self)@
            }),
            old(self)@.pipe is None ==> r is None && final(self)@ == old(self)@,
    {
        self.pipe.as_mut()
    }
}

impl<P> Default for Excl<P> {
    fn default() -> (e: Self)
        ensures
            e.inv(),
            e@ == (ExclView::<P> { token: None, pipe: None, active: false }),
    {
        Excl::new()
    }
}

} // verus!
