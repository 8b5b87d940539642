//! The event-loop protocol layer: the priority lists that pick a pipe, the
//! hold of a request's route, and the REQ and REP sockets built on them.

pub mod excl;
pub mod policy;
pub mod priolist;
pub mod priolist2;
pub mod rep;
pub mod req;
