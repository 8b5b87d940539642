//! Scalability protocols: the decision logic of the protocols, the
//! structures that order pipes by priority, the single-slot mailbox and the
//! wire codecs, each with a contract checked by Verus.

pub mod common;
pub mod context;
pub mod proto;
pub mod protocol;
pub mod reactor;
pub mod recv;

pub mod send;
pub mod send_win;

pub mod sequence;
pub mod sync;
pub mod transport;
