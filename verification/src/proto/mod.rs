//! The protocols of the socket layer and the structures they share.

pub mod backtrace;
pub mod bus;
pub mod codec;
pub mod pair;
pub mod pipes;
pub mod policy;
pub mod priolist;
pub mod publ;
pub mod pull;
pub mod rep;
pub mod req;
pub mod resp;
pub mod surv;
pub mod push;

use vstd::prelude::*;

verus! {

/// The protocol numbers, as nanomsg numbers them (protocol family times 16,
/// plus the role).
pub const PAIR: u16 = 16;
pub const PUB: u16 = 32;
pub const SUB: u16 = 33;
pub const REQ: u16 = 48;
pub const REP: u16 = 49;
pub const PUSH: u16 = 80;
pub const PULL: u16 = 81;
pub const SURVEYOR: u16 = 98;
pub const RESPONDENT: u16 = 99;
pub const BUS: u16 = 112;

} // verus!
