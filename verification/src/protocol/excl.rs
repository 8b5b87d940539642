//! The same exclusive pipe holder as the policy layer uses.
pub use crate::protocol::policy::excl::Excl;
