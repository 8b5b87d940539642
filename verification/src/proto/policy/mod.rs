//! How the protocols pick the pipes an operation goes through.

pub mod broadcast;
pub mod fair_queue;
pub mod load_balancing;
