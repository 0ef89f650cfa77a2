//! Audio command dispatch for an emulated machine: a fixed set of control
//! commands, their byte encoding, a fire-and-forget facade that queues them,
//! and a backend that drains the queue and decides the mixer calls.

pub mod backend;
pub mod laws;
pub mod protocol;
pub mod repeat;
pub mod sound;
pub mod volume;
