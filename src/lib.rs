//! A single participant of a Raft consensus cluster: the verified consensus
//! state machine (roles, RequestVote, AppendEntries, commit advancement) and
//! the laws it obeys. Transport, timers and the control loop drive it from
//! outside.

pub mod cluster;
pub mod role;
pub mod message;
pub mod state;
pub mod laws;
pub mod timer;
