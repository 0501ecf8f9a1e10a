//! A MultiPaxos state-machine replication core.
//!
//! Three role actors (replica, leader, acceptor) exchange envelopes through
//! per-actor mailboxes and decide, for each slot of an unbounded sequence, a
//! single command chosen by a majority quorum of acceptors.  The wire, the
//! scheduler and the wall clock stay outside: actors only consume envelopes
//! and timer actions handed to them and queue outgoing envelopes.

pub mod constants;
pub mod messages;
pub mod nodes;
pub mod store;
pub mod transport;
pub mod types;
