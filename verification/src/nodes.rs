//! The three role actors and what they are built from: the mailbox each actor
//! owns, the clock providers that drive their timers, and the acceptor,
//! leader and replica state machines.

pub mod acceptor;
pub mod clock;
pub mod leader;
pub mod mailbox;
pub mod replica;
