//! The boundary to the wire.  The core only queues envelopes; a transport
//! takes them out and delivers them however it likes - it may lose, reorder
//! or duplicate them, and the protocol tolerates all three.

pub mod printer;

use crate::messages;
use vstd::prelude::*;

verus! {

/// A fire-and-forget message sink.  Implementations may drop, reorder or
/// duplicate envelopes; the core never assumes an acknowledgment.
pub trait Transport {
    fn send(&self, message: &messages::SendableMessage);
}

} // verus!
