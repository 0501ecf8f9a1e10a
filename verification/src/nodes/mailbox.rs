//! The per-actor pair of FIFO queues: envelopes delivered to the actor wait
//! in the inbox; envelopes the actor emits wait in the outbox until the
//! harness drains them onto a transport.

use crate::messages::SendableMessage;
use vstd::prelude::*;

verus! {

/// A sans-IO mailbox.  Each actor exclusively owns its mailbox; the harness
/// pushes inbound envelopes and picks outbound ones up.
#[derive(Clone, Debug)]
pub struct Mailbox {
    pub inbox: std::collections::VecDeque<SendableMessage>,
    pub outbox: std::collections::VecDeque<SendableMessage>,
}

impl Mailbox {
    pub fn new() -> (r: Self)
        ensures
            r.inbox@ == Seq::<SendableMessage>::empty(),
            r.outbox@ == Seq::<SendableMessage>::empty(),
    {
        Mailbox {
            inbox: std::collections::VecDeque::new(),
            outbox: std::collections::VecDeque::new(),
        }
    }

    /// Queues an inbound envelope at the back of the inbox.
    pub fn receive(&mut self, msg: SendableMessage)
        ensures
            final(self).inbox@ == old(self).inbox@.push(msg),
            final(self).outbox == old(self).outbox,
    {
        self.inbox.push_back(msg);
    }

    /// Takes the oldest inbound envelope, if any.
    pub fn process_latest_in(&mut self) -> (r: Option<SendableMessage>)
        ensures
            final(self).outbox == old(self).outbox,
            match r {
                Some(m) => old(self).inbox@.len() > 0 && m == old(self).inbox@[0]
                    && final(self).inbox@ == old(self).inbox@.drop_first(),
                None => old(self).inbox@.len() == 0 && final(self).inbox@ == old(self).inbox@,
            },
    {
        self.inbox.pop_front()
    }

    /// Queues an outbound envelope at the back of the outbox.
    pub fn send(&mut self, msg: SendableMessage)
        ensures
            final(self).outbox@ == old(self).outbox@.push(msg),
            final(self).inbox == old(self).inbox,
    {
        self.outbox.push_back(msg);
    }

    /// Takes the oldest outbound envelope, if any; what a transport calls to
    /// drain the outbox in order.
    pub fn deliver_sent(&mut self) -> (r: Option<SendableMessage>)
        ensures
            final(self).inbox == old(self).inbox,
            match r {
                Some(m) => old(self).outbox@.len() > 0 && m == old(self).outbox@[0]
                    && final(self).outbox@ == old(self).outbox@.drop_first(),
                None => old(self).outbox@.len() == 0 && final(self).outbox@ == old(self).outbox@,
            },
    {
        self.outbox.pop_front()
    }

    pub fn clear_inbox(&mut self)
        ensures
            final(self).inbox@ == Seq::<SendableMessage>::empty(),
            final(self).outbox == old(self).outbox,
    {
        self.inbox.clear();
    }

    pub fn clear_outbox(&mut self)
        ensures
            final(self).outbox@ == Seq::<SendableMessage>::empty(),
            final(self).inbox == old(self).inbox,
    {
        self.outbox.clear();
    }
}

impl Default for Mailbox {
    fn default() -> (r: Self)
        ensures
            r.inbox@ == Seq::<SendableMessage>::empty(),
            r.outbox@ == Seq::<SendableMessage>::empty(),
    {
        Mailbox::new()
    }
}

} // verus!
