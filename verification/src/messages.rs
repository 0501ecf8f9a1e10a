//! The envelope and payload types exchanged between the three roles, and the
//! spec predicates the actors' contracts use to pin down which envelopes a
//! step appends to an outbox.

use crate::types::{
    addr_eq_spec, cmd_eq_spec, pv_eq_spec, AcceptorId, Address, BallotNumber, Command, LeaderId,
    PValue, ReplicaId,
};
use vstd::prelude::*;

verus! {

/// An envelope: a payload together with the source and destination addresses
/// the transport routes by.
#[derive(Clone, Debug)]
pub struct SendableMessage {
    pub src: Address,
    pub dst: Address,
    pub message: Message,
}

/// All protocol messages exchanged between nodes.
#[derive(Clone, Debug)]
pub enum Message {
    /// Phase 1a: sent by leaders to acceptors to initiate a new ballot.
    P1a(P1aMessage),
    /// Phase 1b: an acceptor's promise, reporting accepted proposals.
    P1b(P1bMessage),
    /// Phase 2a: sent by leaders to acceptors to propose a value for a slot.
    P2a(P2aMessage),
    /// Phase 2b: an acceptor's confirmation that it accepted a proposal.
    P2b(P2bMessage),
    /// Tells a leader that a strictly greater ballot is in play.
    Preempted(PreemptedMessage),
    /// Tells replicas the chosen command for a slot.
    Decision(DecisionMessage),
    /// A client's request for the execution of a command.
    Request(RequestMessage),
    /// A replica's proposal of a command for a slot.
    Propose(ProposeMessage),
    /// Internal signal at a leader: a phase-1 quorum was collected for the
    /// carried ballot.
    Adopted(AdoptedMessage),
}

/// Sent by leaders to acceptors in phase 1 to initiate a new ballot.
#[derive(Clone, Debug)]
pub struct P1aMessage {
    pub src: LeaderId,
    pub ballot_number: BallotNumber,
}

/// Sent by acceptors in response to P1a: a promise not to accept lower
/// ballots, reporting previously accepted proposals.
#[derive(Clone, Debug)]
pub struct P1bMessage {
    pub src: AcceptorId,
    pub ballot_number: BallotNumber,
    pub accepted: Vec<PValue>,
}

/// Sent by leaders to acceptors in phase 2 to propose a value for a slot.
#[derive(Clone, Debug)]
pub struct P2aMessage {
    pub src: LeaderId,
    pub ballot_number: BallotNumber,
    pub slot_number: u64,
    pub command: Command,
}

/// Sent by acceptors in response to P2a: the proposal for the slot was
/// accepted by this acceptor.
#[derive(Clone, Debug)]
pub struct P2bMessage {
    pub src: AcceptorId,
    pub ballot_number: BallotNumber,
    pub slot_number: u64,
}

/// Preempts a leader with a higher ballot.
#[derive(Clone, Debug)]
pub struct PreemptedMessage {
    pub src: LeaderId,
    pub ballot_number: BallotNumber,
}

/// Informs replicas of the chosen command for a slot.
#[derive(Clone, Debug)]
pub struct DecisionMessage {
    pub src: LeaderId,
    pub slot_number: u64,
    pub command: Command,
}

/// A client's request for the execution of a command.
#[derive(Clone, Debug)]
pub struct RequestMessage {
    pub src: Address,
    pub command: Command,
}

/// A replica's proposal of a command for a slot.
#[derive(Clone, Debug)]
pub struct ProposeMessage {
    pub src: ReplicaId,
    pub slot_number: u64,
    pub command: Command,
}

/// The leader's internal adoption signal: a phase-1 quorum promised
/// `ballot_number`, reporting the union of their accepted proposals.
#[derive(Clone, Debug)]
pub struct AdoptedMessage {
    pub src: LeaderId,
    pub ballot_number: BallotNumber,
    pub accepted: Vec<PValue>,
}

/// Element-by-element content equality of two reported PValue sequences.
pub open spec fn pvs_eq(a: Seq<PValue>, b: Seq<PValue>) -> bool {
    a.len() == b.len() && forall|i: int| 0 <= i < a.len() ==> pv_eq_spec(#[trigger] a[i], b[i])
}

/// `e` is a P1a envelope from `src_addr` to `dst` carrying ballot `b`.
pub open spec fn env_is_p1a(
    e: SendableMessage,
    src_addr: Address,
    dst: Address,
    from: LeaderId,
    b: BallotNumber,
) -> bool {
    &&& addr_eq_spec(e.src, src_addr)
    &&& addr_eq_spec(e.dst, dst)
    &&& e.message matches Message::P1a(m) && m.src == from && m.ballot_number == b
}

/// `e` is a P1b envelope reporting `accepted` for ballot `b`.
pub open spec fn env_is_p1b(
    e: SendableMessage,
    src_addr: Address,
    dst: Address,
    from: AcceptorId,
    b: BallotNumber,
    accepted: Seq<PValue>,
) -> bool {
    &&& addr_eq_spec(e.src, src_addr)
    &&& addr_eq_spec(e.dst, dst)
    &&& e.message matches Message::P1b(m) && m.src == from && m.ballot_number == b && pvs_eq(
        m.accepted@,
        accepted,
    )
}

/// `e` is a P2a envelope proposing `c` for `slot` under ballot `b`.
pub open spec fn env_is_p2a(
    e: SendableMessage,
    src_addr: Address,
    dst: Address,
    from: LeaderId,
    b: BallotNumber,
    slot: u64,
    c: Command,
) -> bool {
    &&& addr_eq_spec(e.src, src_addr)
    &&& addr_eq_spec(e.dst, dst)
    &&& e.message matches Message::P2a(m) && m.src == from && m.ballot_number == b
        && m.slot_number == slot && cmd_eq_spec(m.command, c)
}

/// `e` is a P2b envelope confirming `slot` under ballot `b`.
pub open spec fn env_is_p2b(
    e: SendableMessage,
    src_addr: Address,
    dst: Address,
    from: AcceptorId,
    b: BallotNumber,
    slot: u64,
) -> bool {
    &&& addr_eq_spec(e.src, src_addr)
    &&& addr_eq_spec(e.dst, dst)
    &&& e.message matches Message::P2b(m) && m.src == from && m.ballot_number == b
        && m.slot_number == slot
}

/// `e` is a Decision envelope carrying `c` for `slot`.
pub open spec fn env_is_decision(
    e: SendableMessage,
    src_addr: Address,
    dst: Address,
    from: LeaderId,
    slot: u64,
    c: Command,
) -> bool {
    &&& addr_eq_spec(e.src, src_addr)
    &&& addr_eq_spec(e.dst, dst)
    &&& e.message matches Message::Decision(m) && m.src == from && m.slot_number == slot
        && cmd_eq_spec(m.command, c)
}

/// `e` is a Propose envelope carrying `c` for `slot`.
pub open spec fn env_is_propose(
    e: SendableMessage,
    src_addr: Address,
    dst: Address,
    from: ReplicaId,
    slot: u64,
    c: Command,
) -> bool {
    &&& addr_eq_spec(e.src, src_addr)
    &&& addr_eq_spec(e.dst, dst)
    &&& e.message matches Message::Propose(m) && m.src == from && m.slot_number == slot
        && cmd_eq_spec(m.command, c)
}

impl SendableMessage {
    /// The payload variant's short name.
    pub fn kind(&self) -> (r: &'static str)
        ensures
            self.message is P1a ==> r@ == "P1a"@,
            self.message is P1b ==> r@ == "P1b"@,
            self.message is P2a ==> r@ == "P2a"@,
            self.message is P2b ==> r@ == "P2b"@,
            self.message is Preempted ==> r@ == "Preempted"@,
            self.message is Decision ==> r@ == "Decision"@,
            self.message is Request ==> r@ == "Request"@,
            self.message is Propose ==> r@ == "Propose"@,
            self.message is Adopted ==> r@ == "Adopted"@,
    {
        match &self.message {
            Message::P1a(_) => "P1a",
            Message::P1b(_) => "P1b",
            Message::P2a(_) => "P2a",
            Message::P2b(_) => "P2b",
            Message::Preempted(_) => "Preempted",
            Message::Decision(_) => "Decision",
            Message::Request(_) => "Request",
            Message::Propose(_) => "Propose",
            Message::Adopted(_) => "Adopted",
        }
    }

    /// One-line summary of the envelope, for transport logs.
    pub fn summary(&self) -> String {
        format_route(self.kind(), &self.src, &self.dst)
    }
}

/// Relies on std's `format` to join a payload label with the two addresses of
/// a route into one line.
#[verifier::external_body]
fn format_route(label: &str, src: &Address, dst: &Address) -> String {
    format!("{} from {}:{} => {}:{}", label, src.ip, src.port, dst.ip, dst.port)
}

} // verus!
