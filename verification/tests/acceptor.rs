//! Tests for the acceptor: promises, acceptances, ballot rejection, the
//! heartbeat timer, and the construction error.

use multifaustus::messages::{Message, P1aMessage, P2aMessage};
use multifaustus::nodes::acceptor::{Acceptor, AcceptorMessageIn};
use multifaustus::nodes::clock::{ClockAction, MockClock};
use multifaustus::nodes::mailbox::Mailbox;
use multifaustus::store::{KeyMap, KeySet};
use multifaustus::types::{
    AcceptorId, Address, BallotNumber, Command, CommandType, Config, LeaderId, NodeId, PaxosError,
    ReplicaId,
};

fn addr(port: u64) -> Address {
    Address::new("127.0.0.1".to_string(), port)
}

fn setup() -> Acceptor<MockClock> {
    let mailbox = Mailbox::new();
    let rep = ReplicaId::new(1);
    let accept = AcceptorId::new(1);
    let lead = LeaderId::new(1);

    let mut addrs: KeyMap<NodeId, Address> = KeyMap::new();
    addrs.insert(rep.0, addr(8080));
    addrs.insert(accept.0, addr(8081));
    addrs.insert(lead.0, addr(8082));
    let config = Config::new(
        KeySet::from_vec(vec![rep]),
        KeySet::from_vec(vec![accept]),
        KeySet::from_vec(vec![lead]),
        addrs,
        None,
    );
    let clock = MockClock::new();
    Acceptor::new(accept, config, mailbox, clock).unwrap()
}

fn cmd(request_id: u64, payload: Vec<u8>) -> Command {
    Command { client_id: NodeId::new(1), request_id, op: CommandType::Op(payload) }
}

#[test]
fn acceptor_promises_and_accepts() {
    let mut acceptor = setup();

    // Inject P1a.
    let ballot = BallotNumber::new(LeaderId::new(1));
    let p1a_msg = P1aMessage { src: LeaderId::new(1), ballot_number: ballot };
    acceptor.handle_msg(AcceptorMessageIn::P1a(p1a_msg)).unwrap();

    // Assert outgoing P1b message.
    assert!(acceptor.mailbox.outbox.iter().any(|msg| matches!(msg.message, Message::P1b(_))));
}

#[test]
fn acceptor_handles_heartbeat_timer() {
    let mut acceptor = setup();

    // Handle the heartbeat timer; it must not fail, and it re-arms itself.
    acceptor.handle_timer(ClockAction::AcceptorHeartbeat).unwrap();
    assert_eq!(acceptor.clock.pending_timers().len(), 1);
}

#[test]
fn acceptor_accepts_proposal_and_reports_it_in_p1b() {
    let mut acceptor = setup();
    let lead = LeaderId::new(1);
    let ballot = BallotNumber { round: 2, leader: lead };

    // Accept a proposal for slot 1 under ballot (2, L1).
    let c = cmd(1, vec![1, 2, 3]);
    let p2a = P2aMessage { src: lead, ballot_number: ballot, slot_number: 1, command: c.clone() };
    acceptor.handle_msg(AcceptorMessageIn::P2a(p2a)).unwrap();
    assert!(acceptor.mailbox.outbox.iter().any(|msg| matches!(msg.message, Message::P2b(_))));
    assert_eq!(acceptor.accepted.len(), 1);

    // A later P1a with the same ballot reports the accepted proposal.
    acceptor.mailbox.clear_outbox();
    let p1a = P1aMessage { src: lead, ballot_number: ballot };
    acceptor.handle_msg(AcceptorMessageIn::P1a(p1a)).unwrap();
    let reported = acceptor.mailbox.outbox.iter().find_map(|msg| match &msg.message {
        Message::P1b(m) => Some(m.accepted.clone()),
        _ => None,
    });
    let reported = reported.expect("a P1b must be sent");
    assert_eq!(reported.len(), 1);
    assert_eq!(reported[0].slot, 1);
    assert_eq!(reported[0].ballot_number, ballot);
    assert_eq!(reported[0].command, c);
}

#[test]
fn acceptor_promise_is_monotone_per_slot() {
    let mut acceptor = setup();
    let l1 = LeaderId::new(1);
    let l2 = LeaderId::new(2);
    let high = BallotNumber { round: 5, leader: l1 };
    let low = BallotNumber { round: 1, leader: l2 };

    // Accept at slot 1 under the high ballot.
    let c1 = cmd(1, vec![1]);
    acceptor
        .handle_msg(AcceptorMessageIn::P2a(P2aMessage {
            src: l1,
            ballot_number: high,
            slot_number: 1,
            command: c1.clone(),
        }))
        .unwrap();
    acceptor.mailbox.clear_outbox();

    // A lower ballot for the same slot is ignored: no reply, no overwrite.
    let c2 = cmd(2, vec![2]);
    acceptor
        .handle_msg(AcceptorMessageIn::P2a(P2aMessage {
            src: l2,
            ballot_number: low,
            slot_number: 1,
            command: c2,
        }))
        .unwrap();
    assert!(acceptor.mailbox.outbox.is_empty());
    let held = acceptor.accepted.get(&1).expect("slot 1 stays accepted");
    assert_eq!(held.0, high);
    assert_eq!(held.1, c1);
}

#[test]
fn acceptor_new_fails_without_own_address() {
    let rep = ReplicaId::new(1);
    let accept = AcceptorId::new(2);
    let lead = LeaderId::new(3);
    // The map misses the acceptor's own address.
    let mut addrs: KeyMap<NodeId, Address> = KeyMap::new();
    addrs.insert(rep.0, addr(8080));
    addrs.insert(lead.0, addr(8082));
    let config = Config::new(
        KeySet::from_vec(vec![rep]),
        KeySet::from_vec(vec![accept]),
        KeySet::from_vec(vec![lead]),
        addrs,
        None,
    );
    let r = Acceptor::new(accept, config, Mailbox::new(), MockClock::new());
    assert_eq!(r.err(), Some(PaxosError::ConfigLookupMiss));
}

#[test]
fn acceptor_drops_inapplicable_messages() {
    let mut acceptor = setup();
    // A Decision is not an acceptor's message; it is dropped and the inbox
    // moves on.
    let env = multifaustus::messages::SendableMessage {
        src: addr(8082),
        dst: addr(8081),
        message: Message::Decision(multifaustus::messages::DecisionMessage {
            src: LeaderId::new(1),
            slot_number: 1,
            command: cmd(1, vec![9]),
        }),
    };
    acceptor.accept_message(env);
    assert!(!acceptor.work_on_message());
    assert!(acceptor.mailbox.inbox.is_empty());
    assert!(acceptor.mailbox.outbox.is_empty());
}
