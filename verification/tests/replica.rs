//! Tests for the replica: proposing on requests, timeout bookkeeping, the
//! reproposal timer, duplicate decisions, and the window bound.

use multifaustus::constants::WINDOW;
use multifaustus::messages::{DecisionMessage, Message, RequestMessage};
use multifaustus::nodes::clock::{ClockAction, MockClock};
use multifaustus::nodes::mailbox::Mailbox;
use multifaustus::nodes::replica::{Replica, ReplicaMessageIn};
use multifaustus::store::{KeyMap, KeySet};
use multifaustus::types::{
    AcceptorId, Address, Command, CommandType, Config, LeaderId, NodeId, ReplicaId,
};

fn addr(port: u64) -> Address {
    Address::new("127.0.0.1".to_string(), port)
}

fn setup() -> Replica<MockClock> {
    let mailbox = Mailbox::new();
    let rep = ReplicaId::new(1);
    let accept = AcceptorId::new(1);
    let lead = LeaderId::new(1);

    let mut addrs: KeyMap<NodeId, Address> = KeyMap::new();
    addrs.insert(rep.0, addr(8080));
    addrs.insert(accept.0, addr(8081));
    addrs.insert(lead.0, addr(8082));
    let config = Config::new(
        KeySet::from_vec(vec![rep]),
        KeySet::from_vec(vec![accept]),
        KeySet::from_vec(vec![lead]),
        addrs,
        None,
    );
    let clock = MockClock::new();
    Replica::new(rep, config, mailbox, clock).unwrap()
}

fn cmd(request_id: u64, payload: Vec<u8>) -> Command {
    Command { client_id: NodeId::new(1), request_id, op: CommandType::Op(payload) }
}

#[test]
fn replica_proposes_on_request() {
    let mut replica = setup();

    // Inject a request.
    let command = cmd(1, vec![1, 2, 3]);
    let req_msg = RequestMessage { src: addr(8080), command: command.clone() };
    replica.handle_msg(ReplicaMessageIn::Request(req_msg)).unwrap();

    // A proposal holding the command was created.
    let mut found = false;
    for i in 0..replica.proposals.len() {
        if *replica.proposals.val_at(i) == command {
            found = true;
        }
    }
    assert!(found);

    // And a Propose envelope went out.
    assert!(replica.mailbox.outbox.iter().any(|msg| matches!(msg.message, Message::Propose(_))));
}

#[test]
fn replica_schedules_timeouts_for_proposals() {
    let mut replica = setup();

    let command = cmd(1, vec![1, 2, 3]);
    let req_msg = RequestMessage { src: addr(8080), command };
    replica.handle_msg(ReplicaMessageIn::Request(req_msg)).unwrap();

    // Timeout tracking exists for the proposal.
    assert!(replica.proposal_times.len() > 0, "Should have timeout tracking for proposals");

    // One proposal, at slot 1.
    assert_eq!(replica.proposals.len(), 1);
    assert!(replica.proposals.contains_key(&1));
    assert!(replica.proposal_times.contains_key(&1));
}

#[test]
fn replica_cleans_up_timeouts_on_decision() {
    let mut replica = setup();

    let command = cmd(1, vec![1, 2, 3]);
    let req_msg = RequestMessage { src: addr(8080), command: command.clone() };
    replica.handle_msg(ReplicaMessageIn::Request(req_msg)).unwrap();

    assert!(replica.proposal_times.contains_key(&1));

    // A decision for that slot arrives.
    let decision_msg = DecisionMessage { src: LeaderId::new(1), slot_number: 1, command };
    replica.handle_msg(ReplicaMessageIn::Decision(decision_msg)).unwrap();

    assert!(
        !replica.proposal_times.contains_key(&1),
        "Timeout tracking should be cleaned up after decision"
    );
}

#[test]
fn replica_handles_repropose_timer() {
    let mut replica = setup();

    // A proposal without a decision yet.
    replica.proposals.insert(1, cmd(1, vec![1, 2, 3]));
    replica.proposal_times.insert(1, 100);

    // Clear the outbox to observe the reproposal alone.
    replica.mailbox.clear_outbox();

    replica.handle_timer(ClockAction::ReproposePendingRequests).unwrap();

    // One Propose per leader of the configuration went out again.
    let propose_messages: Vec<_> = replica
        .mailbox
        .outbox
        .iter()
        .filter(|msg| matches!(msg.message, Message::Propose(_)))
        .collect();
    assert_eq!(propose_messages.len(), replica.config.leaders.len());
}

#[test]
fn replica_performs_decision_in_slot_order_only() {
    let mut replica = setup();

    // A decision for slot 2 cannot be performed while slot 1 is open.
    let c2 = cmd(2, vec![2]);
    replica
        .handle_msg(ReplicaMessageIn::Decision(DecisionMessage {
            src: LeaderId::new(1),
            slot_number: 2,
            command: c2,
        }))
        .unwrap();
    assert_eq!(replica.slot_out, 1);
    assert_eq!(replica.executed.len(), 0);

    // Once slot 1 is decided, both are performed in order.
    let c1 = cmd(1, vec![1]);
    replica
        .handle_msg(ReplicaMessageIn::Decision(DecisionMessage {
            src: LeaderId::new(1),
            slot_number: 1,
            command: c1,
        }))
        .unwrap();
    assert_eq!(replica.slot_out, 3);
    assert_eq!(replica.executed.len(), 2);
}

#[test]
fn replica_executes_same_command_once_across_slots() {
    let mut replica = setup();

    // The same command is decided at two different slots; the application
    // sees it once, but both slots are consumed.
    let c = cmd(7, vec![7, 7]);
    replica
        .handle_msg(ReplicaMessageIn::Decision(DecisionMessage {
            src: LeaderId::new(1),
            slot_number: 1,
            command: c.clone(),
        }))
        .unwrap();
    replica
        .handle_msg(ReplicaMessageIn::Decision(DecisionMessage {
            src: LeaderId::new(1),
            slot_number: 2,
            command: c,
        }))
        .unwrap();
    assert_eq!(replica.slot_out, 3);
    assert_eq!(replica.executed.len(), 1);
}

#[test]
fn replica_respects_the_window_bound() {
    let mut replica = setup();

    // Queue more requests than the window admits.
    for i in 0..8u64 {
        let req = RequestMessage { src: addr(8080), command: cmd(i, vec![i as u8]) };
        replica.handle_msg(ReplicaMessageIn::Request(req)).unwrap();
    }

    // Only WINDOW slots are in flight; the rest stays queued.
    assert_eq!(replica.slot_in, 1 + WINDOW);
    assert_eq!(replica.proposals.len() as u64, WINDOW);
    assert_eq!(replica.requests.len() as u64, 8 - WINDOW);
    assert!(replica.slot_in - replica.slot_out <= WINDOW);
}

#[test]
fn replica_displaces_differing_proposal_back_to_the_queue() {
    let mut replica = setup();

    // The replica proposes its own command at slot 1.
    let mine = cmd(1, vec![1]);
    let req = RequestMessage { src: addr(8080), command: mine.clone() };
    replica.handle_msg(ReplicaMessageIn::Request(req)).unwrap();
    assert_eq!(replica.proposals.get(&1), Some(&mine));

    // A different command wins slot 1; the displaced proposal is re-queued
    // and proposed again at the next free slot.
    let winner = cmd(2, vec![2]);
    replica
        .handle_msg(ReplicaMessageIn::Decision(DecisionMessage {
            src: LeaderId::new(1),
            slot_number: 1,
            command: winner,
        }))
        .unwrap();
    assert_eq!(replica.slot_out, 2);
    assert!(!replica.proposals.contains_key(&1));
    assert_eq!(replica.proposals.get(&2), Some(&mine));
}
