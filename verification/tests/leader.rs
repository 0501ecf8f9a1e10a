//! Tests for the leader: quorum tallies, adoption and its pmax merge,
//! preemption with backoff, and the scout retry timer.

use multifaustus::messages::{
    AdoptedMessage, Message, P1bMessage, P2bMessage, PreemptedMessage,
};
use multifaustus::nodes::clock::{ClockAction, MockClock};
use multifaustus::nodes::leader::{Leader, LeaderMessageIn};
use multifaustus::nodes::mailbox::Mailbox;
use multifaustus::store::{KeyMap, KeySet};
use multifaustus::types::{
    AcceptorId, Address, BallotNumber, Command, CommandType, Config, LeaderId, NodeId, PValue,
    ReplicaId,
};

fn addr(port: u64) -> Address {
    Address::new("127.0.0.1".to_string(), port)
}

fn setup() -> Leader<MockClock> {
    let mailbox = Mailbox::new();
    let rep = ReplicaId::new(1);
    let accept1 = AcceptorId::new(1);
    let accept2 = AcceptorId::new(2);
    let accept3 = AcceptorId::new(3);
    let lead = LeaderId::new(1);

    let mut addrs: KeyMap<NodeId, Address> = KeyMap::new();
    addrs.insert(rep.0, addr(8080));
    addrs.insert(lead.0, addr(8081));
    addrs.insert(accept1.0, addr(8086));
    addrs.insert(accept2.0, addr(8087));
    addrs.insert(accept3.0, addr(8088));
    let config = Config::new(
        KeySet::from_vec(vec![rep]),
        KeySet::from_vec(vec![accept1, accept2, accept3]),
        KeySet::from_vec(vec![lead]),
        addrs,
        None,
    );
    let clock = MockClock::new();
    Leader::new(lead, config, mailbox, clock).unwrap()
}

fn cmd(request_id: u64, payload: Vec<u8>) -> Command {
    Command { client_id: NodeId::new(1), request_id, op: CommandType::Op(payload) }
}

#[test]
fn leader_sees_quorum_for_accepted_proposal() {
    let mut leader = setup();

    let command = cmd(1, vec![1, 2, 3]);
    // Insert the command into the leader's proposals at slot 1.
    leader.proposals.insert(1, command.clone());

    let accepted_msg = P1bMessage {
        src: AcceptorId::new(1),
        ballot_number: leader.ballot_number,
        accepted: vec![PValue {
            ballot_number: leader.ballot_number,
            slot: 1,
            command: command.clone(),
        }],
    };
    leader.handle_msg(LeaderMessageIn::P1b(accepted_msg)).unwrap();

    // No quorum yet: no P2a in the outbox beyond the constructor's P1a.
    assert!(leader
        .mailbox
        .outbox
        .iter()
        .filter(|msg| matches!(msg.message, Message::P2a(_)))
        .next()
        .is_none());

    // A second promise reaches the majority of the three acceptors.
    let p1b_msg_extra = P1bMessage {
        src: AcceptorId::new(2),
        ballot_number: leader.ballot_number,
        accepted: vec![PValue {
            ballot_number: leader.ballot_number,
            slot: 1,
            command,
        }],
    };
    leader.handle_msg(LeaderMessageIn::P1b(p1b_msg_extra)).unwrap();

    assert!(
        leader.mailbox.outbox.iter().any(|msg| matches!(msg.message, Message::P2a(_))),
        "*** Leader.outbox length is: {} ***",
        leader.mailbox.outbox.len()
    );
}

#[test]
fn leader_reaches_quorum_and_sends_decision_for_adopted_proposal() {
    let mut leader = setup();

    let command = cmd(1, vec![1, 2, 3]);
    leader.proposals.insert(1, command);

    let p2b_msg = P2bMessage {
        src: AcceptorId::new(1),
        slot_number: 1,
        ballot_number: leader.ballot_number,
    };
    leader.handle_msg(LeaderMessageIn::P2b(p2b_msg)).unwrap();

    // No quorum yet.
    assert!(leader
        .mailbox
        .outbox
        .iter()
        .filter(|msg| matches!(msg.message, Message::Decision(_)))
        .next()
        .is_none());

    let p2b_msg_extra = P2bMessage {
        src: AcceptorId::new(2),
        slot_number: 1,
        ballot_number: leader.ballot_number,
    };
    leader.handle_msg(LeaderMessageIn::P2b(p2b_msg_extra)).unwrap();

    assert!(
        leader.mailbox.outbox.iter().any(|msg| matches!(msg.message, Message::Decision(_))),
        "*** Leader.outbox length is: {} ***",
        leader.mailbox.outbox.len()
    );
}

#[test]
fn leader_handles_adopted_message_correctly() {
    let mut leader = setup();

    // Initially, the leader is not active.
    assert!(!leader.active);

    let command1 = cmd(1, vec![1, 2, 3]);
    let command2 = cmd(2, vec![4, 5, 6]);

    // An older ballot of a different leader for slot 1.
    let older_ballot = BallotNumber { round: 1, leader: LeaderId::new(2) };

    // Ensure the current ballot has a higher round.
    leader.ballot_number.round = 2;

    let pvalue1_old = PValue { ballot_number: older_ballot, slot: 1, command: command1.clone() };
    let pvalue1_new =
        PValue { ballot_number: leader.ballot_number, slot: 1, command: command2.clone() };
    let pvalue2 = PValue { ballot_number: leader.ballot_number, slot: 2, command: command1.clone() };

    // Clear the outbox first; the constructor sends P1a.
    leader.mailbox.clear_outbox();

    let adopted_msg = AdoptedMessage {
        src: leader.node_id,
        ballot_number: leader.ballot_number,
        accepted: vec![pvalue1_old, pvalue1_new, pvalue2],
    };
    leader.handle_msg(LeaderMessageIn::Adopted(adopted_msg)).unwrap();

    // The leader is active now.
    assert!(leader.active);

    // The command with the highest ballot won slot 1.
    assert_eq!(leader.proposals.get(&1), Some(&command2));
    assert_eq!(leader.proposals.get(&2), Some(&command1));

    // One P2a per proposal and acceptor went out.
    let p2a_count = leader
        .mailbox
        .outbox
        .iter()
        .filter(|msg| matches!(msg.message, Message::P2a(_)))
        .count();
    assert_eq!(p2a_count, 2 * leader.config.acceptors.len());

    let mut p2a_slots: Vec<u64> = leader
        .mailbox
        .outbox
        .iter()
        .filter_map(|msg| match &msg.message {
            Message::P2a(m) => Some(m.slot_number),
            _ => None,
        })
        .collect();
    p2a_slots.dedup();
    assert!(p2a_slots.contains(&1));
    assert!(p2a_slots.contains(&2));
}

#[test]
fn leader_ignores_adopted_message_for_wrong_ballot() {
    let mut leader = setup();

    assert!(!leader.active);

    let wrong_ballot =
        BallotNumber { round: leader.ballot_number.round + 1, leader: LeaderId::new(2) };
    let command = cmd(1, vec![1, 2, 3]);
    let pvalue = PValue { ballot_number: wrong_ballot, slot: 1, command };

    leader.mailbox.clear_outbox();

    let adopted_msg = AdoptedMessage {
        src: leader.node_id,
        ballot_number: wrong_ballot,
        accepted: vec![pvalue],
    };
    leader.handle_msg(LeaderMessageIn::Adopted(adopted_msg)).unwrap();

    // Still inactive, nothing adopted, nothing sent.
    assert!(!leader.active);
    assert_eq!(leader.proposals.len(), 0);
    let p2a_count = leader
        .mailbox
        .outbox
        .iter()
        .filter(|msg| matches!(msg.message, Message::P2a(_)))
        .count();
    assert_eq!(p2a_count, 0);
}

#[test]
fn leader_schedules_scout_retry_on_preemption() {
    let mut leader = setup();

    let initial_timeout = leader.current_timeout;

    // Clear the outbox first; the constructor sends P1a.
    leader.mailbox.clear_outbox();

    let higher_ballot =
        BallotNumber { round: leader.ballot_number.round + 1, leader: LeaderId::new(2) };
    let preempted_msg = PreemptedMessage { src: LeaderId::new(2), ballot_number: higher_ballot };

    leader.handle_msg(LeaderMessageIn::Preempted(preempted_msg)).unwrap();

    // The leader backed down and minted the next higher ballot of its own.
    assert!(!leader.active);
    assert_eq!(leader.ballot_number.round, higher_ballot.round + 1);

    // The backoff grew.
    assert!(leader.current_timeout > initial_timeout);

    // No immediate P1a goes out; the retry is only scheduled.
    let p1a_count = leader
        .mailbox
        .outbox
        .iter()
        .filter(|msg| matches!(msg.message, Message::P1a(_)))
        .count();
    assert_eq!(p1a_count, 0, "No immediate P1a should be sent, only scheduled");
    assert!(leader
        .clock
        .pending_timers()
        .iter()
        .any(|t| matches!(t.action, ClockAction::SendScout { .. })));
}

#[test]
fn leader_handles_timeout_and_retries_scout() {
    let mut leader = setup();
    let original_ballot = leader.ballot_number;

    leader.mailbox.clear_outbox();

    // Fire the scout retry by hand.
    let timer_action = ClockAction::SendScout { ballot: original_ballot };
    leader.handle_timer(timer_action).unwrap();

    let p1a_messages: Vec<_> = leader
        .mailbox
        .outbox
        .iter()
        .filter(|msg| matches!(msg.message, Message::P1a(_)))
        .collect();
    assert_eq!(
        p1a_messages.len(),
        leader.config.acceptors.len(),
        "Should send P1a to all acceptors"
    );
}

#[test]
fn leader_cancels_scout_retry_on_successful_adoption() {
    let mut leader = setup();

    let command = cmd(1, vec![1, 2, 3]);
    let pvalue = PValue { ballot_number: leader.ballot_number, slot: 1, command };
    let adopted_msg = AdoptedMessage {
        src: leader.node_id,
        ballot_number: leader.ballot_number,
        accepted: vec![pvalue],
    };

    leader.handle_msg(LeaderMessageIn::Adopted(adopted_msg)).unwrap();

    // The leader is active, the backoff is back at the minimum, and no
    // scout retry is pending any more.
    assert!(leader.active);
    assert_eq!(leader.current_timeout, leader.config.timeout_config.min_timeout);
    assert!(!leader
        .clock
        .pending_timers()
        .iter()
        .any(|t| matches!(t.action, ClockAction::SendScout { .. })));
}

#[test]
fn leader_backoff_is_clamped_at_the_maximum() {
    let mut leader = setup();
    let max = leader.config.timeout_config.max_timeout;
    // Fire the scout retry until the backoff saturates.
    for _ in 0..20 {
        let ballot = leader.ballot_number;
        leader.handle_timer(ClockAction::SendScout { ballot }).unwrap();
    }
    assert_eq!(leader.current_timeout, max);
}

#[test]
fn leader_new_fails_without_own_address() {
    let accept = AcceptorId::new(1);
    let lead = LeaderId::new(2);
    let mut addrs: KeyMap<NodeId, Address> = KeyMap::new();
    addrs.insert(accept.0, addr(8086));
    let config = Config::new(
        KeySet::from_vec(vec![]),
        KeySet::from_vec(vec![accept]),
        KeySet::from_vec(vec![lead]),
        addrs,
        None,
    );
    let r = Leader::new(lead, config, Mailbox::new(), MockClock::new());
    assert!(r.is_err());
}
