//! The end-to-end scenarios of the design, driven deterministically: a
//! single-decree decision, duplicate decisions, preemption with backoff,
//! adoption merging, stale adoption, and windowed proposing with
//! reconfiguration.

use multifaustus::constants::WINDOW;
use multifaustus::messages::{
    AdoptedMessage, DecisionMessage, Message, P1bMessage, PreemptedMessage, RequestMessage,
};
use multifaustus::nodes::acceptor::{Acceptor, AcceptorMessageIn};
use multifaustus::nodes::clock::{ClockAction, MockClock};
use multifaustus::nodes::leader::{Leader, LeaderMessageIn};
use multifaustus::nodes::mailbox::Mailbox;
use multifaustus::nodes::replica::{Replica, ReplicaMessageIn};
use multifaustus::store::{KeyMap, KeySet};
use multifaustus::types::{
    AcceptorId, Address, BallotNumber, Command, CommandType, Config, LeaderId, NodeId, PValue,
    ReplicaId, TimeoutConfig,
};

fn addr(port: u64) -> Address {
    Address::new("127.0.0.1".to_string(), port)
}

fn full_config() -> Config {
    let rep = ReplicaId::new(1);
    let a1 = AcceptorId::new(11);
    let a2 = AcceptorId::new(12);
    let a3 = AcceptorId::new(13);
    let lead = LeaderId::new(21);
    let mut addrs: KeyMap<NodeId, Address> = KeyMap::new();
    addrs.insert(rep.0, addr(8080));
    addrs.insert(a1.0, addr(8081));
    addrs.insert(a2.0, addr(8082));
    addrs.insert(a3.0, addr(8083));
    addrs.insert(lead.0, addr(8084));
    Config::new(
        KeySet::from_vec(vec![rep]),
        KeySet::from_vec(vec![a1, a2, a3]),
        KeySet::from_vec(vec![lead]),
        addrs,
        None,
    )
}

fn cmd(client: u64, request: u64, payload: Vec<u8>) -> Command {
    Command { client_id: NodeId::new(client), request_id: request, op: CommandType::Op(payload) }
}

/// Single-decree decision with one replica, three acceptors and one leader:
/// the request runs through propose, phase 1, phase 2 and the decision, and
/// the replica applies it exactly once.
#[test]
fn single_decree_decision_flows_through_all_roles() {
    let config = full_config();
    let mut replica =
        Replica::new(ReplicaId::new(1), config.clone(), Mailbox::new(), MockClock::new()).unwrap();
    let mut leader =
        Leader::new(LeaderId::new(21), config.clone(), Mailbox::new(), MockClock::new()).unwrap();
    let mut a1 =
        Acceptor::new(AcceptorId::new(11), config.clone(), Mailbox::new(), MockClock::new())
            .unwrap();
    let mut a2 =
        Acceptor::new(AcceptorId::new(12), config, Mailbox::new(), MockClock::new()).unwrap();

    // Client sends Request{command c1 = (client=1, request=1, op=[1,2,3])}.
    let c1 = cmd(1, 1, vec![1, 2, 3]);
    replica
        .handle_msg(ReplicaMessageIn::Request(RequestMessage {
            src: addr(9000),
            command: c1.clone(),
        }))
        .unwrap();

    // R1 emits Propose(slot=1, c1) to L1.
    let propose = replica
        .mailbox
        .outbox
        .iter()
        .find_map(|env| match &env.message {
            Message::Propose(m) => Some(m.clone()),
            _ => None,
        })
        .expect("Propose expected");
    assert_eq!(propose.slot_number, 1);
    assert_eq!(propose.command, c1);
    leader.handle_msg(LeaderMessageIn::Propose(propose)).unwrap();

    // L1 completes phase 1: P1a out of the constructor, 2 of 3 promises.
    let p1a = leader
        .mailbox
        .outbox
        .iter()
        .find_map(|env| match &env.message {
            Message::P1a(m) => Some(m.clone()),
            _ => None,
        })
        .expect("P1a expected");
    leader.mailbox.clear_outbox();
    for acc in [&mut a1, &mut a2] {
        acc.handle_msg(AcceptorMessageIn::P1a(p1a.clone())).unwrap();
        let p1b = acc
            .mailbox
            .outbox
            .iter()
            .find_map(|env| match &env.message {
                Message::P1b(m) => Some(m.clone()),
                _ => None,
            })
            .expect("P1b expected");
        acc.mailbox.clear_outbox();
        leader.handle_msg(LeaderMessageIn::P1b(p1b)).unwrap();
    }
    assert!(leader.active);

    // L1 emits P2a(ballot=(0,L1), slot=1, c1); A1 and A2 accept.
    let p2a = leader
        .mailbox
        .outbox
        .iter()
        .find_map(|env| match &env.message {
            Message::P2a(m) => Some(m.clone()),
            _ => None,
        })
        .expect("P2a expected");
    assert_eq!(p2a.ballot_number, BallotNumber { round: 0, leader: LeaderId::new(21) });
    assert_eq!(p2a.slot_number, 1);
    assert_eq!(p2a.command, c1);
    leader.mailbox.clear_outbox();
    for acc in [&mut a1, &mut a2] {
        acc.handle_msg(AcceptorMessageIn::P2a(p2a.clone())).unwrap();
        let p2b = acc
            .mailbox
            .outbox
            .iter()
            .find_map(|env| match &env.message {
                Message::P2b(m) => Some(m.clone()),
                _ => None,
            })
            .expect("P2b expected");
        leader.handle_msg(LeaderMessageIn::P2b(p2b)).unwrap();
    }

    // L1 emits Decision(slot=1, c1) to R1; R1 performs it.
    let decision = leader
        .mailbox
        .outbox
        .iter()
        .find_map(|env| match &env.message {
            Message::Decision(m) => Some(m.clone()),
            _ => None,
        })
        .expect("Decision expected");
    assert_eq!(decision.slot_number, 1);
    assert_eq!(decision.command, c1);
    replica.handle_msg(ReplicaMessageIn::Decision(decision)).unwrap();

    // perform applied c1 and advanced slot_out from 1 to 2.
    assert_eq!(replica.slot_out, 2);
    assert_eq!(replica.executed.len(), 1);
    assert_eq!(replica.executed[0], c1);
}

/// Duplicate decision: delivering Decision(slot=1, c1) twice invokes the
/// application exactly once, and slot_out ends at 2, not 3.
#[test]
fn duplicate_decision_is_performed_once() {
    let config = full_config();
    let mut replica =
        Replica::new(ReplicaId::new(1), config, Mailbox::new(), MockClock::new()).unwrap();
    let c1 = cmd(1, 1, vec![1, 2, 3]);
    for _ in 0..2 {
        replica
            .handle_msg(ReplicaMessageIn::Decision(DecisionMessage {
                src: LeaderId::new(21),
                slot_number: 1,
                command: c1.clone(),
            }))
            .unwrap();
    }
    assert_eq!(replica.executed.len(), 1);
    assert_eq!(replica.slot_out, 2);
}

/// Preemption: a leader at ballot (0, L1) preempted by (5, L2) turns
/// inactive, moves to ballot (6, L1), schedules a scout retry instead of an
/// immediate P1a, and multiplies its backoff from 100 ms to 150 ms.
#[test]
fn preemption_backs_off_and_mints_the_next_ballot() {
    let config = full_config();
    let mut leader =
        Leader::new(LeaderId::new(21), config, Mailbox::new(), MockClock::new()).unwrap();
    assert_eq!(leader.ballot_number, BallotNumber { round: 0, leader: LeaderId::new(21) });
    assert_eq!(leader.current_timeout, 100);
    leader.mailbox.clear_outbox();

    leader
        .handle_msg(LeaderMessageIn::Preempted(PreemptedMessage {
            src: LeaderId::new(22),
            ballot_number: BallotNumber { round: 5, leader: LeaderId::new(22) },
        }))
        .unwrap();

    assert!(!leader.active);
    assert_eq!(leader.ballot_number, BallotNumber { round: 6, leader: LeaderId::new(21) });
    assert_eq!(leader.current_timeout, 150);
    assert!(!leader.mailbox.outbox.iter().any(|env| matches!(env.message, Message::P1a(_))));
    assert!(leader
        .clock
        .pending_timers()
        .iter()
        .any(|t| matches!(t.action, ClockAction::SendScout { ballot } if ballot
            == BallotNumber { round: 6, leader: LeaderId::new(21) })));
}

/// Adoption merges prior PValues: of two reports for slot 1, the one with
/// the higher ballot wins, and the P2a for slot 1 carries its command.
#[test]
fn adoption_merges_reports_by_highest_ballot() {
    let config = full_config();
    let mut leader =
        Leader::new(LeaderId::new(21), config, Mailbox::new(), MockClock::new()).unwrap();
    leader.ballot_number.round = 3;
    let mine = leader.ballot_number;
    leader.mailbox.clear_outbox();

    let c_old = cmd(1, 1, vec![1]);
    let c_new = cmd(1, 2, vec![2]);
    let report_a1 = P1bMessage {
        src: AcceptorId::new(11),
        ballot_number: mine,
        accepted: vec![PValue {
            ballot_number: BallotNumber { round: 1, leader: LeaderId::new(22) },
            slot: 1,
            command: c_old,
        }],
    };
    let report_a2 = P1bMessage {
        src: AcceptorId::new(12),
        ballot_number: mine,
        accepted: vec![PValue { ballot_number: mine, slot: 1, command: c_new.clone() }],
    };
    leader.handle_msg(LeaderMessageIn::P1b(report_a1)).unwrap();
    leader.handle_msg(LeaderMessageIn::P1b(report_a2)).unwrap();

    // Two promises of three adopt the ballot; the higher report won.
    assert!(leader.active);
    assert_eq!(leader.proposals.get(&1), Some(&c_new));
    let p2a = leader
        .mailbox
        .outbox
        .iter()
        .find_map(|env| match &env.message {
            Message::P2a(m) => Some(m.clone()),
            _ => None,
        })
        .expect("P2a expected");
    assert_eq!(p2a.ballot_number, mine);
    assert_eq!(p2a.slot_number, 1);
    assert_eq!(p2a.command, c_new);
}

/// Adoption for a stale ballot is ignored: the leader stays inactive, keeps
/// no proposals and sends no P2a.
#[test]
fn stale_adoption_is_ignored() {
    let config = full_config();
    let mut leader =
        Leader::new(LeaderId::new(21), config, Mailbox::new(), MockClock::new()).unwrap();
    leader.ballot_number.round = 2;
    leader.mailbox.clear_outbox();

    let stale = BallotNumber { round: 1, leader: LeaderId::new(22) };
    leader
        .handle_msg(LeaderMessageIn::Adopted(AdoptedMessage {
            src: LeaderId::new(21),
            ballot_number: stale,
            accepted: vec![PValue { ballot_number: stale, slot: 1, command: cmd(1, 1, vec![1]) }],
        }))
        .unwrap();

    assert!(!leader.active);
    assert_eq!(leader.proposals.len(), 0);
    assert!(!leader.mailbox.outbox.iter().any(|env| matches!(env.message, Message::P2a(_))));
}

/// Windowed proposing and reconfiguration: seven requests fill the window
/// of five; a decision opens slot 6, and a Reconfig decided at slot 2
/// governs the proposing of slot 7.
#[test]
fn windowed_proposing_and_reconfiguration() {
    let config = full_config();

    // The new configuration the Reconfig carries: a different leader.
    let rep = ReplicaId::new(1);
    let new_lead = LeaderId::new(99);
    let mut new_addrs: KeyMap<NodeId, Address> = KeyMap::new();
    new_addrs.insert(rep.0, addr(8080));
    new_addrs.insert(AcceptorId::new(11).0, addr(8081));
    new_addrs.insert(AcceptorId::new(12).0, addr(8082));
    new_addrs.insert(AcceptorId::new(13).0, addr(8083));
    new_addrs.insert(new_lead.0, addr(8099));
    let new_config = Config::new(
        KeySet::from_vec(vec![rep]),
        KeySet::from_vec(vec![
            AcceptorId::new(11),
            AcceptorId::new(12),
            AcceptorId::new(13),
        ]),
        KeySet::from_vec(vec![new_lead]),
        new_addrs,
        None,
    );

    let mut replica =
        Replica::new(rep, config, Mailbox::new(), MockClock::new()).unwrap();

    // R1 enqueues five requests while slot_out = 1: the window of five is
    // exactly filled, slots 1..=5 are proposed.
    for i in 1..=5u64 {
        replica
            .handle_msg(ReplicaMessageIn::Request(RequestMessage {
                src: addr(9000),
                command: cmd(1, i, vec![i as u8]),
            }))
            .unwrap();
    }
    assert_eq!(replica.slot_in, 1 + WINDOW);
    assert!(replica.proposals.contains_key(&5));
    assert!(!replica.proposals.contains_key(&6));

    // Decision for slot 1 arrives with the replica's own command: slot_out
    // advances to 2 and slot 6 becomes proposable.
    replica
        .handle_msg(ReplicaMessageIn::Decision(DecisionMessage {
            src: LeaderId::new(21),
            slot_number: 1,
            command: cmd(1, 1, vec![1]),
        }))
        .unwrap();
    assert_eq!(replica.slot_out, 2);

    // A Reconfig decided at slot 2 displaces the replica's own proposal for
    // that slot back onto the queue, which is then proposed at slot 6; with
    // slot_in reaching 7 (= 2 + WINDOW), the new configuration is
    // installed for the proposing that follows.
    let reconfig = Command {
        client_id: NodeId::new(1),
        request_id: 100,
        op: CommandType::Reconfig(new_config),
    };
    replica
        .handle_msg(ReplicaMessageIn::Decision(DecisionMessage {
            src: LeaderId::new(21),
            slot_number: 2,
            command: reconfig,
        }))
        .unwrap();

    // The Reconfig is ordered but not executed by the application; only the
    // command of slot 1 ran.
    assert_eq!(replica.slot_out, 3);
    assert_eq!(replica.executed.len(), 1);
    assert_eq!(replica.slot_in, 7);
    assert!(replica.proposals.contains_key(&6));
    assert_eq!(replica.config.leaders.len(), 1);
    assert_eq!(replica.config.leaders.get(0), new_lead);

    // The next request is proposed at slot 7, under the new configuration:
    // its Propose goes to the new leader's address.
    replica.mailbox.clear_outbox();
    replica
        .handle_msg(ReplicaMessageIn::Request(RequestMessage {
            src: addr(9000),
            command: cmd(1, 8, vec![8]),
        }))
        .unwrap();
    let propose = replica
        .mailbox
        .outbox
        .iter()
        .find_map(|env| match &env.message {
            Message::Propose(m) => Some((m.slot_number, env.dst.clone())),
            _ => None,
        })
        .expect("slot 7 must be proposed");
    assert_eq!(propose.0, 7);
    assert_eq!(propose.1.port, 8099);
}

/// The normative timeout defaults: 100 ms to 10 s, times one and a half per
/// retry, minus 50 ms on decrease.
#[test]
fn timeout_defaults_match_the_normative_values() {
    let tc = TimeoutConfig::default();
    assert_eq!(tc.min_timeout, 100);
    assert_eq!(tc.max_timeout, 10_000);
    assert_eq!(tc.timeout_multiplier_percent, 150);
    assert_eq!(tc.timeout_decrease, 50);
}

/// The lexicographic ballot order: rounds dominate, leaders break ties, and
/// equal components mean the same ballot.
#[test]
fn ballot_order_is_lexicographic() {
    let b_low = BallotNumber { round: 1, leader: LeaderId::new(9) };
    let b_mid = BallotNumber { round: 2, leader: LeaderId::new(1) };
    let b_mid2 = BallotNumber { round: 2, leader: LeaderId::new(3) };
    assert!(b_low.lt(&b_mid));
    assert!(b_mid.lt(&b_mid2));
    assert!(b_low.le(&b_low));
    assert!(!b_mid2.le(&b_mid));
    assert_eq!(b_mid, BallotNumber { round: 2, leader: LeaderId::new(1) });
}

/// Structural command equality over all three fields.
#[test]
fn command_equality_is_structural() {
    let a = cmd(1, 1, vec![1, 2]);
    let b = cmd(1, 1, vec![1, 2]);
    let c = cmd(1, 2, vec![1, 2]);
    let d = cmd(1, 1, vec![1, 3]);
    assert!(multifaustus::types::command_eq(&a, &b));
    assert!(!multifaustus::types::command_eq(&a, &c));
    assert!(!multifaustus::types::command_eq(&a, &d));
}

/// A configuration is well formed only when every member has an address.
#[test]
fn config_well_formedness_requires_every_address() {
    let good = full_config();
    assert!(good.is_well_formed());

    let rep = ReplicaId::new(1);
    let lead = LeaderId::new(21);
    let mut addrs: KeyMap<NodeId, Address> = KeyMap::new();
    addrs.insert(rep.0, addr(8080));
    // The leader's address is missing.
    let bad = Config::new(
        KeySet::from_vec(vec![rep]),
        KeySet::from_vec(vec![]),
        KeySet::from_vec(vec![lead]),
        addrs,
        None,
    );
    assert!(!bad.is_well_formed());
}
