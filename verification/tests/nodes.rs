//! End-to-end exercises across the three roles, driving the actors by hand
//! the way a scheduler harness would.

use multifaustus::messages::{Message, RequestMessage};
use multifaustus::nodes::acceptor::{Acceptor, AcceptorMessageIn};
use multifaustus::nodes::clock::MockClock;
use multifaustus::nodes::leader::{Leader, LeaderMessageIn};
use multifaustus::nodes::mailbox::Mailbox;
use multifaustus::nodes::replica::{Replica, ReplicaMessageIn};
use multifaustus::store::{KeyMap, KeySet};
use multifaustus::types::{
    AcceptorId, Address, BallotNumber, Command, CommandType, Config, LeaderId, NodeId, ReplicaId,
};

fn addr(port: u64) -> Address {
    Address::new("127.0.0.1".to_string(), port)
}

fn three_acceptor_config() -> Config {
    let rep = ReplicaId::new(1);
    let a1 = AcceptorId::new(11);
    let a2 = AcceptorId::new(12);
    let a3 = AcceptorId::new(13);
    let lead = LeaderId::new(21);
    let mut addrs: KeyMap<NodeId, Address> = KeyMap::new();
    addrs.insert(rep.0, addr(8080));
    addrs.insert(a1.0, addr(8081));
    addrs.insert(a2.0, addr(8082));
    addrs.insert(a3.0, addr(8083));
    addrs.insert(lead.0, addr(8084));
    Config::new(
        KeySet::from_vec(vec![rep]),
        KeySet::from_vec(vec![a1, a2, a3]),
        KeySet::from_vec(vec![lead]),
        addrs,
        None,
    )
}

fn cmd(request_id: u64, payload: Vec<u8>) -> Command {
    Command { client_id: NodeId::new(1), request_id, op: CommandType::Op(payload) }
}

#[test]
fn replica_proposes_and_executes_decision() {
    let config = three_acceptor_config();
    let mut replica =
        Replica::new(ReplicaId::new(1), config, Mailbox::new(), MockClock::new()).unwrap();

    // A client request arrives at the replica.
    let c = cmd(1, vec![1, 2, 3]);
    replica
        .handle_msg(ReplicaMessageIn::Request(RequestMessage {
            src: addr(9000),
            command: c.clone(),
        }))
        .unwrap();

    // The replica proposed it to the leader.
    let proposed = replica.mailbox.outbox.iter().find_map(|env| match &env.message {
        Message::Propose(m) => Some((m.slot_number, m.command.clone())),
        _ => None,
    });
    let (slot, proposed_cmd) = proposed.expect("a Propose must be sent");
    assert_eq!(slot, 1);
    assert_eq!(proposed_cmd, c);

    // The leader eventually decides that slot; the decision comes back.
    replica
        .handle_msg(ReplicaMessageIn::Decision(multifaustus::messages::DecisionMessage {
            src: LeaderId::new(21),
            slot_number: 1,
            command: c.clone(),
        }))
        .unwrap();

    // The replica executed the command and advanced.
    assert_eq!(replica.slot_out, 2);
    assert_eq!(replica.executed.len(), 1);
    assert_eq!(replica.executed[0], c);
}

#[test]
fn leader_reaches_consensus_with_quorum() {
    let config = three_acceptor_config();
    let mut leader =
        Leader::new(LeaderId::new(21), config.clone(), Mailbox::new(), MockClock::new()).unwrap();
    let mut acceptors: Vec<Acceptor<MockClock>> = vec![
        Acceptor::new(AcceptorId::new(11), config.clone(), Mailbox::new(), MockClock::new())
            .unwrap(),
        Acceptor::new(AcceptorId::new(12), config.clone(), Mailbox::new(), MockClock::new())
            .unwrap(),
        Acceptor::new(AcceptorId::new(13), config, Mailbox::new(), MockClock::new()).unwrap(),
    ];

    // A replica proposes a command for slot 1.
    let c = cmd(1, vec![4, 5, 6]);
    leader
        .handle_msg(LeaderMessageIn::Propose(multifaustus::messages::ProposeMessage {
            src: ReplicaId::new(1),
            slot_number: 1,
            command: c.clone(),
        }))
        .unwrap();

    // Deliver the constructor's P1a to every acceptor and the P1b replies
    // back to the leader; two promises already make the majority.
    let p1as: Vec<_> = leader
        .mailbox
        .outbox
        .iter()
        .filter_map(|env| match &env.message {
            Message::P1a(m) => Some(m.clone()),
            _ => None,
        })
        .collect();
    assert_eq!(p1as.len(), 3);
    leader.mailbox.clear_outbox();
    for (i, acceptor) in acceptors.iter_mut().enumerate() {
        acceptor.handle_msg(AcceptorMessageIn::P1a(p1as[i].clone())).unwrap();
        let p1b = acceptor.mailbox.outbox.iter().find_map(|env| match &env.message {
            Message::P1b(m) => Some(m.clone()),
            _ => None,
        });
        leader.handle_msg(LeaderMessageIn::P1b(p1b.expect("promise expected"))).unwrap();
    }
    assert!(leader.active);

    // The adoption emitted P2a for the recorded proposal.
    let p2as: Vec<_> = leader
        .mailbox
        .outbox
        .iter()
        .filter_map(|env| match &env.message {
            Message::P2a(m) => Some(m.clone()),
            _ => None,
        })
        .collect();
    assert!(!p2as.is_empty());
    leader.mailbox.clear_outbox();

    // Deliver one P2a to each acceptor and their P2b replies back.
    for (i, acceptor) in acceptors.iter_mut().enumerate() {
        acceptor.mailbox.clear_outbox();
        acceptor.handle_msg(AcceptorMessageIn::P2a(p2as[i % p2as.len()].clone())).unwrap();
        let p2b = acceptor.mailbox.outbox.iter().find_map(|env| match &env.message {
            Message::P2b(m) => Some(m.clone()),
            _ => None,
        });
        leader.handle_msg(LeaderMessageIn::P2b(p2b.expect("acceptance expected"))).unwrap();
    }

    // With a majority of acceptances the leader sent the Decision.
    let decision = leader.mailbox.outbox.iter().find_map(|env| match &env.message {
        Message::Decision(m) => Some(m.clone()),
        _ => None,
    });
    let decision = decision.expect("a Decision must be sent");
    assert_eq!(decision.slot_number, 1);
    assert_eq!(decision.command, c);
}

#[test]
fn acceptor_rejects_lower_ballot() {
    let config = three_acceptor_config();
    let mut acceptor =
        Acceptor::new(AcceptorId::new(11), config, Mailbox::new(), MockClock::new()).unwrap();
    let l1 = LeaderId::new(21);
    let l2 = LeaderId::new(22);
    let high = BallotNumber { round: 5, leader: l1 };
    let low = BallotNumber { round: 1, leader: l2 };

    // The high ballot is promised and answered.
    acceptor
        .handle_msg(AcceptorMessageIn::P1a(multifaustus::messages::P1aMessage {
            src: l1,
            ballot_number: high,
        }))
        .unwrap();
    assert!(acceptor.mailbox.outbox.iter().any(|env| matches!(env.message, Message::P1b(_))));
    assert_eq!(acceptor.promised.get(&0), Some(&high));

    // A later, lower ballot gets no reply and does not shrink the promise.
    acceptor.mailbox.clear_outbox();
    acceptor
        .handle_msg(AcceptorMessageIn::P1a(multifaustus::messages::P1aMessage {
            src: l2,
            ballot_number: low,
        }))
        .unwrap();
    assert!(acceptor.mailbox.outbox.is_empty());
    assert_eq!(acceptor.promised.get(&0), Some(&high));

    // Accept slot 1 under the high ballot, then refuse the lower one.
    let c1 = cmd(1, vec![1]);
    acceptor
        .handle_msg(AcceptorMessageIn::P2a(multifaustus::messages::P2aMessage {
            src: l1,
            ballot_number: high,
            slot_number: 1,
            command: c1.clone(),
        }))
        .unwrap();
    acceptor.mailbox.clear_outbox();
    acceptor
        .handle_msg(AcceptorMessageIn::P2a(multifaustus::messages::P2aMessage {
            src: l2,
            ballot_number: low,
            slot_number: 1,
            command: cmd(2, vec![2]),
        }))
        .unwrap();
    assert!(acceptor.mailbox.outbox.is_empty());
    let held = acceptor.accepted.get(&1).expect("slot 1 stays accepted");
    assert_eq!(held.0, high);
    assert_eq!(held.1, c1);
}
