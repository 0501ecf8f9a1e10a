//! The leader: scouts (phase 1), commanders (phase 2), adoption and
//! preemption.  A leader becomes active once a majority of acceptors
//! promised its ballot; while active it drives a P2a for every proposal and
//! emits a Decision as soon as a majority accepted a slot.  Competing
//! leaders preempt each other; backoff on the scout retry timer keeps them
//! from duelling forever.

use crate::messages::{
    env_is_decision, env_is_p1a, env_is_p2a, AdoptedMessage, DecisionMessage, Message, P1aMessage,
    P2aMessage, SendableMessage,
};
use crate::messages;
use crate::nodes::clock::{not_matching, ClockAction, ClockProvider, TimerEvent};
use crate::nodes::mailbox::Mailbox;
use crate::store::{KeyMap, KeySet};
use crate::types::{
    ballot_le, ballot_lt, cmd_eq_spec, lemma_cmd_eq_trans, AcceptorId, Address, BallotNumber,
    Command, Config, LeaderId, PValue, PaxosError,
};
use vstd::prelude::*;
use vstd::set_lib::lemma_len_subset;

verus! {

/// The messages a leader handles.
pub enum LeaderMessageIn {
    Propose(messages::ProposeMessage),
    P1b(messages::P1bMessage),
    P2b(messages::P2bMessage),
    Preempted(messages::PreemptedMessage),
    Adopted(messages::AdoptedMessage),
}

/// The timer actions that drive a leader.
pub enum LeaderScheduledAction {
    SendScout(BallotNumber),
    RetryProposal(u64),
    HeartbeatCheck,
}

/// Everything that can wake a leader.
pub enum LeaderEvent {
    Message(SendableMessage),
    Timer(LeaderScheduledAction),
    Tick,
}

/// What a leader has collected for one ballot in phase 1: the acceptors that
/// promised it, and the union of the PValues they reported.
pub struct P1bTally {
    pub voters: KeySet<AcceptorId>,
    pub pvalues: Vec<PValue>,
}

/// The quorum threshold: a strict majority of the acceptors.
pub open spec fn quorum_size(cfg: Config) -> int {
    cfg.acceptors@.len() as int / 2 + 1
}

/// One step of the `pmax` merge: the PValue wins the slot unless a strictly
/// higher ballot already claimed it.
pub open spec fn pmax_step(
    acc: Map<u64, (BallotNumber, Command)>,
    pv: PValue,
) -> Map<u64, (BallotNumber, Command)> {
    if !acc.dom().contains(pv.slot) || ballot_lt(acc[pv.slot].0, pv.ballot_number) {
        acc.insert(pv.slot, (pv.ballot_number, pv.command))
    } else {
        acc
    }
}

/// The `pmax` merge of a sequence of reported PValues: per slot, the command
/// of the highest reported ballot (the first such report on a tie).
pub open spec fn pmax_fold(pvs: Seq<PValue>) -> Map<u64, (BallotNumber, Command)>
    decreases pvs.len(),
{
    if pvs.len() == 0 {
        Map::empty()
    } else {
        pmax_step(pmax_fold(pvs.drop_last()), pvs.last())
    }
}

/// A slot appears in the `pmax` merge exactly when some report carries it.
pub proof fn lemma_pmax_dom(pvs: Seq<PValue>, s: u64)
    ensures
        pmax_fold(pvs).dom().contains(s) <==> exists|i: int|
            0 <= i < pvs.len() && (#[trigger] pvs[i]).slot == s,
    decreases pvs.len(),
{
    if pvs.len() > 0 {
        lemma_pmax_dom(pvs.drop_last(), s);
        if pmax_fold(pvs).dom().contains(s) {
            if pvs.last().slot == s {
                assert(pvs[pvs.len() - 1].slot == s);
            } else {
                let i = choose|i: int|
                    0 <= i < pvs.drop_last().len() && (#[trigger] pvs.drop_last()[i]).slot == s;
                assert(pvs[i].slot == s);
            }
        }
        if exists|i: int| 0 <= i < pvs.len() && (#[trigger] pvs[i]).slot == s {
            let i = choose|i: int| 0 <= i < pvs.len() && (#[trigger] pvs[i]).slot == s;
            if i < pvs.len() - 1 {
                assert(pvs.drop_last()[i].slot == s);
            }
        }
    }
}

/// The `pmax` merge picks, for every reported slot, the command of a report
/// with the highest ballot among the reports for that slot.  This is the
/// adoption step of the agreement argument: whatever a quorum already
/// accepted under the highest ballot is what the newly adopted leader
/// drives.
pub proof fn lemma_pmax_picks_highest(pvs: Seq<PValue>, s: u64)
    requires
        exists|i: int| 0 <= i < pvs.len() && (#[trigger] pvs[i]).slot == s,
    ensures
        pmax_fold(pvs).dom().contains(s),
        exists|i: int|
            0 <= i < pvs.len() && (#[trigger] pvs[i]).slot == s && pvs[i].ballot_number
                == pmax_fold(pvs)[s].0 && pvs[i].command == pmax_fold(pvs)[s].1,
        forall|i: int|
            0 <= i < pvs.len() && (#[trigger] pvs[i]).slot == s ==> ballot_le(
                pvs[i].ballot_number,
                pmax_fold(pvs)[s].0,
            ),
    decreases pvs.len(),
{
    lemma_pmax_dom(pvs, s);
    let dl = pvs.drop_last();
    let last = pvs.last();
    let acc = pmax_fold(dl);
    if last.slot == s {
        if !acc.dom().contains(s) || ballot_lt(acc[s].0, last.ballot_number) {
            // The last report wins the slot.
            assert(pmax_fold(pvs)[s] == (last.ballot_number, last.command));
            assert(pvs[pvs.len() - 1].slot == s && pvs[pvs.len() - 1].ballot_number
                == pmax_fold(pvs)[s].0 && pvs[pvs.len() - 1].command == pmax_fold(pvs)[s].1);
            assert forall|i: int|
                0 <= i < pvs.len() && (#[trigger] pvs[i]).slot == s implies ballot_le(
                pvs[i].ballot_number,
                pmax_fold(pvs)[s].0,
            ) by {
                if i < pvs.len() - 1 {
                    assert(dl[i].slot == s);
                    lemma_pmax_dom(dl, s);
                    lemma_pmax_picks_highest(dl, s);
                    if ballot_lt(acc[s].0, last.ballot_number) {
                        crate::types::lemma_ballot_order_transitive(
                            pvs[i].ballot_number,
                            acc[s].0,
                            last.ballot_number,
                        );
                    }
                }
            }
        } else {
            // An earlier report holds the slot at a ballot at least as high.
            assert(pmax_fold(pvs)[s] == acc[s]);
            lemma_pmax_dom(dl, s);
            lemma_pmax_picks_highest(dl, s);
            let w = choose|i: int|
                0 <= i < dl.len() && (#[trigger] dl[i]).slot == s && dl[i].ballot_number == acc[s].0
                    && dl[i].command == acc[s].1;
            assert(pvs[w].slot == s && pvs[w].ballot_number == pmax_fold(pvs)[s].0 && pvs[w].command
                == pmax_fold(pvs)[s].1);
            assert forall|i: int|
                0 <= i < pvs.len() && (#[trigger] pvs[i]).slot == s implies ballot_le(
                pvs[i].ballot_number,
                pmax_fold(pvs)[s].0,
            ) by {
                if i < pvs.len() - 1 {
                    assert(dl[i].slot == s);
                } else {
                    // The last report did not beat the held ballot.
                    crate::types::lemma_ballot_order_total(last.ballot_number, acc[s].0);
                }
            }
        }
    } else {
        assert(pmax_fold(pvs)[s] == acc[s]);
        assert(exists|i: int| 0 <= i < dl.len() && (#[trigger] dl[i]).slot == s) by {
            let i = choose|i: int| 0 <= i < pvs.len() && (#[trigger] pvs[i]).slot == s;
            assert(dl[i].slot == s);
        }
        lemma_pmax_picks_highest(dl, s);
        let w = choose|i: int|
            0 <= i < dl.len() && (#[trigger] dl[i]).slot == s && dl[i].ballot_number == acc[s].0
                && dl[i].command == acc[s].1;
        assert(pvs[w].slot == s && pvs[w].ballot_number == pmax_fold(pvs)[s].0 && pvs[w].command
            == pmax_fold(pvs)[s].1);
        assert forall|i: int|
            0 <= i < pvs.len() && (#[trigger] pvs[i]).slot == s implies ballot_le(
            pvs[i].ballot_number,
            pmax_fold(pvs)[s].0,
        ) by {
            assert(i < pvs.len() - 1);
            assert(dl[i].slot == s);
        }
    }
}

/// `envs` is one P1a per acceptor of `cfg`, in the configuration's order.
pub open spec fn p1a_fanout(
    envs: Seq<SendableMessage>,
    cfg: Config,
    src_addr: Address,
    me: LeaderId,
    b: BallotNumber,
) -> bool {
    &&& envs.len() == cfg.acceptors@.len()
    &&& forall|j: int|
        0 <= j < envs.len() ==> env_is_p1a(
            #[trigger] envs[j],
            src_addr,
            cfg.id_address_map@[cfg.acceptors@[j].0],
            me,
            b,
        )
}

/// `envs` is one P2a per acceptor of `cfg`, in the configuration's order.
pub open spec fn p2a_fanout(
    envs: Seq<SendableMessage>,
    cfg: Config,
    src_addr: Address,
    me: LeaderId,
    b: BallotNumber,
    slot: u64,
    c: Command,
) -> bool {
    &&& envs.len() == cfg.acceptors@.len()
    &&& forall|j: int|
        0 <= j < envs.len() ==> env_is_p2a(
            #[trigger] envs[j],
            src_addr,
            cfg.id_address_map@[cfg.acceptors@[j].0],
            me,
            b,
            slot,
            c,
        )
}

/// `envs` is one Decision per replica of `cfg`, in the configuration's
/// order.
pub open spec fn decision_fanout(
    envs: Seq<SendableMessage>,
    cfg: Config,
    src_addr: Address,
    me: LeaderId,
    slot: u64,
    c: Command,
) -> bool {
    &&& envs.len() == cfg.replicas@.len()
    &&& forall|j: int|
        0 <= j < envs.len() ==> env_is_decision(
            #[trigger] envs[j],
            src_addr,
            cfg.id_address_map@[cfg.replicas@[j].0],
            me,
            slot,
            c,
        )
}

/// `envs` is a P2a fan-out for each proposal of `props` in order.
pub open spec fn p2a_batch(
    envs: Seq<SendableMessage>,
    props: Seq<(u64, Command)>,
    cfg: Config,
    src_addr: Address,
    me: LeaderId,
    b: BallotNumber,
) -> bool
    decreases props.len(),
{
    if props.len() == 0 {
        envs.len() == 0
    } else {
        &&& envs.len() >= cfg.acceptors@.len()
        &&& p2a_fanout(
            envs.take(cfg.acceptors@.len() as int),
            cfg,
            src_addr,
            me,
            b,
            props[0].0,
            props[0].1,
        )
        &&& p2a_batch(
            envs.skip(cfg.acceptors@.len() as int),
            props.drop_first(),
            cfg,
            src_addr,
            me,
            b,
        )
    }
}

/// Appending one more fan-out to a batch yields the batch of one more
/// proposal.
proof fn lemma_p2a_batch_snoc(
    envs: Seq<SendableMessage>,
    more: Seq<SendableMessage>,
    props: Seq<(u64, Command)>,
    slot: u64,
    c: Command,
    cfg: Config,
    src_addr: Address,
    me: LeaderId,
    b: BallotNumber,
)
    requires
        p2a_batch(envs, props, cfg, src_addr, me, b),
        p2a_fanout(more, cfg, src_addr, me, b, slot, c),
    ensures
        p2a_batch(envs + more, props.push((slot, c)), cfg, src_addr, me, b),
    decreases props.len(),
{
    let m = cfg.acceptors@.len() as int;
    let whole = props.push((slot, c));
    if props.len() == 0 {
        assert(envs.len() == 0);
        assert(envs + more =~= more);
        assert(more.take(m) =~= more);
        assert(more.skip(m) =~= Seq::<SendableMessage>::empty());
        assert(whole.drop_first() =~= Seq::<(u64, Command)>::empty());
        assert(whole[0] == (slot, c));
        assert((envs + more).len() >= m);
        assert(p2a_fanout((envs + more).take(m), cfg, src_addr, me, b, whole[0].0, whole[0].1));
        assert(p2a_batch((envs + more).skip(m), whole.drop_first(), cfg, src_addr, me, b));
    } else {
        lemma_p2a_batch_snoc(envs.skip(m), more, props.drop_first(), slot, c, cfg, src_addr, me, b);
        assert((envs + more).take(m) =~= envs.take(m));
        assert((envs + more).skip(m) =~= envs.skip(m) + more);
        assert(whole.drop_first() =~= props.drop_first().push((slot, c)));
        assert(whole[0] == props[0]);
        assert((envs + more).len() >= m);
        assert(p2a_fanout((envs + more).take(m), cfg, src_addr, me, b, whole[0].0, whole[0].1));
        assert(p2a_batch((envs + more).skip(m), whole.drop_first(), cfg, src_addr, me, b));
    }
}

/// A leader process.
pub struct Leader<C: ClockProvider> {
    pub node_id: LeaderId,
    pub address: Address,
    pub config: Config,
    pub mailbox: Mailbox,
    /// True exactly between an adoption of the current ballot and the next
    /// preemption.
    pub active: bool,
    /// The ballot this leader is trying to get adopted, or owns.
    pub ballot_number: BallotNumber,
    /// The command this leader drives per slot.
    pub proposals: KeyMap<u64, Command>,
    /// Phase-1 promises and reported PValues, per ballot.
    pub p1b_responses: KeyMap<BallotNumber, P1bTally>,
    /// Phase-2 acceptances, per slot.
    pub p2b_responses: KeyMap<u64, KeySet<AcceptorId>>,
    pub clock: C,
    /// The adaptive backoff, bounded by the configuration's timeout range.
    pub current_timeout: u64,
}

impl<C: ClockProvider> Leader<C> {
    /// The leader's invariant: a usable configuration, intact stores, a
    /// backoff within bounds, and a ballot of its own.
    pub open spec fn wf(&self) -> bool {
        &&& self.config.wf()
        &&& self.proposals.uniq()
        &&& self.p1b_responses.uniq()
        &&& self.p2b_responses.uniq()
        &&& forall|i: int|
            0 <= i < self.p1b_responses.entries().len() ==> (
            #[trigger] self.p1b_responses.entries()[i]).1.voters.uniq()
        &&& forall|i: int|
            0 <= i < self.p2b_responses.entries().len() ==> (
            #[trigger] self.p2b_responses.entries()[i]).1.uniq()
        &&& self.clock.wf()
        &&& self.config.timeout_config.min_timeout <= self.current_timeout
            <= self.config.timeout_config.max_timeout
        &&& self.ballot_number.leader == self.node_id
    }

    /// The acceptors that have promised ballot `b` so far.
    pub open spec fn prior_voters(pre: Self, b: BallotNumber) -> Seq<AcceptorId> {
        if pre.p1b_responses@.dom().contains(b) {
            pre.p1b_responses@[b].voters@
        } else {
            Seq::empty()
        }
    }

    /// The PValues reported for ballot `b` so far.
    pub open spec fn prior_pvalues(pre: Self, b: BallotNumber) -> Seq<PValue> {
        if pre.p1b_responses@.dom().contains(b) {
            pre.p1b_responses@[b].pvalues@
        } else {
            Seq::empty()
        }
    }

    /// The acceptors that have accepted slot `s` under phase 2 so far.
    pub open spec fn prior_accepters(pre: Self, s: u64) -> Seq<AcceptorId> {
        if pre.p2b_responses@.dom().contains(s) {
            pre.p2b_responses@[s]@
        } else {
            Seq::empty()
        }
    }

    /// What an adoption does, used by both the P1b quorum path and the
    /// internal Adopted signal: reset the backoff, cancel the pending scout
    /// retries for the adopted ballot, merge the reported PValues into the
    /// proposals by `pmax`, emit a P2a fan-out for every proposal, and turn
    /// active.
    pub open spec fn adoption_effect(pre: Self, post: Self, pvs: Seq<PValue>) -> bool {
        &&& post.active == true
        &&& post.ballot_number == pre.ballot_number
        &&& post.node_id == pre.node_id
        &&& post.address == pre.address
        &&& post.config == pre.config
        &&& post.current_timeout == pre.config.timeout_config.min_timeout
        &&& post.clock.timer_seq() == pre.clock.timer_seq().filter(
            not_matching(ClockAction::SendScout { ballot: pre.ballot_number }),
        )
        &&& post.p2b_responses == pre.p2b_responses
        &&& post.proposals.uniq()
        &&& forall|s: u64|
            #[trigger] pmax_fold(pvs).dom().contains(s) ==> post.proposals@.dom().contains(s)
                && cmd_eq_spec(post.proposals@[s], pmax_fold(pvs)[s].1)
        &&& forall|s: u64|
            !pmax_fold(pvs).dom().contains(s) ==> ((#[trigger] post.proposals@.dom().contains(s))
                <==> pre.proposals@.dom().contains(s)) && (pre.proposals@.dom().contains(s)
                ==> post.proposals@[s] == pre.proposals@[s])
        &&& post.mailbox.outbox@.len() >= pre.mailbox.outbox@.len()
        &&& post.mailbox.outbox@.take(pre.mailbox.outbox@.len() as int) == pre.mailbox.outbox@
        &&& p2a_batch(
            post.mailbox.outbox@.skip(pre.mailbox.outbox@.len() as int),
            post.proposals.entries(),
            pre.config,
            pre.address,
            pre.node_id,
            pre.ballot_number,
        )
    }

    /// Builds a leader, emits the P1a fan-out for its first ballot, and arms
    /// the scout retry.  Fails with `ConfigLookupMiss` unless the
    /// configuration is well formed and has an address for this leader;
    /// the error also stands for a malformed configuration, since a member
    /// without an address is the way such a configuration first bites.
    pub fn new(leader_id: LeaderId, config: Config, mailbox: Mailbox, clock: C) -> (r: Result<
        Leader<C>,
        PaxosError,
    >)
        requires
            clock.wf(),
        ensures
            r is Ok <==> config.wf() && config.id_address_map@.dom().contains(leader_id.0),
            match r {
                Ok(l) => {
                    &&& l.wf()
                    &&& l.node_id == leader_id
                    &&& l.address == config.id_address_map@[leader_id.0]
                    &&& l.config == config
                    &&& l.active == false
                    &&& l.ballot_number == (BallotNumber { round: 0, leader: leader_id })
                    &&& l.current_timeout == config.timeout_config.min_timeout
                    &&& l.proposals@ == Map::<u64, Command>::empty()
                    &&& l.p1b_responses.entries().len() == 0
                    &&& l.p2b_responses.entries().len() == 0
                    &&& l.mailbox.inbox == mailbox.inbox
                    &&& l.mailbox.outbox@.len() == mailbox.outbox@.len()
                        + config.acceptors@.len()
                    &&& l.mailbox.outbox@.take(mailbox.outbox@.len() as int) == mailbox.outbox@
                    &&& p1a_fanout(
                        l.mailbox.outbox@.skip(mailbox.outbox@.len() as int),
                        config,
                        config.id_address_map@[leader_id.0],
                        leader_id,
                        BallotNumber { round: 0, leader: leader_id },
                    )
                    &&& l.clock.timer_seq().len() == clock.timer_seq().len() + 1
                    &&& exists|idx: int|
                        {
                            &&& 0 <= idx < l.clock.timer_seq().len()
                            &&& (#[trigger] l.clock.timer_seq()[idx]).action
                                == (ClockAction::SendScout {
                                ballot: BallotNumber { round: 0, leader: leader_id },
                            })
                            &&& clock.time_known() ==> l.clock.timer_seq()[idx].when
                                == crate::nodes::clock::add_sat_spec(
                                clock.current(),
                                config.timeout_config.min_timeout,
                            )
                        }
                },
                Err(e) => e == PaxosError::ConfigLookupMiss,
            },
    {
        if !config.is_well_formed() {
            return Err(PaxosError::ConfigLookupMiss);
        }
        let addr = match config.get_address(leader_id.as_ref()) {
            Some(a) => a.clone(),
            None => {
                return Err(PaxosError::ConfigLookupMiss);
            },
        };
        let min_timeout = config.timeout_config.min_timeout;
        let ballot = BallotNumber::new(leader_id);
        let mut leader = Leader {
            node_id: leader_id,
            address: addr,
            config,
            mailbox,
            active: false,
            ballot_number: ballot,
            proposals: KeyMap::new(),
            p1b_responses: KeyMap::new(),
            p2b_responses: KeyMap::new(),
            clock,
            current_timeout: min_timeout,
        };
        // Start with a scout (phase 1) and arm one retry; backoff growth
        // only starts once a retry actually fires or a preemption arrives.
        match leader.send_p1a(ballot) {
            Ok(_) => (),
            Err(e) => {
                return Err(e);
            },
        }
        let delay = leader.current_timeout;
        let ghost clock_before = leader.clock;
        leader.clock.schedule(ClockAction::SendScout { ballot }, delay);
        proof {
            let (idx, w): (int, u64) = choose|idx: int, w: u64|
                {
                    &&& 0 <= idx <= clock_before.timer_seq().len()
                    &&& leader.clock.timer_seq() == clock_before.timer_seq().insert(
                        idx,
                        TimerEvent { when: w, action: ClockAction::SendScout { ballot } },
                    )
                    &&& clock_before.time_known() ==> w == crate::nodes::clock::add_sat_spec(
                        clock_before.current(),
                        delay,
                    )
                };
            assert(leader.clock.timer_seq()[idx].action == (ClockAction::SendScout { ballot }));
            assert(clock_before.time_known() ==> leader.clock.timer_seq()[idx].when
                == crate::nodes::clock::add_sat_spec(clock_before.current(), delay));
        }
        Ok(leader)
    }

    /// Queues an inbound envelope.
    pub fn accept_message(&mut self, msg: SendableMessage)
        ensures
            final(self).mailbox.inbox@ == old(self).mailbox.inbox@.push(msg),
            final(self).mailbox.outbox == old(self).mailbox.outbox,
            final(self).proposals == old(self).proposals,
            final(self).p1b_responses == old(self).p1b_responses,
            final(self).p2b_responses == old(self).p2b_responses,
            final(self).active == old(self).active,
            final(self).ballot_number == old(self).ballot_number,
            final(self).current_timeout == old(self).current_timeout,
            final(self).config == old(self).config,
            final(self).clock == old(self).clock,
            final(self).node_id == old(self).node_id,
            final(self).address == old(self).address,
            old(self).wf() ==> final(self).wf(),
    {
        self.mailbox.receive(msg);
    }

    /// Takes one envelope from the inbox and processes it.  Returns true
    /// exactly when an applicable message was handled without error; other
    /// payload variants are dropped.
    pub fn work_on_message(&mut self) -> (r: bool)
        requires
            old(self).wf(),
        ensures
            final(self).wf(),
            old(self).mailbox.inbox@.len() == 0 ==> r == false && final(self).active == old(self).active && final(self).ballot_number == old(self).ballot_number && final(self).proposals == old(self).proposals && final(self).mailbox.outbox == old(self).mailbox.outbox,
            old(self).mailbox.inbox@.len() > 0 ==> final(self).mailbox.inbox@ == old(self).mailbox.inbox@.drop_first(),
            old(self).mailbox.inbox@.len() > 0 ==> match old(self).mailbox.inbox@[0].message {
                Message::Propose(m) => r == true && Self::step_effect(
                    *old(self),
                    *final(self),
                    LeaderMessageIn::Propose(m),
                ),
                Message::P1b(m) => r == true && Self::step_effect(
                    *old(self),
                    *final(self),
                    LeaderMessageIn::P1b(m),
                ),
                Message::P2b(m) => r == true && Self::step_effect(
                    *old(self),
                    *final(self),
                    LeaderMessageIn::P2b(m),
                ),
                Message::Preempted(m) => r == true && Self::step_effect(
                    *old(self),
                    *final(self),
                    LeaderMessageIn::Preempted(m),
                ),
                Message::Adopted(m) => r == true && Self::step_effect(
                    *old(self),
                    *final(self),
                    LeaderMessageIn::Adopted(m),
                ),
                _ => r == false && final(self).active == old(self).active && final(self).ballot_number == old(self).ballot_number && final(self).proposals == old(self).proposals && final(self).p1b_responses == old(self).p1b_responses && final(self).p2b_responses == old(self).p2b_responses && final(self).current_timeout == old(self).current_timeout && final(self).clock == old(self).clock && final(self).mailbox.outbox == old(self).mailbox.outbox,
            },
            final(self).node_id == old(self).node_id,
            final(self).address == old(self).address,
            final(self).config == old(self).config,
    {
        let received_msg = match self.mailbox.process_latest_in() {
            None => {
                return false;
            },
            Some(msg_in) => msg_in,
        };
        let ghost mid = *self;
        let inbox_received = match received_msg.message {
            Message::Propose(m) => LeaderMessageIn::Propose(m),
            Message::P1b(m) => LeaderMessageIn::P1b(m),
            Message::P2b(m) => LeaderMessageIn::P2b(m),
            Message::Preempted(m) => LeaderMessageIn::Preempted(m),
            Message::Adopted(m) => LeaderMessageIn::Adopted(m),
            _ => {
                return false;
            },
        };
        let ghost gmsg = inbox_received;
        let handled = match self.handle_msg(inbox_received) {
            Ok(_) => true,
            Err(_) => false,
        };
        proof {
            Self::lemma_step_effect_frame(mid, *old(self), *self, gmsg);
        }
        handled
    }

    /// The leader's step relation: everything one [`Leader::handle_msg`]
    /// call does, stated between a pre state and a post state.  The inbox is
    /// deliberately not constrained, so the dispatcher that popped the
    /// envelope can state its own effect through this same relation.
    pub open spec fn step_effect(pre: Self, post: Self, msg: LeaderMessageIn) -> bool {
        &&& post.node_id == pre.node_id
        &&& post.address == pre.address
        &&& post.config == pre.config
        &&& match msg {
                LeaderMessageIn::Propose(m) => {
                    &&& post.active == pre.active
                    &&& post.ballot_number == pre.ballot_number
                    &&& post.current_timeout == pre.current_timeout
                    &&& post.clock == pre.clock
                    &&& post.p1b_responses == pre.p1b_responses
                    &&& post.p2b_responses == pre.p2b_responses
                    &&& if pre.proposals@.dom().contains(m.slot_number) {
                        &&& post.proposals == pre.proposals
                        &&& post.mailbox.outbox == pre.mailbox.outbox
                    } else {
                        &&& post.proposals@.dom() == pre.proposals@.dom().insert(
                            m.slot_number,
                        )
                        &&& cmd_eq_spec(post.proposals@[m.slot_number], m.command)
                        &&& forall|s: u64|
                            s != m.slot_number && pre.proposals@.dom().contains(s) ==> post.proposals@[s] == pre.proposals@[s]
                        &&& if pre.active {
                            &&& post.mailbox.outbox@.len() == pre.mailbox.outbox@.len()
                                + pre.config.acceptors@.len()
                            &&& post.mailbox.outbox@.take(
                                pre.mailbox.outbox@.len() as int,
                            ) == pre.mailbox.outbox@
                            &&& p2a_fanout(
                                post.mailbox.outbox@.skip(
                                    pre.mailbox.outbox@.len() as int,
                                ),
                                pre.config,
                                pre.address,
                                pre.node_id,
                                pre.ballot_number,
                                m.slot_number,
                                m.command,
                            )
                        } else {
                            post.mailbox.outbox == pre.mailbox.outbox
                        }
                    }
                },
                LeaderMessageIn::P1b(m) => {
                    let voters = if Self::prior_voters(pre, m.ballot_number).contains(
                        m.src,
                    ) {
                        Self::prior_voters(pre, m.ballot_number)
                    } else {
                        Self::prior_voters(pre, m.ballot_number).push(m.src)
                    };
                    let pvs = Self::prior_pvalues(pre, m.ballot_number) + m.accepted@;
                    let adopting = m.ballot_number == pre.ballot_number && voters.len()
                        >= quorum_size(pre.config);
                    &&& post.p1b_responses@.dom() == pre.p1b_responses@.dom().insert(m.ballot_number)
                    &&& post.p1b_responses@[m.ballot_number].voters@ == voters
                    &&& post.p1b_responses@[m.ballot_number].pvalues@ == pvs
                    &&& forall|b: BallotNumber|
                        b != m.ballot_number && pre.p1b_responses@.dom().contains(b)
                            ==> post.p1b_responses@[b] == pre.p1b_responses@[b]
                    &&& if adopting {
                        Self::adoption_effect(pre, post, pvs)
                    } else {
                        &&& post.active == pre.active
                        &&& post.ballot_number == pre.ballot_number
                        &&& post.current_timeout == pre.current_timeout
                        &&& post.clock == pre.clock
                        &&& post.proposals == pre.proposals
                        &&& post.p2b_responses == pre.p2b_responses
                        &&& post.mailbox.outbox == pre.mailbox.outbox
                    }
                },
                LeaderMessageIn::P2b(m) => {
                    let accepters = if Self::prior_accepters(pre, m.slot_number).contains(
                        m.src,
                    ) {
                        Self::prior_accepters(pre, m.slot_number)
                    } else {
                        Self::prior_accepters(pre, m.slot_number).push(m.src)
                    };
                    let deciding = accepters.len() >= quorum_size(pre.config) && pre.proposals@.dom().contains(m.slot_number);
                    &&& post.p2b_responses@.dom() == pre.p2b_responses@.dom().insert(
                        m.slot_number,
                    )
                    &&& post.p2b_responses@[m.slot_number]@ == accepters
                    &&& forall|s: u64|
                        s != m.slot_number && pre.p2b_responses@.dom().contains(s) ==> post.p2b_responses@[s] == pre.p2b_responses@[s]
                    &&& post.active == pre.active
                    &&& post.ballot_number == pre.ballot_number
                    &&& post.current_timeout == pre.current_timeout
                    &&& post.clock == pre.clock
                    &&& post.proposals == pre.proposals
                    &&& post.p1b_responses == pre.p1b_responses
                    &&& if deciding {
                        &&& post.mailbox.outbox@.len() == pre.mailbox.outbox@.len()
                            + pre.config.replicas@.len()
                        &&& post.mailbox.outbox@.take(pre.mailbox.outbox@.len() as int)
                            == pre.mailbox.outbox@
                        &&& decision_fanout(
                            post.mailbox.outbox@.skip(pre.mailbox.outbox@.len() as int),
                            pre.config,
                            pre.address,
                            pre.node_id,
                            m.slot_number,
                            pre.proposals@[m.slot_number],
                        )
                    } else {
                        post.mailbox.outbox == pre.mailbox.outbox
                    }
                },
                LeaderMessageIn::Preempted(m) => {
                    let bumped = BallotNumber {
                        round: if m.ballot_number.round == u64::MAX {
                            u64::MAX
                        } else {
                            (m.ballot_number.round + 1) as u64
                        },
                        leader: pre.node_id,
                    };
                    &&& if ballot_lt(pre.ballot_number, m.ballot_number) {
                        &&& post.active == false
                        &&& post.ballot_number == bumped
                        &&& post.proposals == pre.proposals
                        &&& post.p1b_responses == pre.p1b_responses
                        &&& post.p2b_responses == pre.p2b_responses
                        &&& post.mailbox.outbox == pre.mailbox.outbox
                        &&& post.current_timeout == scaled_timeout(
                            pre.current_timeout,
                            pre.config.timeout_config.timeout_multiplier_percent,
                            pre.config.timeout_config.max_timeout,
                        )
                        &&& post.clock.timer_seq().len() == pre.clock.timer_seq().len() + 1
                        &&& exists|idx: int|
                            {
                                &&& 0 <= idx < post.clock.timer_seq().len()
                                &&& (#[trigger] post.clock.timer_seq()[idx]).action
                                    == (ClockAction::SendScout { ballot: bumped })
                                &&& pre.clock.time_known() ==> post.clock.timer_seq()[idx].when
                                    == crate::nodes::clock::add_sat_spec(
                                    pre.clock.current(),
                                    if pre.current_timeout
                                        < pre.config.timeout_config.max_timeout {
                                        pre.current_timeout
                                    } else {
                                        pre.config.timeout_config.max_timeout
                                    },
                                )
                            }
                    } else {
                        &&& post.active == pre.active
                        &&& post.ballot_number == pre.ballot_number
                        &&& post.current_timeout == pre.current_timeout
                        &&& post.clock == pre.clock
                        &&& post.proposals == pre.proposals
                        &&& post.p1b_responses == pre.p1b_responses
                        &&& post.p2b_responses == pre.p2b_responses
                        &&& post.mailbox.outbox == pre.mailbox.outbox
                    }
                },
                LeaderMessageIn::Adopted(m) => {
                    &&& post.p1b_responses == pre.p1b_responses
                    &&& if m.ballot_number == pre.ballot_number {
                        Self::adoption_effect(pre, post, m.accepted@)
                    } else {
                        &&& post.active == pre.active
                        &&& post.ballot_number == pre.ballot_number
                        &&& post.current_timeout == pre.current_timeout
                        &&& post.clock == pre.clock
                        &&& post.proposals == pre.proposals
                        &&& post.p2b_responses == pre.p2b_responses
                        &&& post.mailbox.outbox == pre.mailbox.outbox
                    }
                },
            }
    }

    /// The step relation only reads the parts of the pre state it mentions:
    /// a pre state equal on those parts supports the same step.
    proof fn lemma_step_effect_frame(a: Self, a2: Self, b: Self, msg: LeaderMessageIn)
        requires
            Self::step_effect(a, b, msg),
            a2.proposals == a.proposals,
            a2.p1b_responses == a.p1b_responses,
            a2.p2b_responses == a.p2b_responses,
            a2.active == a.active,
            a2.ballot_number == a.ballot_number,
            a2.current_timeout == a.current_timeout,
            a2.clock == a.clock,
            a2.mailbox.outbox == a.mailbox.outbox,
            a2.node_id == a.node_id,
            a2.address == a.address,
            a2.config == a.config,
        ensures
            Self::step_effect(a2, b, msg),
    {
    }

    /// The adoption effect only reads the parts of the two states it
    /// mentions; states equal on those parts carry the same adoption.
    proof fn lemma_adoption_effect_frame(
        a: Self,
        a2: Self,
        b: Self,
        b2: Self,
        pvs: Seq<PValue>,
    )
        requires
            Self::adoption_effect(a, b, pvs),
            a2.ballot_number == a.ballot_number,
            a2.node_id == a.node_id,
            a2.address == a.address,
            a2.config == a.config,
            a2.clock == a.clock,
            a2.proposals == a.proposals,
            a2.p2b_responses == a.p2b_responses,
            a2.current_timeout == a.current_timeout,
            a2.mailbox.outbox == a.mailbox.outbox,
            b2.active == b.active,
            b2.ballot_number == b.ballot_number,
            b2.node_id == b.node_id,
            b2.address == b.address,
            b2.config == b.config,
            b2.clock == b.clock,
            b2.proposals == b.proposals,
            b2.p2b_responses == b.p2b_responses,
            b2.current_timeout == b.current_timeout,
            b2.mailbox.outbox == b.mailbox.outbox,
        ensures
            Self::adoption_effect(a2, b2, pvs),
    {
    }

    /// The leader's step function.
    ///
    /// Propose(s, c): record the proposal unless slot `s` is taken; while
    /// active also send the P2a fan-out.  P1b: tally the promise; once the
    /// current ballot has a majority, adopt it.  P2b: tally the acceptance;
    /// once slot `s` has a majority and a proposal, emit the Decision
    /// fan-out.  Preempted(b'): on a strictly greater ballot turn inactive,
    /// mint the next ballot above `b'`, back off, and arm a scout retry
    /// rather than send P1a at once.  Adopted(b): on the current ballot,
    /// perform the adoption.
    #[verifier::rlimit(60)]
    pub fn handle_msg(&mut self, msg: LeaderMessageIn) -> (r: Result<(), PaxosError>)
        requires
            old(self).wf(),
        ensures
            final(self).wf(),
            r is Ok,
            final(self).node_id == old(self).node_id,
            final(self).address == old(self).address,
            final(self).config == old(self).config,
            final(self).mailbox.inbox == old(self).mailbox.inbox,
            Self::step_effect(*old(self), *final(self), msg),
    {
        let ghost gmsg = msg;
        match msg {
            LeaderMessageIn::Propose(propose_msg) => {
                if !self.proposals.contains_key(&propose_msg.slot_number) {
                    self.proposals.insert(propose_msg.slot_number, propose_msg.command.clone());
                    proof {
                        assert(self.proposals@.dom() =~= old(self).proposals@.dom().insert(
                            propose_msg.slot_number,
                        ));
                        assert(cmd_eq_spec(
                            self.proposals@[propose_msg.slot_number],
                            propose_msg.command,
                        ));
                        assert(forall|s: u64|
                            s != propose_msg.slot_number && old(self).proposals@.dom().contains(s)
                                ==> self.proposals@[s] == old(self).proposals@[s]);
                    }
                    if self.active {
                        let b = self.ballot_number;
                        self.send_p2a(b, propose_msg.slot_number, propose_msg.command)?;
                    }
                }
                proof {
                    assert(Self::step_effect(*old(self), *self, gmsg));
                }
                Ok(())
            },
            LeaderMessageIn::P1b(p1b_msg) => {
                let ballot = p1b_msg.ballot_number;
                let quorum = self.config.acceptors.len() / 2 + 1;
                proof {
                    self.p1b_responses.lemma_view();
                    if self.p1b_responses@.dom().contains(ballot) {
                        let i = choose|i: int|
                            0 <= i < self.p1b_responses.entries().len()
                                && (#[trigger] self.p1b_responses.entries()[i]).0 == ballot;
                        assert(self.p1b_responses@[ballot] == self.p1b_responses.entries()[i].1);
                        assert(self.p1b_responses.entries()[i].1.voters.uniq());
                    }
                }
                let mut tally = match self.p1b_responses.remove(&ballot) {
                    Some(t) => t,
                    None => P1bTally { voters: KeySet::new(), pvalues: Vec::new() },
                };
                tally.voters.insert(p1b_msg.src);
                let mut reported = p1b_msg.accepted;
                tally.pvalues.append(&mut reported);
                let count = tally.voters.len();
                let ghost pre_adopt = *self;
                let ghost mut post_adopt = *self;
                if ballot == self.ballot_number && count >= quorum {
                    self.adopt(&tally.pvalues)?;
                    proof {
                        post_adopt = *self;
                    }
                }
                self.p1b_responses.insert(ballot, tally);
                proof {
                    let m = p1b_msg;
                    let voters = if Self::prior_voters(*old(self), m.ballot_number).contains(
                        m.src,
                    ) {
                        Self::prior_voters(*old(self), m.ballot_number)
                    } else {
                        Self::prior_voters(*old(self), m.ballot_number).push(m.src)
                    };
                    let pvs = Self::prior_pvalues(*old(self), m.ballot_number) + m.accepted@;
                    assert(self.p1b_responses@.dom() == old(self).p1b_responses@.dom().insert(
                        m.ballot_number,
                    ));
                    assert(self.p1b_responses@[m.ballot_number].voters@ == voters);
                    assert(self.p1b_responses@[m.ballot_number].pvalues@ == pvs);
                    assert(forall|b: BallotNumber|
                        b != m.ballot_number && old(self).p1b_responses@.dom().contains(b)
                            ==> self.p1b_responses@[b] == old(self).p1b_responses@[b]);
                    let adopting = m.ballot_number == old(self).ballot_number && voters.len()
                        >= quorum_size(old(self).config);
                    if adopting {
                        Self::lemma_adoption_effect_frame(
                            pre_adopt,
                            *old(self),
                            post_adopt,
                            *self,
                            pvs,
                        );
                    }
                    assert(Self::step_effect(*old(self), *self, gmsg));
                }
                Ok(())
            },
            LeaderMessageIn::P2b(p2b_msg) => {
                let slot = p2b_msg.slot_number;
                let quorum = self.config.acceptors.len() / 2 + 1;
                proof {
                    self.p2b_responses.lemma_view();
                    if self.p2b_responses@.dom().contains(slot) {
                        let i = choose|i: int|
                            0 <= i < self.p2b_responses.entries().len()
                                && (#[trigger] self.p2b_responses.entries()[i]).0 == slot;
                        assert(self.p2b_responses@[slot] == self.p2b_responses.entries()[i].1);
                        assert(self.p2b_responses.entries()[i].1.uniq());
                    }
                }
                let mut accepters = match self.p2b_responses.remove(&slot) {
                    Some(s) => s,
                    None => KeySet::new(),
                };
                accepters.insert(p2b_msg.src);
                let count = accepters.len();
                self.p2b_responses.insert(slot, accepters);
                if count >= quorum {
                    let command = match self.proposals.get(&slot) {
                        Some(c) => Some(c.clone()),
                        None => None,
                    };
                    match command {
                        Some(c) => {
                            self.send_decision(slot, c)?;
                        },
                        None => (),
                    }
                }
                proof {
                    let m = p2b_msg;
                    let accepters = if Self::prior_accepters(*old(self), m.slot_number).contains(
                        m.src,
                    ) {
                        Self::prior_accepters(*old(self), m.slot_number)
                    } else {
                        Self::prior_accepters(*old(self), m.slot_number).push(m.src)
                    };
                    assert(self.p2b_responses@.dom() == old(self).p2b_responses@.dom().insert(
                        m.slot_number,
                    ));
                    assert(self.p2b_responses@[m.slot_number]@ == accepters);
                    assert(forall|s2: u64|
                        s2 != m.slot_number && old(self).p2b_responses@.dom().contains(s2)
                            ==> self.p2b_responses@[s2] == old(self).p2b_responses@[s2]);
                    assert(Self::step_effect(*old(self), *self, gmsg));
                }
                Ok(())
            },
            LeaderMessageIn::Preempted(preempted_msg) => {
                if self.ballot_number.lt(&preempted_msg.ballot_number) {
                    self.active = false;
                    let round = if preempted_msg.ballot_number.round == u64::MAX {
                        u64::MAX
                    } else {
                        preempted_msg.ballot_number.round + 1
                    };
                    self.ballot_number = BallotNumber { round, leader: self.node_id };
                    // Back off and arm a scout retry; no immediate P1a.
                    self.schedule_scout_retry();
                }
                proof {
                    assert(Self::step_effect(*old(self), *self, gmsg));
                }
                Ok(())
            },
            LeaderMessageIn::Adopted(adopted_msg) => {
                if adopted_msg.ballot_number == self.ballot_number {
                    self.adopt(&adopted_msg.accepted)?;
                }
                proof {
                    assert(Self::step_effect(*old(self), *self, gmsg));
                }
                Ok(())
            },
        }
    }

    /// The adoption: reset the backoff, cancel pending scout retries for the
    /// adopted ballot, merge `pvalues` into the proposals by `pmax`, emit a
    /// P2a fan-out for every proposal under the current ballot, and turn
    /// active.
    #[verifier::rlimit(60)]
    fn adopt(&mut self, pvalues: &Vec<PValue>) -> (r: Result<(), PaxosError>)
        requires
            old(self).wf(),
        ensures
            final(self).wf(),
            r is Ok,
            final(self).p1b_responses == old(self).p1b_responses,
            final(self).mailbox.inbox == old(self).mailbox.inbox,
            Self::adoption_effect(*old(self), *final(self), pvalues@),
    {
        // Reset the backoff: phase 1 succeeded.
        self.current_timeout = self.config.timeout_config.min_timeout;
        // The scout retries for this ballot are moot now.
        let proto = ClockAction::SendScout { ballot: self.ballot_number };
        self.clock.cancel(&proto);
        let ghost clock_after_cancel = self.clock;
        // Merge the reported PValues: per slot, the highest ballot wins.
        let mut pmax: KeyMap<u64, BallotNumber> = KeyMap::new();
        let ghost pvs = pvalues@;
        let mut i: usize = 0;
        while i < pvalues.len()
            invariant
                i <= pvs.len(),
                pvalues@ == pvs,
                pmax.uniq(),
                self.proposals.uniq(),
                pmax@.dom() == pmax_fold(pvs.take(i as int)).dom(),
                forall|s: u64|
                    #[trigger] pmax@.dom().contains(s) ==> pmax@[s] == pmax_fold(
                        pvs.take(i as int),
                    )[s].0,
                forall|s: u64|
                    #[trigger] pmax_fold(pvs.take(i as int)).dom().contains(s) ==> self.proposals@.dom().contains(
                        s,
                    ) && cmd_eq_spec(self.proposals@[s], pmax_fold(pvs.take(i as int))[s].1),
                forall|s: u64|
                    !pmax_fold(pvs.take(i as int)).dom().contains(s) ==> ((
                    #[trigger] self.proposals@.dom().contains(s)) <==> old(self).proposals@.dom().contains(s)) && (old(self).proposals@.dom().contains(s)
                        ==> self.proposals@[s] == old(self).proposals@[s]),
                self.node_id == old(self).node_id,
                self.address == old(self).address,
                self.config == old(self).config,
                self.mailbox == old(self).mailbox,
                self.active == old(self).active,
                self.ballot_number == old(self).ballot_number,
                self.p1b_responses == old(self).p1b_responses,
                self.p2b_responses == old(self).p2b_responses,
                self.clock == clock_after_cancel,
                self.current_timeout == old(self).config.timeout_config.min_timeout,
                self.config.wf(),
            decreases pvs.len() - i,
        {
            let pv = &pvalues[i];
            let better = match pmax.get(&pv.slot) {
                None => true,
                Some(b) => b.lt(&pv.ballot_number),
            };
            proof {
                assert(pvs.take(i + 1 as int).drop_last() =~= pvs.take(i as int));
                assert(pvs.take(i + 1 as int).last() == pvs[i as int]);
            }
            if better {
                let ghost pre_props = self.proposals@;
                pmax.insert(pv.slot, pv.ballot_number);
                self.proposals.insert(pv.slot, pv.command.clone());
                proof {
                    assert(pmax_fold(pvs.take(i + 1 as int)) == pmax_fold(
                        pvs.take(i as int),
                    ).insert(pvs[i as int].slot, (pvs[i as int].ballot_number, pvs[i as int].command)));
                    assert(pmax@.dom() =~= pmax_fold(pvs.take(i + 1 as int)).dom());
                    assert forall|s: u64|
                        !pmax_fold(pvs.take(i + 1 as int)).dom().contains(s) implies ((
                    #[trigger] self.proposals@.dom().contains(s)) <==> old(
                        self,
                    ).proposals@.dom().contains(s)) && (old(self).proposals@.dom().contains(s)
                        ==> self.proposals@[s] == old(self).proposals@[s]) by {
                        assert(!pmax_fold(pvs.take(i as int)).dom().contains(s));
                        assert(s != pvs[i as int].slot);
                        assert(self.proposals@.dom().contains(s) == pre_props.dom().contains(s));
                        assert(pre_props.dom().contains(s) ==> self.proposals@[s] == pre_props[s]);
                    }
                }
            } else {
                proof {
                    assert(pmax_fold(pvs.take(i + 1 as int)) == pmax_fold(pvs.take(i as int)));
                    assert forall|s: u64|
                        !pmax_fold(pvs.take(i + 1 as int)).dom().contains(s) implies ((
                    #[trigger] self.proposals@.dom().contains(s)) <==> old(
                        self,
                    ).proposals@.dom().contains(s)) && (old(self).proposals@.dom().contains(s)
                        ==> self.proposals@[s] == old(self).proposals@[s]) by {
                        assert(!pmax_fold(pvs.take(i as int)).dom().contains(s));
                    }
                }
            }
            i = i + 1;
        }
        proof {
            assert(pvs.take(pvs.len() as int) =~= pvs);
        }
        // Start a commander (phase 2) for every proposal.
        let b = self.ballot_number;
        let mut snapshot: Vec<(u64, Command)> = Vec::new();
        let n = self.proposals.len();
        let mut i: usize = 0;
        while i < n
            invariant
                n == self.proposals.entries().len(),
                i <= n,
                self.proposals.uniq(),
                snapshot@.len() == i,
                forall|j: int|
                    0 <= j < i ==> (#[trigger] snapshot@[j]).0 == self.proposals.entries()[j].0
                        && cmd_eq_spec(snapshot@[j].1, self.proposals.entries()[j].1),
            decreases n - i,
        {
            let k = self.proposals.key_at(i);
            let c = self.proposals.val_at(i).clone();
            snapshot.push((k, c));
            i = i + 1;
        }
        let ghost base = self.mailbox.outbox@.len() as int;
        let ghost mid = *self;
        let mut i: usize = 0;
        while i < snapshot.len()
            invariant
                old(self).wf(),
                self.wf(),
                snapshot@.len() == mid.proposals.entries().len(),
                forall|j: int|
                    0 <= j < snapshot@.len() ==> (#[trigger] snapshot@[j]).0
                        == mid.proposals.entries()[j].0 && cmd_eq_spec(
                        snapshot@[j].1,
                        mid.proposals.entries()[j].1,
                    ),
                i <= snapshot@.len(),
                self.node_id == mid.node_id,
                self.address == mid.address,
                self.config == mid.config,
                self.active == mid.active,
                self.ballot_number == mid.ballot_number,
                self.proposals == mid.proposals,
                self.p1b_responses == mid.p1b_responses,
                self.p2b_responses == mid.p2b_responses,
                self.clock == mid.clock,
                self.current_timeout == mid.current_timeout,
                self.mailbox.inbox == mid.mailbox.inbox,
                base == mid.mailbox.outbox@.len(),
                self.mailbox.outbox@.len() >= base,
                self.mailbox.outbox@.take(base) == mid.mailbox.outbox@,
                b == mid.ballot_number,
                p2a_batch(
                    self.mailbox.outbox@.skip(base),
                    mid.proposals.entries().take(i as int),
                    mid.config,
                    mid.address,
                    mid.node_id,
                    mid.ballot_number,
                ),
            decreases snapshot@.len() - i,
        {
            let pair = &snapshot[i];
            let slot = pair.0;
            let c = pair.1.clone();
            let ghost outbox_before = self.mailbox.outbox@;
            self.send_p2a(b, slot, c)?;
            proof {
                let delta_old = outbox_before.skip(base);
                let more = self.mailbox.outbox@.skip(outbox_before.len() as int);
                assert(self.mailbox.outbox@.skip(base) =~= delta_old + more);
                assert(self.mailbox.outbox@.take(base) =~= mid.mailbox.outbox@);
                let target = mid.proposals.entries()[i as int].1;
                assert forall|j: int| 0 <= j < more.len() implies env_is_p2a(
                    #[trigger] more[j],
                    mid.address,
                    mid.config.id_address_map@[mid.config.acceptors@[j].0],
                    mid.node_id,
                    mid.ballot_number,
                    slot,
                    target,
                ) by {
                    let sent = more[j];
                    assert(env_is_p2a(
                        sent,
                        mid.address,
                        mid.config.id_address_map@[mid.config.acceptors@[j].0],
                        mid.node_id,
                        mid.ballot_number,
                        slot,
                        pair.1,
                    ));
                    let mc = sent.message->P2a_0.command;
                    lemma_cmd_eq_trans(mc, pair.1, target);
                }
                assert(p2a_fanout(
                    more,
                    mid.config,
                    mid.address,
                    mid.node_id,
                    mid.ballot_number,
                    slot,
                    target,
                ));
                lemma_p2a_batch_snoc(
                    delta_old,
                    more,
                    mid.proposals.entries().take(i as int),
                    slot,
                    target,
                    mid.config,
                    mid.address,
                    mid.node_id,
                    mid.ballot_number,
                );
                assert(mid.proposals.entries().take(i + 1 as int) =~= mid.proposals.entries().take(
                    i as int,
                ).push((slot, target)));
            }
            i = i + 1;
        }
        proof {
            assert(mid.proposals.entries().take(snapshot@.len() as int)
                =~= mid.proposals.entries());
        }
        // The ballot is adopted.
        self.active = true;
        Ok(())
    }

    /// Sends a P1a to every acceptor for `ballot`.
    pub fn send_p1a(&mut self, ballot: BallotNumber) -> (r: Result<(), PaxosError>)
        requires
            old(self).wf(),
        ensures
            final(self).wf(),
            r is Ok,
            final(self).node_id == old(self).node_id,
            final(self).address == old(self).address,
            final(self).config == old(self).config,
            final(self).clock == old(self).clock,
            final(self).active == old(self).active,
            final(self).ballot_number == old(self).ballot_number,
            final(self).current_timeout == old(self).current_timeout,
            final(self).proposals == old(self).proposals,
            final(self).p1b_responses == old(self).p1b_responses,
            final(self).p2b_responses == old(self).p2b_responses,
            final(self).mailbox.inbox == old(self).mailbox.inbox,
            final(self).mailbox.outbox@.len() == old(self).mailbox.outbox@.len() + old(self).config.acceptors@.len(),
            final(self).mailbox.outbox@.take(old(self).mailbox.outbox@.len() as int) == old(self).mailbox.outbox@,
            p1a_fanout(
                final(self).mailbox.outbox@.skip(old(self).mailbox.outbox@.len() as int),
                old(self).config,
                old(self).address,
                old(self).node_id,
                ballot,
            ),
    {
        let ghost base = self.mailbox.outbox@.len() as int;
        let n = self.config.acceptors.len();
        let mut i: usize = 0;
        while i < n
            invariant
                old(self).wf(),
                n == self.config.acceptors@.len(),
                i <= n,
                self.node_id == old(self).node_id,
                self.address == old(self).address,
                self.config == old(self).config,
                self.clock == old(self).clock,
                self.active == old(self).active,
                self.ballot_number == old(self).ballot_number,
                self.current_timeout == old(self).current_timeout,
                self.proposals == old(self).proposals,
                self.p1b_responses == old(self).p1b_responses,
                self.p2b_responses == old(self).p2b_responses,
                self.mailbox.inbox == old(self).mailbox.inbox,
                base == old(self).mailbox.outbox@.len(),
                self.mailbox.outbox@.len() == base + i,
                self.mailbox.outbox@.take(base) == old(self).mailbox.outbox@,
                forall|j: int|
                    0 <= j < i ==> env_is_p1a(
                        #[trigger] self.mailbox.outbox@.skip(base)[j],
                        old(self).address,
                        old(self).config.id_address_map@[old(self).config.acceptors@[j].0],
                        old(self).node_id,
                        ballot,
                    ),
            decreases n - i,
        {
            let acc = self.config.acceptors.get(i);
            let msg = P1aMessage { src: self.node_id, ballot_number: ballot };
            let acc_address = match self.config.get_address(acc.as_ref()) {
                Some(a) => a.clone(),
                None => {
                    proof {
                        assert(false);
                    }
                    return Err(PaxosError::ConfigLookupMiss);
                },
            };
            let sendable = SendableMessage {
                src: self.address.clone(),
                dst: acc_address,
                message: Message::P1a(msg),
            };
            let ghost pre_delta = self.mailbox.outbox@.skip(base);
            self.mailbox.send(sendable);
            proof {
                assert(self.mailbox.outbox@.skip(base) =~= pre_delta.push(sendable));
                assert(self.mailbox.outbox@.take(base) =~= old(self).mailbox.outbox@);
            }
            i = i + 1;
        }
        Ok(())
    }

    /// Sends a P2a for `(ballot, slot, command)` to every acceptor.
    pub fn send_p2a(&mut self, ballot: BallotNumber, slot: u64, command: Command) -> (r: Result<
        (),
        PaxosError,
    >)
        requires
            old(self).wf(),
        ensures
            final(self).wf(),
            r is Ok,
            final(self).node_id == old(self).node_id,
            final(self).address == old(self).address,
            final(self).config == old(self).config,
            final(self).clock == old(self).clock,
            final(self).active == old(self).active,
            final(self).ballot_number == old(self).ballot_number,
            final(self).current_timeout == old(self).current_timeout,
            final(self).proposals == old(self).proposals,
            final(self).p1b_responses == old(self).p1b_responses,
            final(self).p2b_responses == old(self).p2b_responses,
            final(self).mailbox.inbox == old(self).mailbox.inbox,
            final(self).mailbox.outbox@.len() == old(self).mailbox.outbox@.len() + old(self).config.acceptors@.len(),
            final(self).mailbox.outbox@.take(old(self).mailbox.outbox@.len() as int) == old(self).mailbox.outbox@,
            p2a_fanout(
                final(self).mailbox.outbox@.skip(old(self).mailbox.outbox@.len() as int),
                old(self).config,
                old(self).address,
                old(self).node_id,
                ballot,
                slot,
                command,
            ),
    {
        let ghost base = self.mailbox.outbox@.len() as int;
        let n = self.config.acceptors.len();
        let mut i: usize = 0;
        while i < n
            invariant
                old(self).wf(),
                n == self.config.acceptors@.len(),
                i <= n,
                self.node_id == old(self).node_id,
                self.address == old(self).address,
                self.config == old(self).config,
                self.clock == old(self).clock,
                self.active == old(self).active,
                self.ballot_number == old(self).ballot_number,
                self.current_timeout == old(self).current_timeout,
                self.proposals == old(self).proposals,
                self.p1b_responses == old(self).p1b_responses,
                self.p2b_responses == old(self).p2b_responses,
                self.mailbox.inbox == old(self).mailbox.inbox,
                base == old(self).mailbox.outbox@.len(),
                self.mailbox.outbox@.len() == base + i,
                self.mailbox.outbox@.take(base) == old(self).mailbox.outbox@,
                forall|j: int|
                    0 <= j < i ==> env_is_p2a(
                        #[trigger] self.mailbox.outbox@.skip(base)[j],
                        old(self).address,
                        old(self).config.id_address_map@[old(self).config.acceptors@[j].0],
                        old(self).node_id,
                        ballot,
                        slot,
                        command,
                    ),
            decreases n - i,
        {
            let acc = self.config.acceptors.get(i);
            let msg = P2aMessage {
                src: self.node_id,
                ballot_number: ballot,
                slot_number: slot,
                command: command.clone(),
            };
            let acc_address = match self.config.get_address(acc.as_ref()) {
                Some(a) => a.clone(),
                None => {
                    proof {
                        assert(false);
                    }
                    return Err(PaxosError::ConfigLookupMiss);
                },
            };
            let sendable = SendableMessage {
                src: self.address.clone(),
                dst: acc_address,
                message: Message::P2a(msg),
            };
            let ghost pre_delta = self.mailbox.outbox@.skip(base);
            self.mailbox.send(sendable);
            proof {
                assert(self.mailbox.outbox@.skip(base) =~= pre_delta.push(sendable));
                assert(self.mailbox.outbox@.take(base) =~= old(self).mailbox.outbox@);
            }
            i = i + 1;
        }
        Ok(())
    }

    /// Sends a Decision for `(slot, command)` to every replica.
    pub fn send_decision(&mut self, slot: u64, command: Command) -> (r: Result<(), PaxosError>)
        requires
            old(self).wf(),
        ensures
            final(self).wf(),
            r is Ok,
            final(self).node_id == old(self).node_id,
            final(self).address == old(self).address,
            final(self).config == old(self).config,
            final(self).clock == old(self).clock,
            final(self).active == old(self).active,
            final(self).ballot_number == old(self).ballot_number,
            final(self).current_timeout == old(self).current_timeout,
            final(self).proposals == old(self).proposals,
            final(self).p1b_responses == old(self).p1b_responses,
            final(self).p2b_responses == old(self).p2b_responses,
            final(self).mailbox.inbox == old(self).mailbox.inbox,
            final(self).mailbox.outbox@.len() == old(self).mailbox.outbox@.len() + old(self).config.replicas@.len(),
            final(self).mailbox.outbox@.take(old(self).mailbox.outbox@.len() as int) == old(self).mailbox.outbox@,
            decision_fanout(
                final(self).mailbox.outbox@.skip(old(self).mailbox.outbox@.len() as int),
                old(self).config,
                old(self).address,
                old(self).node_id,
                slot,
                command,
            ),
    {
        let ghost base = self.mailbox.outbox@.len() as int;
        let n = self.config.replicas.len();
        let mut i: usize = 0;
        while i < n
            invariant
                old(self).wf(),
                n == self.config.replicas@.len(),
                i <= n,
                self.node_id == old(self).node_id,
                self.address == old(self).address,
                self.config == old(self).config,
                self.clock == old(self).clock,
                self.active == old(self).active,
                self.ballot_number == old(self).ballot_number,
                self.current_timeout == old(self).current_timeout,
                self.proposals == old(self).proposals,
                self.p1b_responses == old(self).p1b_responses,
                self.p2b_responses == old(self).p2b_responses,
                self.mailbox.inbox == old(self).mailbox.inbox,
                base == old(self).mailbox.outbox@.len(),
                self.mailbox.outbox@.len() == base + i,
                self.mailbox.outbox@.take(base) == old(self).mailbox.outbox@,
                forall|j: int|
                    0 <= j < i ==> env_is_decision(
                        #[trigger] self.mailbox.outbox@.skip(base)[j],
                        old(self).address,
                        old(self).config.id_address_map@[old(self).config.replicas@[j].0],
                        old(self).node_id,
                        slot,
                        command,
                    ),
            decreases n - i,
        {
            let rep = self.config.replicas.get(i);
            let msg = DecisionMessage {
                src: self.node_id,
                slot_number: slot,
                command: command.clone(),
            };
            let rep_address = match self.config.get_address(rep.as_ref()) {
                Some(a) => a.clone(),
                None => {
                    proof {
                        assert(false);
                    }
                    return Err(PaxosError::ConfigLookupMiss);
                },
            };
            let sendable = SendableMessage {
                src: self.address.clone(),
                dst: rep_address,
                message: Message::Decision(msg),
            };
            let ghost pre_delta = self.mailbox.outbox@.skip(base);
            self.mailbox.send(sendable);
            proof {
                assert(self.mailbox.outbox@.skip(base) =~= pre_delta.push(sendable));
                assert(self.mailbox.outbox@.take(base) =~= old(self).mailbox.outbox@);
            }
            i = i + 1;
        }
        Ok(())
    }

    /// Everything one [`Leader::handle_timer`] call does, stated between a
    /// pre state and a post state.
    pub open spec fn timer_effect(pre: Self, post: Self, action: ClockAction) -> bool {
        &&& post.mailbox.inbox == pre.mailbox.inbox
        &&& post.node_id == pre.node_id
        &&& post.address == pre.address
        &&& post.config == pre.config
        &&& post.active == pre.active
        &&& post.ballot_number == pre.ballot_number
        &&& post.proposals == pre.proposals
        &&& post.p1b_responses == pre.p1b_responses
        &&& post.p2b_responses == pre.p2b_responses
        &&& action is LeaderHeartbeat ==> post.current_timeout == pre.config.timeout_config.min_timeout && post.clock == pre.clock && post.mailbox.outbox == pre.mailbox.outbox
        &&& action matches ClockAction::SendScout { ballot } ==> {
                &&& post.mailbox.outbox@.len() == pre.mailbox.outbox@.len() + pre.config.acceptors@.len()
                &&& post.mailbox.outbox@.take(pre.mailbox.outbox@.len() as int)
                    == pre.mailbox.outbox@
                &&& p1a_fanout(
                    post.mailbox.outbox@.skip(pre.mailbox.outbox@.len() as int),
                    pre.config,
                    pre.address,
                    pre.node_id,
                    ballot,
                )
                &&& post.current_timeout == scaled_timeout(
                    pre.current_timeout,
                    pre.config.timeout_config.timeout_multiplier_percent,
                    pre.config.timeout_config.max_timeout,
                )
                &&& post.clock.timer_seq().len() == pre.clock.timer_seq().len() + 1
                &&& exists|idx: int|
                    {
                        &&& 0 <= idx < post.clock.timer_seq().len()
                        &&& (#[trigger] post.clock.timer_seq()[idx]).action
                            == (ClockAction::SendScout { ballot: pre.ballot_number })
                        &&& pre.clock.time_known() ==> post.clock.timer_seq()[
                            idx
                        ].when == crate::nodes::clock::add_sat_spec(
                            pre.clock.current(),
                            if pre.current_timeout
                                < pre.config.timeout_config.max_timeout {
                                pre.current_timeout
                            } else {
                                pre.config.timeout_config.max_timeout
                            },
                        )
                    }
            }
        &&& action matches ClockAction::RetryProposal { slot } ==> {
                &&& post.clock == pre.clock
                &&& post.current_timeout == pre.current_timeout
                &&& if pre.active && pre.proposals@.dom().contains(slot) {
                    &&& post.mailbox.outbox@.len() == pre.mailbox.outbox@.len()
                        + pre.config.acceptors@.len()
                    &&& post.mailbox.outbox@.take(pre.mailbox.outbox@.len() as int)
                        == pre.mailbox.outbox@
                    &&& p2a_fanout(
                        post.mailbox.outbox@.skip(pre.mailbox.outbox@.len() as int),
                        pre.config,
                        pre.address,
                        pre.node_id,
                        pre.ballot_number,
                        slot,
                        pre.proposals@[slot],
                    )
                } else {
                    post.mailbox.outbox == pre.mailbox.outbox
                }
            }
        &&& !(action is SendScout || action is RetryProposal || action is LeaderHeartbeat)
                ==> post == pre
    }

    /// The timer effect depends only on the action's content.
    proof fn lemma_timer_effect_eq(pre: Self, post: Self, a: ClockAction, b: ClockAction)
        requires
            Self::timer_effect(pre, post, a),
            crate::nodes::clock::act_eq_spec(a, b),
        ensures
            Self::timer_effect(pre, post, b),
    {
    }

    /// `actions` were handled one after the other, each as
    /// [`Leader::handle_timer`] says.
    pub open spec fn timers_handled(pre: Self, post: Self, actions: Seq<ClockAction>) -> bool
        decreases actions.len(),
    {
        if actions.len() == 0 {
            post == pre
        } else {
            exists|mid: Leader<C>|
                #[trigger] Self::timer_effect(pre, mid, actions[0]) && Self::timers_handled(
                    mid,
                    post,
                    actions.drop_first(),
                )
        }
    }

    /// A handled chain extends by one more handled action.
    proof fn lemma_timers_handled_snoc(
        pre: Self,
        mid: Self,
        post: Self,
        actions: Seq<ClockAction>,
        a: ClockAction,
    )
        requires
            Self::timers_handled(pre, mid, actions),
            Self::timer_effect(mid, post, a),
        ensures
            Self::timers_handled(pre, post, actions.push(a)),
        decreases actions.len(),
    {
        let whole = actions.push(a);
        if actions.len() == 0 {
            assert(pre == mid);
            assert(whole[0] == a);
            assert(whole.drop_first() =~= Seq::<ClockAction>::empty());
            assert(Self::timers_handled(post, post, whole.drop_first()));
            assert(Self::timer_effect(pre, post, whole[0]) && Self::timers_handled(
                post,
                post,
                whole.drop_first(),
            ));
        } else {
            let m1 = choose|m1: Leader<C>|
                #[trigger] Self::timer_effect(pre, m1, actions[0]) && Self::timers_handled(
                    m1,
                    mid,
                    actions.drop_first(),
                );
            Self::lemma_timers_handled_snoc(m1, mid, post, actions.drop_first(), a);
            assert(whole.drop_first() =~= actions.drop_first().push(a));
            assert(whole[0] == actions[0]);
            assert(Self::timer_effect(pre, m1, whole[0]) && Self::timers_handled(
                m1,
                post,
                whole.drop_first(),
            ));
        }
    }

    /// Reacts to a timer action.  A scout retry re-sends the P1a fan-out for
    /// the carried ballot and re-arms itself with backoff; a proposal retry
    /// re-sends the P2a while active; the heartbeat resets the backoff.
    pub fn handle_timer(&mut self, action: ClockAction) -> (r: Result<(), PaxosError>)
        requires
            old(self).wf(),
        ensures
            final(self).wf(),
            r is Ok,
            final(self).node_id == old(self).node_id,
            final(self).address == old(self).address,
            final(self).config == old(self).config,
            final(self).active == old(self).active,
            final(self).ballot_number == old(self).ballot_number,
            final(self).proposals == old(self).proposals,
            final(self).p1b_responses == old(self).p1b_responses,
            final(self).p2b_responses == old(self).p2b_responses,
            final(self).mailbox.inbox == old(self).mailbox.inbox,
            action is LeaderHeartbeat ==> final(self).current_timeout == old(self).config.timeout_config.min_timeout && final(self).clock == old(self).clock && final(self).mailbox.outbox == old(self).mailbox.outbox,
            action matches ClockAction::SendScout { ballot } ==> {
                &&& final(self).mailbox.outbox@.len() == old(self).mailbox.outbox@.len() + old(self).config.acceptors@.len()
                &&& final(self).mailbox.outbox@.take(old(self).mailbox.outbox@.len() as int)
                    == old(self).mailbox.outbox@
                &&& p1a_fanout(
                    final(self).mailbox.outbox@.skip(old(self).mailbox.outbox@.len() as int),
                    old(self).config,
                    old(self).address,
                    old(self).node_id,
                    ballot,
                )
                &&& final(self).current_timeout == scaled_timeout(
                    old(self).current_timeout,
                    old(self).config.timeout_config.timeout_multiplier_percent,
                    old(self).config.timeout_config.max_timeout,
                )
                &&& final(self).clock.timer_seq().len() == old(self).clock.timer_seq().len() + 1
                &&& exists|idx: int|
                    {
                        &&& 0 <= idx < final(self).clock.timer_seq().len()
                        &&& (#[trigger] final(self).clock.timer_seq()[idx]).action
                            == (ClockAction::SendScout { ballot: old(self).ballot_number })
                        &&& old(self).clock.time_known() ==> final(self).clock.timer_seq()[
                            idx
                        ].when == crate::nodes::clock::add_sat_spec(
                            old(self).clock.current(),
                            if old(self).current_timeout
                                < old(self).config.timeout_config.max_timeout {
                                old(self).current_timeout
                            } else {
                                old(self).config.timeout_config.max_timeout
                            },
                        )
                    }
            },
            action matches ClockAction::RetryProposal { slot } ==> {
                &&& final(self).clock == old(self).clock
                &&& final(self).current_timeout == old(self).current_timeout
                &&& if old(self).active && old(self).proposals@.dom().contains(slot) {
                    &&& final(self).mailbox.outbox@.len() == old(self).mailbox.outbox@.len()
                        + old(self).config.acceptors@.len()
                    &&& final(self).mailbox.outbox@.take(old(self).mailbox.outbox@.len() as int)
                        == old(self).mailbox.outbox@
                    &&& p2a_fanout(
                        final(self).mailbox.outbox@.skip(old(self).mailbox.outbox@.len() as int),
                        old(self).config,
                        old(self).address,
                        old(self).node_id,
                        old(self).ballot_number,
                        slot,
                        old(self).proposals@[slot],
                    )
                } else {
                    final(self).mailbox.outbox == old(self).mailbox.outbox
                }
            },
            !(action is SendScout || action is RetryProposal || action is LeaderHeartbeat)
                ==> *final(self) == *old(self),
    {
        match action {
            ClockAction::SendScout { ballot } => {
                // Retry phase 1 with the carried ballot and re-arm with
                // backoff.
                self.send_p1a(ballot)?;
                self.schedule_scout_retry();
                Ok(())
            },
            ClockAction::RetryProposal { slot } => {
                let command = match self.proposals.get(&slot) {
                    Some(c) => Some(c.clone()),
                    None => None,
                };
                match command {
                    Some(c) => {
                        if self.active {
                            let b = self.ballot_number;
                            let ghost outbox_before = self.mailbox.outbox@;
                            self.send_p2a(b, slot, c)?;
                            proof {
                                let base = old(self).mailbox.outbox@.len() as int;
                                let target = old(self).proposals@[slot];
                                assert forall|j: int|
                                    0 <= j < self.mailbox.outbox@.skip(base).len() implies env_is_p2a(
                                    #[trigger] self.mailbox.outbox@.skip(base)[j],
                                    old(self).address,
                                    old(self).config.id_address_map@[old(self).config.acceptors@[
                                        j
                                    ].0],
                                    old(self).node_id,
                                    old(self).ballot_number,
                                    slot,
                                    target,
                                ) by {
                                    let sent = self.mailbox.outbox@.skip(base)[j];
                                    let mc = sent.message->P2a_0.command;
                                    lemma_cmd_eq_trans(mc, c, target);
                                }
                            }
                        }
                    },
                    None => (),
                }
                Ok(())
            },
            ClockAction::LeaderHeartbeat => {
                self.reset_timeout();
                Ok(())
            },
            _ => Ok(()),
        }
    }

    /// Arms a scout retry for the current ballot after the current backoff,
    /// then grows the backoff geometrically, clamped to the maximum.
    fn schedule_scout_retry(&mut self)
        requires
            old(self).wf(),
        ensures
            final(self).wf(),
            final(self).node_id == old(self).node_id,
            final(self).address == old(self).address,
            final(self).config == old(self).config,
            final(self).active == old(self).active,
            final(self).ballot_number == old(self).ballot_number,
            final(self).proposals == old(self).proposals,
            final(self).p1b_responses == old(self).p1b_responses,
            final(self).p2b_responses == old(self).p2b_responses,
            final(self).mailbox == old(self).mailbox,
            final(self).current_timeout == scaled_timeout(
                old(self).current_timeout,
                old(self).config.timeout_config.timeout_multiplier_percent,
                old(self).config.timeout_config.max_timeout,
            ),
            final(self).clock.timer_seq().len() == old(self).clock.timer_seq().len() + 1,
            exists|idx: int|
                {
                    &&& 0 <= idx < final(self).clock.timer_seq().len()
                    &&& (#[trigger] final(self).clock.timer_seq()[idx]).action
                        == (ClockAction::SendScout { ballot: old(self).ballot_number })
                    &&& old(self).clock.time_known() ==> final(self).clock.timer_seq()[idx].when
                        == crate::nodes::clock::add_sat_spec(
                        old(self).clock.current(),
                        if old(self).current_timeout < old(self).config.timeout_config.max_timeout {
                            old(self).current_timeout
                        } else {
                            old(self).config.timeout_config.max_timeout
                        },
                    )
                },
    {
        let timeout = if self.current_timeout < self.config.timeout_config.max_timeout {
            self.current_timeout
        } else {
            self.config.timeout_config.max_timeout
        };
        let b = self.ballot_number;
        self.clock.schedule(ClockAction::SendScout { ballot: b }, timeout);
        proof {
            let (idx, w): (int, u64) = choose|idx: int, w: u64|
                {
                    &&& 0 <= idx <= old(self).clock.timer_seq().len()
                    &&& self.clock.timer_seq() == old(self).clock.timer_seq().insert(
                        idx,
                        TimerEvent { when: w, action: ClockAction::SendScout { ballot: b } },
                    )
                    &&& old(self).clock.time_known() ==> w == crate::nodes::clock::add_sat_spec(
                        old(self).clock.current(),
                        timeout,
                    )
                };
            assert(self.clock.timer_seq()[idx].action == (ClockAction::SendScout { ballot: b }));
        }
        // Geometric backoff for the next retry.
        proof {
            let t = self.current_timeout;
            let pct = self.config.timeout_config.timeout_multiplier_percent;
            assert(t * pct <= 0xffff_ffff * 10000) by (nonlinear_arith)
                requires
                    t <= 0xffff_ffff,
                    pct <= 10000,
            ;
            assert(t <= t * pct / 100) by (nonlinear_arith)
                requires
                    100 <= pct,
                    0 <= t,
            ;
        }
        let scaled = self.current_timeout * self.config.timeout_config.timeout_multiplier_percent
            / 100;
        self.current_timeout = if scaled < self.config.timeout_config.max_timeout {
            scaled
        } else {
            self.config.timeout_config.max_timeout
        };
        proof {
            let (idx, w): (int, u64) = choose|idx: int, w: u64|
                {
                    &&& 0 <= idx <= old(self).clock.timer_seq().len()
                    &&& self.clock.timer_seq() == old(self).clock.timer_seq().insert(
                        idx,
                        TimerEvent { when: w, action: ClockAction::SendScout { ballot: b } },
                    )
                    &&& old(self).clock.time_known() ==> w == crate::nodes::clock::add_sat_spec(
                        old(self).clock.current(),
                        timeout,
                    )
                };
            assert(self.clock.timer_seq()[idx].action == (ClockAction::SendScout { ballot: b }));
            assert(old(self).clock.time_known() ==> self.clock.timer_seq()[idx].when
                == crate::nodes::clock::add_sat_spec(old(self).clock.current(), timeout));
        }
    }

    /// Resets the backoff to the minimum; called on successful phases.
    fn reset_timeout(&mut self)
        ensures
            final(self).current_timeout == old(self).config.timeout_config.min_timeout,
            final(self).node_id == old(self).node_id,
            final(self).address == old(self).address,
            final(self).config == old(self).config,
            final(self).active == old(self).active,
            final(self).ballot_number == old(self).ballot_number,
            final(self).proposals == old(self).proposals,
            final(self).p1b_responses == old(self).p1b_responses,
            final(self).p2b_responses == old(self).p2b_responses,
            final(self).mailbox == old(self).mailbox,
            final(self).clock == old(self).clock,
            old(self).wf() ==> final(self).wf(),
    {
        self.current_timeout = self.config.timeout_config.min_timeout;
    }

    /// Fires the due timers: collects them from the clock and handles each
    /// in order.  Returns the actions that fired.
    pub fn check_timers(&mut self) -> (r: Result<Vec<ClockAction>, PaxosError>)
        requires
            old(self).wf(),
        ensures
            final(self).wf(),
            r is Ok,
            final(self).node_id == old(self).node_id,
            final(self).address == old(self).address,
            final(self).config == old(self).config,
            match r {
                Ok(actions) => {
                    &&& actions@.len() <= old(self).clock.timer_seq().len()
                    &&& forall|j: int|
                        0 <= j < actions@.len() ==> actions@[j] == old(self).clock.timer_seq()[
                            j
                        ].action
                    &&& old(self).clock.time_known() ==> (forall|j: int|
                        0 <= j < actions@.len() ==> old(self).clock.timer_seq()[j].when <= old(self).clock.current()) && (forall|j: int|
                        actions@.len() <= j < old(self).clock.timer_seq().len() ==> old(self).clock.timer_seq()[j].when > old(self).clock.current())
                    &&& exists|start: Leader<C>|
                        {
                            &&& start.node_id == old(self).node_id
                            &&& start.address == old(self).address
                            &&& start.config == old(self).config
                            &&& start.mailbox == old(self).mailbox
                            &&& start.active == old(self).active
                            &&& start.ballot_number == old(self).ballot_number
                            &&& start.current_timeout == old(self).current_timeout
                            &&& start.proposals == old(self).proposals
                            &&& start.p1b_responses == old(self).p1b_responses
                            &&& start.p2b_responses == old(self).p2b_responses
                            &&& start.clock.timer_seq() == old(self).clock.timer_seq().skip(
                                actions@.len() as int,
                            )
                            &&& #[trigger] Self::timers_handled(start, *final(self), actions@)
                        }
                },
                Err(_) => false,
            },
    {
        let expired = self.clock.check_timers();
        let ghost start0 = *self;
        let mut i: usize = 0;
        while i < expired.len()
            invariant
                self.wf(),
                self.node_id == old(self).node_id,
                self.address == old(self).address,
                self.config == old(self).config,
                i <= expired@.len(),
                Self::timers_handled(start0, *self, expired@.take(i as int)),
            decreases expired@.len() - i,
        {
            let ghost prev = *self;
            let action = expired[i].clone();
            let ghost ga = action;
            match self.handle_timer(action) {
                Ok(_) => (),
                Err(_) => (),
            }
            proof {
                assert(Self::timer_effect(prev, *self, ga));
                Self::lemma_timer_effect_eq(prev, *self, ga, expired@[i as int]);
                Self::lemma_timers_handled_snoc(
                    start0,
                    prev,
                    *self,
                    expired@.take(i as int),
                    expired@[i as int],
                );
                assert(expired@.take(i + 1 as int) =~= expired@.take(i as int).push(
                    expired@[i as int],
                ));
            }
            i = i + 1;
        }
        proof {
            assert(expired@.take(expired@.len() as int) =~= expired@);
            assert(Self::timers_handled(start0, *self, expired@));
        }
        Ok(expired)
    }

    /// Empties the outbox; stands in for a transport picking everything up.
    pub fn drain_outbox(&mut self)
        ensures
            final(self).mailbox.outbox@ == Seq::<SendableMessage>::empty(),
            final(self).mailbox.inbox == old(self).mailbox.inbox,
            final(self).proposals == old(self).proposals,
            final(self).p1b_responses == old(self).p1b_responses,
            final(self).p2b_responses == old(self).p2b_responses,
            final(self).active == old(self).active,
            final(self).ballot_number == old(self).ballot_number,
            final(self).current_timeout == old(self).current_timeout,
            final(self).config == old(self).config,
            final(self).clock == old(self).clock,
            final(self).node_id == old(self).node_id,
            final(self).address == old(self).address,
            old(self).wf() ==> final(self).wf(),
    {
        self.mailbox.clear_outbox();
    }
}

/// `t * percent / 100`, clamped to `max`.
pub open spec fn scaled_timeout(t: u64, percent: u64, max: u64) -> u64 {
    if t * percent / 100 < max {
        (t * percent / 100) as u64
    } else {
        max
    }
}

/// Two quorums always share an acceptor: any two subsets of the acceptors
/// whose sizes together exceed the total must intersect.  This is the heart
/// of the agreement argument: a decided slot is accepted by a majority, and
/// any later ballot passing phase 1 hears from a majority, so some acceptor
/// reports the decided proposal into the later leader's `pmax` merge.
pub proof fn lemma_two_quorums_intersect(
    all: Set<AcceptorId>,
    q1: Set<AcceptorId>,
    q2: Set<AcceptorId>,
)
    requires
        all.finite(),
        q1.subset_of(all),
        q2.subset_of(all),
        q1.len() + q2.len() > all.len(),
    ensures
        exists|a: AcceptorId| q1.contains(a) && q2.contains(a),
{
    if !(exists|a: AcceptorId| q1.contains(a) && q2.contains(a)) {
        vstd::set_lib::lemma_set_subset_finite(all, q1);
        vstd::set_lib::lemma_set_subset_finite(all, q2);
        lemma_len_disjoint_union(q1, q2);
        lemma_len_subset(q1.union(q2), all);
        assert(false);
    }
}

/// Both quorums being strict majorities is enough for the intersection.
pub proof fn lemma_majorities_intersect(all: Set<AcceptorId>, q1: Set<AcceptorId>, q2: Set<
    AcceptorId,
>)
    requires
        all.finite(),
        q1.subset_of(all),
        q2.subset_of(all),
        q1.len() >= all.len() / 2 + 1,
        q2.len() >= all.len() / 2 + 1,
    ensures
        exists|a: AcceptorId| q1.contains(a) && q2.contains(a),
{
    lemma_two_quorums_intersect(all, q1, q2);
}

/// The union of disjoint finite sets is exactly as large as the two
/// together.
proof fn lemma_len_disjoint_union(s1: Set<AcceptorId>, s2: Set<AcceptorId>)
    requires
        s1.finite(),
        s2.finite(),
        forall|a: AcceptorId| !(s1.contains(a) && s2.contains(a)),
    ensures
        s1.union(s2).len() == s1.len() + s2.len(),
    decreases s1.len(),
{
    if s1.is_empty() {
        assert(s1.union(s2) =~= s2);
    } else {
        let a = s1.choose();
        assert(s1.contains(a));
        assert(s1.union(s2).remove(a) =~= s1.remove(a).union(s2));
        lemma_len_disjoint_union(s1.remove(a), s2);
        assert(s1.union(s2).contains(a));
    }
}

} // verus!
